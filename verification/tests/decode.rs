use lineio::{LineIO, ParseError};

fn line(s: &str) -> String {
    s.to_string()
}

fn rejected(token: &str, index: usize, whole: &str) -> ParseError {
    ParseError { token: token.to_string(), index, line: whole.to_string() }
}

#[test]
fn unsigned_numbers_in_order() {
    assert_eq!(LineIO::to_u32(&line("1 2 3")), Ok(vec![1, 2, 3]));
    assert_eq!(LineIO::to_usize(&line("1 2 3")), Ok(vec![1, 2, 3]));
    assert_eq!(LineIO::to_i32(&line("1 2 3")), Ok(vec![1, 2, 3]));
}

#[test]
fn floats_from_tokens() {
    let tokens = LineIO::to_tokens(&line("1.5 2.0"));
    assert_eq!(tokens, vec!["1.5", "2.0"]);
    let values: Vec<f32> = tokens.iter().map(|t| t.parse().unwrap()).collect();
    assert_eq!(values, vec![1.5, 2.0]);
}

#[test]
fn fraction_is_no_integer() {
    assert_eq!(LineIO::to_i32(&line("1.5")), Err(rejected("1.5", 0, "1.5")));
    assert_eq!(LineIO::to_u32(&line("1.5")), Err(rejected("1.5", 0, "1.5")));
    assert_eq!(LineIO::to_usize(&line("1.5")), Err(rejected("1.5", 0, "1.5")));
}

#[test]
fn blank_lines_decode_to_nothing() {
    for s in ["", " ", "   ", "\t", " \t \r\n", "\u{a0}\u{3000}"] {
        assert_eq!(LineIO::to_usize(&line(s)), Ok(vec![]));
        assert_eq!(LineIO::to_u32(&line(s)), Ok(vec![]));
        assert_eq!(LineIO::to_i32(&line(s)), Ok(vec![]));
        assert_eq!(LineIO::to_tokens(&line(s)), Vec::<String>::new());
    }
}

#[test]
fn tokens_are_split_on_runs_of_whitespace() {
    assert_eq!(LineIO::to_tokens(&line("  a  bc\t\td \n")), vec!["a", "bc", "d"]);
    assert_eq!(LineIO::to_tokens(&line("one")), vec!["one"]);
    assert_eq!(LineIO::to_tokens(&line("x\u{a0}y\u{2003}z")), vec!["x", "y", "z"]);
}

#[test]
fn tokens_agree_with_std() {
    let lines = ["", " ", "a", " a", "a ", "a b", "  a \t b\r\n", "1,2 3;4", "\u{3000}é\u{85}ü", "a\u{200b}b c"];
    for s in lines {
        let expected: Vec<String> = s.split_whitespace().map(|t| t.to_string()).collect();
        assert_eq!(LineIO::to_tokens(&line(s)), expected, "line {:?}", s);
    }
}

#[test]
fn signs() {
    assert_eq!(LineIO::to_i32(&line("-5 +7 0 -0 +0")), Ok(vec![-5, 7, 0, 0, 0]));
    assert_eq!(LineIO::to_u32(&line("+7 0 +0")), Ok(vec![7, 0, 0]));
    assert_eq!(LineIO::to_usize(&line("+7")), Ok(vec![7]));
    assert_eq!(LineIO::to_u32(&line("-0")), Err(rejected("-0", 0, "-0")));
    assert_eq!(LineIO::to_usize(&line("1 -1")), Err(rejected("-1", 1, "1 -1")));
    for s in ["+", "-", "+-1", "-+1", "--1", "++1", "1-", "1+"] {
        assert_eq!(LineIO::to_i32(&line(s)), Err(rejected(s, 0, s)));
        assert_eq!(LineIO::to_u32(&line(s)), Err(rejected(s, 0, s)));
    }
}

#[test]
fn leading_zeros() {
    assert_eq!(LineIO::to_u32(&line("007 0000000000000000000000042")), Ok(vec![7, 42]));
    assert_eq!(LineIO::to_i32(&line("-007 +00")), Ok(vec![-7, 0]));
}

#[test]
fn limits_of_u32() {
    assert_eq!(LineIO::to_u32(&line("4294967295")), Ok(vec![u32::MAX]));
    assert_eq!(LineIO::to_u32(&line("4294967296")), Err(rejected("4294967296", 0, "4294967296")));
    assert_eq!(
        LineIO::to_u32(&line("0 99999999999999999999999999")),
        Err(rejected("99999999999999999999999999", 1, "0 99999999999999999999999999"))
    );
}

#[test]
fn limits_of_i32() {
    assert_eq!(LineIO::to_i32(&line("2147483647 -2147483648")), Ok(vec![i32::MAX, i32::MIN]));
    assert_eq!(LineIO::to_i32(&line("2147483648")), Err(rejected("2147483648", 0, "2147483648")));
    assert_eq!(LineIO::to_i32(&line("-2147483649")), Err(rejected("-2147483649", 0, "-2147483649")));
    assert_eq!(
        LineIO::to_i32(&line("-18446744073709551617")),
        Err(rejected("-18446744073709551617", 0, "-18446744073709551617"))
    );
}

#[test]
fn limits_of_usize() {
    let max = format!("{}", usize::MAX);
    assert_eq!(LineIO::to_usize(&max), Ok(vec![usize::MAX]));
    let over = format!("{}", usize::MAX as u128 + 1);
    assert_eq!(LineIO::to_usize(&over), Err(rejected(&over, 0, &over)));
    let far = format!("{}", u128::MAX);
    assert_eq!(LineIO::to_usize(&far), Err(rejected(&far, 0, &far)));
}

#[test]
fn first_bad_token_is_reported() {
    assert_eq!(LineIO::to_u32(&line(" 1 2 x 4 y ")), Err(rejected("x", 2, " 1 2 x 4 y ")));
    assert_eq!(LineIO::to_i32(&line("a b")), Err(rejected("a", 0, "a b")));
    assert_eq!(LineIO::to_usize(&line("10 20 3e1")), Err(rejected("3e1", 2, "10 20 3e1")));
}

#[test]
fn other_notations_are_refused() {
    for s in ["1_000", "0x10", "1e3", "1.", ".5", "١٢٣", "１２", "12a", "a12", "1,2", "٣", "NaN", "inf"] {
        assert_eq!(LineIO::to_u32(&line(s)), Err(rejected(s, 0, s)));
        assert_eq!(LineIO::to_i32(&line(s)), Err(rejected(s, 0, s)));
        assert_eq!(LineIO::to_usize(&line(s)), Err(rejected(s, 0, s)));
    }
}

#[test]
fn integers_agree_with_std() {
    let tokens = [
        "0", "1", "9", "10", "+1", "-1", "+0", "-0", "00", "+", "-", "a", "1a", "4294967295",
        "4294967296", "2147483647", "2147483648", "-2147483648", "-2147483649",
        "18446744073709551615", "18446744073709551616", "+18446744073709551615",
        "340282366920938463463374607431768211456", "000000000000000000000000000000000001",
        "1.0", "0x1", "1_0", "٣", "１", "--1", "+-1", "١", "12345", "-12345", "/", ":", "0/", "0:",
    ];
    for t in tokens {
        let s = line(t);
        assert_eq!(LineIO::to_u32(&s).ok(), t.parse::<u32>().ok().map(|v| vec![v]), "u32 {:?}", t);
        assert_eq!(LineIO::to_i32(&s).ok(), t.parse::<i32>().ok().map(|v| vec![v]), "i32 {:?}", t);
        assert_eq!(LineIO::to_usize(&s).ok(), t.parse::<usize>().ok().map(|v| vec![v]), "usize {:?}", t);
    }
}

#[test]
fn reader_and_decoder_together() {
    let mut reader = LineIO::new(&"# sizes\n\n 3 4 5 \n-1 0 1\n".to_string());
    let first = reader.getline().unwrap();
    assert_eq!(LineIO::to_usize(&first), Ok(vec![3, 4, 5]));
    let second = reader.getline().unwrap();
    assert_eq!(LineIO::to_i32(&second), Ok(vec![-1, 0, 1]));
    assert_eq!(LineIO::to_u32(&second), Err(rejected("-1", 0, "-1 0 1")));
    assert!(reader.getline().is_err());
}
