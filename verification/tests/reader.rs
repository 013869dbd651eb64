use lineio::{EndOfInput, LineIO};

fn read_all(text: &str) -> Vec<String> {
    let mut reader = LineIO::new(&text.to_string());
    let mut lines = Vec::new();
    while let Ok(line) = reader.getline() {
        lines.push(line);
    }
    lines
}

/// What a reader built on std's own line splitting and trimming yields.
fn expected_lines(text: &str) -> Vec<String> {
    let mut lines = Vec::new();
    for raw in text.split_inclusive('\n') {
        if raw.starts_with('#') || raw == "\n" {
            continue;
        }
        lines.push(raw.trim().to_string());
    }
    lines
}

#[test]
fn empty_text_ends_at_once() {
    let mut reader = LineIO::new(&String::new());
    assert_eq!(reader.getline(), Err(EndOfInput));
}

#[test]
fn end_of_input_is_final() {
    let mut reader = LineIO::new(&"one\n".to_string());
    assert_eq!(reader.getline(), Ok("one".to_string()));
    for _ in 0..5 {
        assert_eq!(reader.getline(), Err(EndOfInput));
    }
}

#[test]
fn comments_are_never_returned() {
    assert_eq!(read_all("# first\na\n#second\n#\nb\n# last"), vec!["a", "b"]);
    assert_eq!(read_all("#only"), Vec::<String>::new());
    assert_eq!(read_all("# a\n# b\n"), Vec::<String>::new());
}

#[test]
fn blank_lines_are_never_returned() {
    assert_eq!(read_all("\n\na\n\n\nb\n\n"), vec!["a", "b"]);
    assert_eq!(read_all("\n"), Vec::<String>::new());
    assert_eq!(read_all("\n\n\n"), Vec::<String>::new());
}

#[test]
fn data_lines_are_trimmed_outside_only() {
    assert_eq!(read_all("  a  b\t c \t\n"), vec!["a  b\t c"]);
    assert_eq!(read_all("\t1 2   3\r\n"), vec!["1 2   3"]);
    assert_eq!(read_all("x"), vec!["x"]);
    assert_eq!(read_all("x\ny"), vec!["x", "y"]);
}

#[test]
fn unicode_whitespace_is_trimmed() {
    assert_eq!(read_all("\u{a0}\u{2003}abc\u{3000}\u{85}\n"), vec!["abc"]);
    assert_eq!(read_all("\u{200b}abc\u{200b}\n"), vec!["\u{200b}abc\u{200b}"]);
    assert_eq!(read_all("é ü\n"), vec!["é ü"]);
}

#[test]
fn header_blank_and_data_lines() {
    let mut reader = LineIO::new(&"# header\n\n1 2 3\n4 5\n".to_string());
    assert_eq!(reader.getline(), Ok("1 2 3".to_string()));
    assert_eq!(reader.getline(), Ok("4 5".to_string()));
    assert_eq!(reader.getline(), Err(EndOfInput));
}

#[test]
fn whitespace_only_line_is_returned_empty() {
    let mut reader = LineIO::new(&"# header\n\n1 2 3\n  \n4 5\n".to_string());
    assert_eq!(reader.getline(), Ok("1 2 3".to_string()));
    assert_eq!(reader.getline(), Ok(String::new()));
    assert_eq!(reader.getline(), Ok("4 5".to_string()));
    assert_eq!(reader.getline(), Err(EndOfInput));
}

#[test]
fn single_space_is_a_data_line() {
    assert_eq!(read_all(" \n"), vec![""]);
    assert_eq!(read_all(" "), vec![""]);
    assert_eq!(read_all("\r\n"), vec![""]);
}

#[test]
fn hash_after_whitespace_is_data() {
    assert_eq!(read_all(" # not a comment\n"), vec!["# not a comment"]);
    assert_eq!(read_all("a # b\n"), vec!["a # b"]);
}

#[test]
fn last_line_needs_no_terminator() {
    assert_eq!(read_all("a\nb"), vec!["a", "b"]);
    assert_eq!(read_all("a\n#b"), vec!["a"]);
    assert_eq!(read_all("7"), vec!["7"]);
}

#[test]
fn agrees_with_std_splitting_and_trimming() {
    let texts = [
        "",
        "\n",
        "#",
        "#\n",
        "a",
        "a\n",
        " a \n b \n",
        "# c\n\n\n1 2\n\t\n#x\n3 4",
        "\r\n\r\n#\r\nq\r\n",
        "\u{1680}x\u{2028}\ny\u{205f}\n\u{202f}\n",
        "  #\n#  \n ## \n",
        "\n\n\n   \n\n",
        "a\n\nb\n\n\nc",
        "\u{b}\u{c}v\u{c}\u{b}\n",
    ];
    for text in texts {
        assert_eq!(read_all(text), expected_lines(text), "text {:?}", text);
    }
}

#[test]
fn reading_one_text_twice_gives_the_same_lines() {
    let text = "# c\n1\n\n2\n".to_string();
    let mut first = LineIO::new(&text);
    let mut second = LineIO::new(&text);
    assert_eq!(first.getline(), Ok("1".to_string()));
    assert_eq!(second.getline(), Ok("1".to_string()));
    assert_eq!(first.getline(), Ok("2".to_string()));
    assert_eq!(first.getline(), Err(EndOfInput));
    assert_eq!(second.getline(), Ok("2".to_string()));
    assert_eq!(second.getline(), Err(EndOfInput));
}
