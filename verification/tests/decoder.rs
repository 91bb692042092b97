use postbus::parser::parse_data_lines;

fn decode(input: &str) -> (bool, String, String) {
    parse_data_lines(input)
}

fn decoded(ended: bool, body: &str, tail: &str) -> (bool, String, String) {
    (ended, body.to_string(), tail.to_string())
}

/// Encode a body as a client does: escape the lines, join them, end the body.
fn encode(lines: &[&str]) -> String {
    let mut out = String::new();
    for (i, line) in lines.iter().enumerate() {
        if i > 0 {
            out.push_str("\r\n");
        }
        if line.starts_with('.') {
            out.push('.');
        }
        out.push_str(line);
    }
    out.push_str("\r\n.\r\n");
    out
}

#[test]
fn data_single_line() {
    assert_eq!(decoded(true, "Hello", ""), decode("Hello\r\n.\r\n"));
}

#[test]
fn data_empty_input() {
    assert_eq!(decoded(false, "", ""), decode(""));
}

#[test]
fn data_only_terminator() {
    assert_eq!(decoded(true, "", ""), decode(".\r\n"));
}

#[test]
fn data_not_ended() {
    assert_eq!(decoded(false, "Hello\r\nWor", ""), decode("Hello\r\nWor"));
}

#[test]
fn data_not_ended_after_complete_line() {
    assert_eq!(decoded(false, "Hello", ""), decode("Hello\r\n"));
}

#[test]
fn data_dot_stuffing() {
    assert_eq!(
        decoded(true, "hidden\r\n.dotted", ""),
        decode(".hidden\r\n..dotted\r\n.\r\n")
    );
}

#[test]
fn data_stuffed_line_keeps_one_dot() {
    assert_eq!(decoded(false, ".dotted", ""), decode("..dotted\r\n"));
    assert_eq!(decoded(false, ".", ""), decode("..\r\n"));
}

#[test]
fn data_tail_after_terminator() {
    assert_eq!(
        decoded(true, "Hi", "QUIT\r\nNOOP"),
        decode("Hi\r\n.\r\nQUIT\r\nNOOP")
    );
}

#[test]
fn data_tail_is_joined_lines() {
    // The lines after the terminator are joined again: a terminator behind the
    // last of them is not part of the tail.
    assert_eq!(decoded(true, "Hi", "QUIT"), decode("Hi\r\n.\r\nQUIT\r\n"));
    assert_eq!(decoded(true, "Hi", "A\r\nB"), decode("Hi\r\n.\r\nA\nB\n"));
}

#[test]
fn data_second_terminator_goes_to_tail() {
    assert_eq!(decoded(true, "a", "."), decode("a\r\n.\r\n.\r\n"));
    assert_eq!(decoded(true, "a", "..x"), decode("a\r\n.\r\n..x\r\n"));
}

#[test]
fn data_bare_line_feeds() {
    assert_eq!(decoded(true, "a\r\nb", ""), decode("a\nb\n.\n"));
}

#[test]
fn data_unfinished_dot_ends() {
    assert_eq!(decoded(true, "a", ""), decode("a\r\n."));
}

#[test]
fn data_carriage_returns() {
    // Only the carriage return before a line feed belongs to the terminator.
    assert_eq!(decoded(false, "a\r", ""), decode("a\r"));
    assert_eq!(decoded(false, "a\r", ""), decode("a\r\r\n"));
    // An unfinished line keeps its carriage return, and loses its escape.
    assert_eq!(decoded(false, "\r", ""), decode(".\r"));
    assert_eq!(decoded(false, "a\rb", ""), decode("a\rb\r\n"));
}

#[test]
fn data_empty_lines() {
    assert_eq!(decoded(true, "\r\n\r\nx", ""), decode("\r\n\r\nx\r\n.\r\n"));
    assert_eq!(decoded(true, "", ""), decode("\r\n.\r\n"));
}

#[test]
fn data_non_ascii() {
    assert_eq!(
        decoded(true, "Grüße\r\n.日本語", "é"),
        decode("Grüße\r\n..日本語\r\n.\r\né")
    );
}

#[test]
fn data_round_trip() {
    let bodies: Vec<Vec<&str>> = vec![
        vec![""],
        vec!["Hello"],
        vec![".", "..", "...", ""],
        vec!["Subject: hi", "", "line one", ".line two", "end."],
        vec!["a\r", "b"],
        vec!["", "", ""],
    ];
    for lines in bodies {
        let body = lines.join("\r\n");
        let sent = encode(&lines);
        assert_eq!((true, body.clone(), String::new()), decode(&sent));
        let with_tail = format!("{}QUIT", sent);
        assert_eq!((true, body, "QUIT".to_string()), decode(&with_tail));
    }
}
