use postbus::command::{Command, Domain};
use postbus::parser::result::{DomainParam, MailboxParam, ParseCommand};
use postbus::parser::{parse, parse_command, parse_domain, parse_mailbox, parse_subdomain};

fn lines_of(input: &str) -> Vec<&str> {
    parse(input).0.into_iter().map(|(line, _)| line).collect()
}

#[test]
fn newline_at_the_end_leaves_no_tail() {
    for input in ["\n", "QUIT\n", "QUIT\r\n", "a\nb\n", "\r\n\r\n", "x\r\ny\n"] {
        assert_eq!("", parse(input).1);
    }
}

#[test]
fn valid_lines_all_parse() {
    let lines = [
        "EHLO nexium.app",
        "helo a-b.c",
        "MAIL FROM:<info@nexium.app>",
        "rcpt to: <\"a b\\\"c\"@x.y>",
        "DATA",
        "rset",
        "Quit",
    ];
    let mut input = String::new();
    for line in lines {
        input.push_str(line);
        input.push_str("\r\n");
    }
    let (parsed, tail) = parse(&input);
    assert_eq!(lines.len(), parsed.len());
    assert_eq!("", tail);
    for (i, (line, command)) in parsed.iter().enumerate() {
        assert_eq!(lines[i], *line);
        assert!(command.is_some());
    }
}

#[test]
fn suffix_without_newline_is_the_tail() {
    let buffer = "EHLO nexium.app\r\nNOPE\r\n";
    for suffix in ["", "Q", "QUIT", "MAIL FROM:<a@b", "x\r", "\r"] {
        let input = format!("{}{}", buffer, suffix);
        let (parsed, tail) = parse(&input);
        assert_eq!(suffix, tail);
        assert_eq!(2, parsed.len());
        assert!(parsed[0].1.is_some());
        assert!(parsed[1].1.is_none());
    }
}

#[test]
fn unparsable_line_stands_at_its_place() {
    let (parsed, tail) = parse("EHLO a.b\r\n\r\nEHLO  a.b\r\nQUIT\r\nEHLO c.d.\r\nRSET\r\n");
    assert_eq!("", tail);
    let commands: Vec<Option<Command>> = parsed.into_iter().map(|(_, c)| c).collect();
    assert_eq!(
        vec![
            Some(Command::EHLO(Domain("a.b".to_string()))),
            None,
            None,
            Some(Command::QUIT),
            None,
            Some(Command::RSET),
        ],
        commands
    );
}

#[test]
fn domain_parses_again() {
    for input in ["nexium.app", "a-b.c-d.e rest", "x.", "a--b", "9.8.7-"] {
        let (_, domain) = parse_domain(input).unwrap();
        let (rest, again) = parse_domain(domain.0).unwrap();
        assert_eq!("", rest);
        assert_eq!(domain, again);
    }
}

#[test]
fn line_terminators() {
    assert_eq!(vec!["a", "b", "", "c"], lines_of("a\r\nb\n\r\nc\nd"));
    // One carriage return belongs to the terminator, no more.
    assert_eq!(vec!["a\r", "\r"], lines_of("a\r\r\n\r\r\n"));
    assert_eq!(vec!["a\rb"], lines_of("a\rb\n"));
    assert_eq!(("\r", 0), (parse("\r").1, parse("\r").0.len()));
}

#[test]
fn verbs_ignore_case() {
    assert_eq!(
        ParseCommand::EHLO(DomainParam("Nexium.App")),
        parse_command("eHlO Nexium.App").unwrap().1
    );
    assert_eq!(
        ParseCommand::FROM(MailboxParam("A", DomainParam("b.c"))),
        parse_command("mail from:<A@b.c>").unwrap().1
    );
    assert_eq!(
        ParseCommand::RCPT(MailboxParam("A", DomainParam("b.c"))),
        parse_command("Rcpt To: <A@b.c>").unwrap().1
    );
    assert_eq!(ParseCommand::DATA, parse_command("data").unwrap().1);
}

#[test]
fn whole_line_or_nothing() {
    for line in [
        "",
        " ",
        "EHLO",
        "EHLO  nexium.app",
        "EHLO nexium.app ",
        "EHLO nexium.app.",
        "EHLO -nexium.app",
        "EHLO nexium..app",
        "EHLO nex_ium.app",
        "EHLOnexium.app",
        "MAIL FROM:  <a@b.c>",
        "MAIL FROM:<a@b.c> ",
        "MAIL FROM:<a@b.c>>",
        "MAIL FROM:<a@b.c",
        "MAIL FROM:<@b.c>",
        "MAIL FROM:<a@>",
        "MAIL FROM:<a.@b.c>",
        "MAIL FROM:<.a@b.c>",
        "MAIL FROM:<a..b@c.d>",
        "MAIL FROM:<a b@c.d>",
        "MAIL FROM:<\"\"@c.d>",
        "MAIL FROM:<\"a\"b@c.d>",
        "MAIL FROM:<\"a\\\"@c.d>",
        "MAIL FROM:<a@b@c.d>",
        "MAIL  FROM:<a@c.d>",
        "RCPT TO <a@c.d>",
        "DATA ",
        " DATA",
        "DATA\r",
        "QUIT NOW",
        "RSET\t",
        "NOOP",
        "ＥＨＬＯ nexium.app",
        "EHLO nexium.äpp",
        "MAIL FROM:<ł@b.c>",
    ] {
        assert!(parse_command(line).is_none(), "{:?}", line);
    }
}

#[test]
fn quoted_local_parts() {
    assert_eq!(
        ParseCommand::FROM(MailboxParam("a b", DomainParam("c.d"))),
        parse_command("MAIL FROM:<\"a b\"@c.d>").unwrap().1
    );
    // A quoted pair is kept as it stands, backslash and all.
    assert_eq!(
        ParseCommand::FROM(MailboxParam("a\\\"@\\\\>", DomainParam("c.d"))),
        parse_command("MAIL FROM:<\"a\\\"@\\\\>\"@c.d>").unwrap().1
    );
    let (rest, mailbox) = parse_mailbox("\"x@y\"@z.w>tail").unwrap();
    assert_eq!(MailboxParam("x@y", DomainParam("z.w")), mailbox);
    assert_eq!(">tail", rest);
}

#[test]
fn greedy_and_bounded() {
    assert_eq!(("-", "a-b"), {
        let (rest, label) = parse_subdomain("a-b-").unwrap();
        (rest, label)
    });
    assert_eq!((".c", "a"), {
        let (rest, label) = parse_subdomain("a.c").unwrap();
        (rest, label)
    });
    assert_eq!(("--b", DomainParam("a")), parse_domain("a--b").unwrap());
    assert_eq!(("-.b", DomainParam("a")), parse_domain("a-.b").unwrap());
    assert_eq!(("_b", DomainParam("a.b-c")), parse_domain("a.b-c_b").unwrap());
    let (rest, mailbox) = parse_mailbox("a@b.c.").unwrap();
    assert_eq!(MailboxParam("a", DomainParam("b.c")), mailbox);
    assert_eq!(".", rest);
}

#[test]
fn reading_in_pieces() {
    let whole = "EHLO a.b\r\nNOPE\nMAIL FROM:<x@y.z>\r\n\r\nQUIT\r\r\nRS";
    let expected: Vec<(String, Option<Command>)> = parse(whole)
        .0
        .into_iter()
        .map(|(line, command)| (line.to_string(), command))
        .collect();
    for cut in 0..=whole.len() {
        let (first, second) = whole.split_at(cut);
        let (lines, tail) = parse(first);
        let mut seen: Vec<(String, Option<Command>)> = lines
            .into_iter()
            .map(|(line, command)| (line.to_string(), command))
            .collect();
        let rest = format!("{}{}", tail, second);
        let (lines, tail) = parse(&rest);
        seen.extend(
            lines
                .into_iter()
                .map(|(line, command)| (line.to_string(), command)),
        );
        assert_eq!(expected, seen, "cut at {}", cut);
        assert_eq!("RS", tail);
    }
}
