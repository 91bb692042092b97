//! The parsers, held against a reference grammar that is written with parser
//! combinators, on every string over a small alphabet up to a given length.

use nom::branch::alt;
use nom::bytes::complete::{tag, tag_no_case};
use nom::character::complete::{alphanumeric1, satisfy};
use nom::combinator::{eof, opt, recognize};
use nom::multi::{many0, many1};
use nom::sequence::{delimited, pair, preceded, terminated, tuple};
use nom::IResult;

use postbus::parser::result::{DomainParam, MailboxParam, ParseCommand};
use postbus::parser::{
    parse_atom, parse_command, parse_domain, parse_dot_string, parse_localpart, parse_mailbox,
    parse_qcontent_smtp, parse_quoted_string, parse_subdomain,
};

type Parsed<'a, T> = IResult<&'a str, T>;

fn ref_atext(input: &str) -> Parsed<&str> {
    recognize(satisfy(|c| {
        c.is_ascii_alphanumeric() || "!#$%&'*+-/=?^_`{|}~".contains(c)
    }))(input)
}

fn ref_atom(input: &str) -> Parsed<&str> {
    recognize(many1(ref_atext))(input)
}

fn ref_dot_string(input: &str) -> Parsed<&str> {
    recognize(pair(ref_atom, many0(pair(opt(tag(".")), ref_atom))))(input)
}

fn ref_qtext(input: &str) -> Parsed<&str> {
    recognize(satisfy(|c| {
        matches!(c, ' '..='!' | '#'..='[' | ']'..='~')
    }))(input)
}

fn ref_quoted_pair(input: &str) -> Parsed<&str> {
    preceded(tag("\\"), recognize(satisfy(|c| matches!(c, ' '..='~'))))(input)
}

fn ref_qcontent(input: &str) -> Parsed<&str> {
    alt((ref_qtext, ref_quoted_pair))(input)
}

fn ref_quoted_string(input: &str) -> Parsed<&str> {
    delimited(tag("\""), recognize(many1(ref_qcontent)), tag("\""))(input)
}

fn ref_localpart(input: &str) -> Parsed<&str> {
    alt((ref_dot_string, ref_quoted_string))(input)
}

fn ref_subdomain(input: &str) -> Parsed<&str> {
    recognize(pair(alphanumeric1, many0(pair(tag("-"), alphanumeric1))))(input)
}

fn ref_domain(input: &str) -> Parsed<&str> {
    recognize(pair(ref_subdomain, many0(pair(tag("."), ref_subdomain))))(input)
}

fn ref_mailbox(input: &str) -> Parsed<(&str, &str)> {
    let (rest, (local, _, domain)) = tuple((ref_localpart, tag("@"), ref_domain))(input)?;
    Ok((rest, (local, domain)))
}

fn ref_path(input: &str) -> Parsed<(&str, &str)> {
    delimited(tag("<"), ref_mailbox, tag(">"))(input)
}

#[derive(Debug, PartialEq)]
enum RefCommand<'a> {
    Ehlo(&'a str),
    Helo(&'a str),
    Mail(&'a str, &'a str),
    Rcpt(&'a str, &'a str),
    Data,
    Rset,
    Quit,
}

fn ref_ehlo(input: &str) -> Parsed<RefCommand> {
    let (rest, domain) = delimited(tag_no_case("EHLO "), ref_domain, eof)(input)?;
    Ok((rest, RefCommand::Ehlo(domain)))
}

fn ref_helo(input: &str) -> Parsed<RefCommand> {
    let (rest, domain) = delimited(tag_no_case("HELO "), ref_domain, eof)(input)?;
    Ok((rest, RefCommand::Helo(domain)))
}

fn ref_mail(input: &str) -> Parsed<RefCommand> {
    let (rest, (_, _, (local, domain), _)) =
        tuple((tag_no_case("MAIL FROM:"), opt(tag(" ")), ref_path, eof))(input)?;
    Ok((rest, RefCommand::Mail(local, domain)))
}

fn ref_rcpt(input: &str) -> Parsed<RefCommand> {
    let (rest, (_, _, (local, domain), _)) =
        tuple((tag_no_case("RCPT TO:"), opt(tag(" ")), ref_path, eof))(input)?;
    Ok((rest, RefCommand::Rcpt(local, domain)))
}

fn ref_data(input: &str) -> Parsed<RefCommand> {
    let (rest, _) = terminated(tag_no_case("DATA"), eof)(input)?;
    Ok((rest, RefCommand::Data))
}

fn ref_rset(input: &str) -> Parsed<RefCommand> {
    let (rest, _) = terminated(tag_no_case("RSET"), eof)(input)?;
    Ok((rest, RefCommand::Rset))
}

fn ref_quit(input: &str) -> Parsed<RefCommand> {
    let (rest, _) = terminated(tag_no_case("QUIT"), eof)(input)?;
    Ok((rest, RefCommand::Quit))
}

fn ref_command(input: &str) -> Parsed<RefCommand> {
    alt((
        ref_ehlo, ref_helo, ref_mail, ref_rcpt, ref_data, ref_rset, ref_quit,
    ))(input)
}

fn as_reference<'a>(command: ParseCommand<'a>) -> RefCommand<'a> {
    match command {
        ParseCommand::EHLO(DomainParam(d)) => RefCommand::Ehlo(d),
        ParseCommand::HELO(DomainParam(d)) => RefCommand::Helo(d),
        ParseCommand::FROM(MailboxParam(l, DomainParam(d))) => RefCommand::Mail(l, d),
        ParseCommand::RCPT(MailboxParam(l, DomainParam(d))) => RefCommand::Rcpt(l, d),
        ParseCommand::DATA => RefCommand::Data,
        ParseCommand::RSET => RefCommand::Rset,
        ParseCommand::QUIT => RefCommand::Quit,
    }
}

/// Call `check` on every string over `alphabet` of at most `limit` characters.
fn for_each_string(alphabet: &[char], limit: usize, check: &mut dyn FnMut(&str)) {
    let mut text = String::new();
    let mut digits: Vec<usize> = Vec::new();
    loop {
        check(&text);
        // Count up, as an odometer does, and grow by one place on overflow.
        let mut place = digits.len();
        loop {
            if place == 0 {
                digits.insert(0, 0);
                for d in digits.iter_mut() {
                    *d = 0;
                }
                break;
            }
            place -= 1;
            if digits[place] + 1 < alphabet.len() {
                digits[place] += 1;
                for d in digits[place + 1..].iter_mut() {
                    *d = 0;
                }
                break;
            }
        }
        if digits.len() > limit {
            return;
        }
        text.clear();
        for d in &digits {
            text.push(alphabet[*d]);
        }
    }
}

#[test]
fn enumeration_is_complete() {
    let mut seen = Vec::new();
    for_each_string(&['a', 'b'], 2, &mut |s| seen.push(s.to_string()));
    assert_eq!(vec!["", "a", "b", "aa", "ab", "ba", "bb"], seen);
}

#[test]
fn domains_match_the_reference() {
    let mut count = 0;
    for_each_string(&['a', '7', '-', '.', '_', 'Z'], 8, &mut |s| {
        assert_eq!(
            ref_domain(s).ok(),
            parse_domain(s).map(|(rest, DomainParam(d))| (rest, d)),
            "{:?}",
            s
        );
        assert_eq!(ref_subdomain(s).ok(), parse_subdomain(s), "{:?}", s);
        count += 1;
    });
    assert_eq!(2015539, count);
}

#[test]
fn local_parts_match_the_reference() {
    for_each_string(&['a', '!', '.', '"', '\\', ' ', '@'], 7, &mut |s| {
        assert_eq!(ref_atom(s).ok(), parse_atom(s), "{:?}", s);
        assert_eq!(ref_dot_string(s).ok(), parse_dot_string(s), "{:?}", s);
        assert_eq!(ref_quoted_string(s).ok(), parse_quoted_string(s), "{:?}", s);
        assert_eq!(ref_localpart(s).ok(), parse_localpart(s), "{:?}", s);
        assert_eq!(ref_qcontent(s).ok(), parse_qcontent_smtp(s), "{:?}", s);
    });
}

#[test]
fn mailboxes_match_the_reference() {
    for_each_string(&['a', '.', '-', '@', '"', '\\', '>'], 8, &mut |s| {
        assert_eq!(
            ref_mailbox(s).ok(),
            parse_mailbox(s).map(|(rest, MailboxParam(l, DomainParam(d)))| (rest, (l, d))),
            "{:?}",
            s
        );
    });
}

#[test]
fn mailbox_arguments_match_the_reference() {
    for_each_string(&['a', '.', '@', '"', '<', '>', ' '], 7, &mut |s| {
        for verb in ["MAIL FROM:", "rcpt to:"] {
            let line = format!("{}{}", verb, s);
            assert_eq!(
                ref_command(&line).ok(),
                parse_command(&line).map(|(rest, c)| (rest, as_reference(c))),
                "{:?}",
                line
            );
        }
    });
}

#[test]
fn domain_arguments_match_the_reference() {
    for_each_string(&['a', '.', '-', ' ', '@'], 7, &mut |s| {
        for verb in ["EHLO ", "helo ", "EHLO", "DATA", "Quit", "rSET"] {
            let line = format!("{}{}", verb, s);
            assert_eq!(
                ref_command(&line).ok(),
                parse_command(&line).map(|(rest, c)| (rest, as_reference(c))),
                "{:?}",
                line
            );
        }
    });
}

#[test]
fn verbs_match_the_reference() {
    let letters = [
        'D', 'A', 'T', 'd', 'a', 't', 'Q', 'U', 'I', 'q', 'u', 'i', 'R', 'S', 'E', 'r', 's', 'e',
        ' ', 'K', '\u{212a}',
    ];
    for_each_string(&letters, 4, &mut |s| {
        assert_eq!(
            ref_command(s).ok(),
            parse_command(s).map(|(rest, c)| (rest, as_reference(c))),
            "{:?}",
            s
        );
    });
}
