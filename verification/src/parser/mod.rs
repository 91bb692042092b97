//! The command parser and the DATA body decoder.
//!
//! [`parse`] cuts a buffer into lines and reads a command from each;
//! [`parse_data_lines`] decodes a piece of a message body.  The other
//! functions read one element of the grammar at the start of their input and
//! return what follows it together with what they read.

mod buffer;
pub mod chars;
pub mod data;
pub mod grammar;
pub mod lines;
pub mod result;
pub mod rules;
pub mod scan;

use vstd::prelude::*;
use vstd::string::*;
use crate::command::{Command, CommandView, command_view};
use crate::parser::buffer::{Buffer, line_end};
use crate::parser::chars::{is_qtext, is_quotable, qtext, quotable};
use crate::parser::data::{
    body_lines, decoded_body, decoded_tail, has_ended, lemma_decode_push, lemma_join_lines_push,
    lines_after, unstuff,
};
use crate::parser::grammar::{
    Shape, command_of, is_quoted_string, lemma_command_is_printable, local_part_value,
    local_prefix, longest_mailbox_prefix, mailbox_of, no_local_prefix, no_mailbox_prefix,
    quoted_prefix,
};
use crate::parser::lines::{
    all_lines, complete_lines, crlf, find_newline, lemma_first_newline_is, lemma_lines_end,
    lemma_lines_of_concatenation, lemma_lines_step, lemma_no_tail_after_newline,
    lemma_suffix_becomes_tail, lemma_tail_holds_no_newline, lemma_terminated_lines, strip_cr,
    terminated, unfinished_tail,
};
use crate::parser::result::{DomainParam, MailboxParam, ParseCommand};
use crate::parser::scan::{scan_mailbox, scan_quoted, scan_shape};

verus! {

/// Parse an SMTP command.
/// It automatically splits the commands into lines, so raw strings can be put in.
///
/// Returns every line that a line feed completes, in order, each with the
/// command it spells or `None` if it spells none, and the unfinished tail
/// that follows the last line feed.
pub fn parse<'a>(input: &'a str) -> (r: (Vec<(&'a str, Option<Command>)>, &'a str))
    ensures
        r.1@ == unfinished_tail(input@),
        r.0@.len() == complete_lines(input@).len(),
        forall|i: int|
            0 <= i < r.0@.len() ==> {
                &&& (#[trigger] r.0@[i]).0@ == complete_lines(input@)[i]
                &&& command_view(r.0@[i].1) == command_of(complete_lines(input@)[i])
            },
        input@.len() > 0 && input@.last() == '\n' ==> r.1@.len() == 0,
        forall|i: int| 0 <= i < r.1@.len() ==> r.1@[i] != '\n',
{
    let buffer = Buffer::new(input);
    let n = buffer.len();
    let ghost s = input@;
    proof {
        lemma_tail_holds_no_newline(s);
        if s.len() > 0 && s.last() == '\n' {
            lemma_no_tail_after_newline(s);
        }
    }
    let mut result: Vec<(&'a str, Option<Command>)> = Vec::new();
    let mut pos: usize = 0;
    assert(s.skip(0) =~= s);
    loop
        invariant
            buffer.wf(),
            buffer.text@ == s,
            n == s.len(),
            pos <= n,
            complete_lines(s) == complete_lines(s).take(result@.len() as int) + complete_lines(
                s.skip(pos as int),
            ),
            result@.len() <= complete_lines(s).len(),
            unfinished_tail(s) == unfinished_tail(s.skip(pos as int)),
            forall|i: int|
                0 <= i < result@.len() ==> {
                    &&& (#[trigger] result@[i]).0@ == complete_lines(s)[i]
                    &&& command_view(result@[i].1) == command_of(complete_lines(s)[i])
                },
        ensures
            pos <= n,
            result@.len() == complete_lines(s).len(),
            unfinished_tail(s) == s.skip(pos as int),
            forall|i: int|
                0 <= i < result@.len() ==> {
                    &&& (#[trigger] result@[i]).0@ == complete_lines(s)[i]
                    &&& command_view(result@[i].1) == command_of(complete_lines(s)[i])
                },
        decreases n - pos,
    {
        let k = find_newline(&buffer.chars, pos);
        if k >= n {
            proof {
                lemma_lines_end(s, pos as int);
                let done = complete_lines(s).take(result@.len() as int);
                assert(done + Seq::<Seq<char>>::empty() =~= done);
            }
            break ;
        }
        let end = line_end(&buffer, pos, k);
        let line = buffer.slice(pos, end);
        let command = match buffer.command_in(pos, end) {
            Some(parsed) => Some(parsed.to_command()),
            None => None,
        };
        proof {
            lemma_lines_step(s, pos as int, k as int);
            let done = complete_lines(s).take(result@.len() as int);
            let rest = complete_lines(s.skip(k + 1));
            assert(complete_lines(s) =~= done + (seq![line@] + rest));
            assert(complete_lines(s)[result@.len() as int] == line@);
            assert(complete_lines(s).take(result@.len() as int + 1) =~= done.push(line@));
            assert(complete_lines(s) =~= done.push(line@) + rest);
        }
        result.push((line, command));
        pos = k + 1;
    }
    let tail = buffer.slice(pos, n);
    (result, tail)
}

/// What the decoder has gathered from the lines it has seen.
struct Decoded {
    ended: bool,
    body: String,
    body_empty: bool,
    tail: String,
    tail_empty: bool,
}

impl Decoded {
    /// The gathered parts are those of the lines `seen`.
    spec fn holds(&self, seen: Seq<Seq<char>>) -> bool {
        &&& self.ended == has_ended(seen)
        &&& self.body@ == decoded_body(seen)
        &&& self.body_empty == (body_lines(seen).len() == 0)
        &&& self.tail@ == decoded_tail(seen)
        &&& self.tail_empty == (lines_after(seen).len() == 0)
    }

    fn new() -> (r: Self)
        ensures
            r.holds(Seq::empty()),
    {
        Decoded {
            ended: false,
            body: String::new(),
            body_empty: true,
            tail: String::new(),
            tail_empty: true,
        }
    }

    /// Take the line at `start..end` of the buffer.
    fn push_line(&mut self, buffer: &Buffer, start: usize, end: usize, Ghost(seen): Ghost<
        Seq<Seq<char>>,
    >)
        requires
            buffer.wf(),
            start <= end <= buffer.text@.len(),
            old(self).holds(seen),
        ensures
            final(self).holds(seen.push(buffer.range(start as int, end as int))),
    {
        let ghost line = buffer.range(start as int, end as int);
        proof {
            lemma_decode_push(seen, line);
            lemma_join_lines_push(body_lines(seen), unstuff(line));
            lemma_join_lines_push(lines_after(seen), line);
            reveal_strlit("\r\n");
            assert("\r\n"@ =~= crlf());
        }
        if self.ended {
            if !self.tail_empty {
                self.tail.append("\r\n");
            }
            self.tail.append(buffer.slice(start, end));
            self.tail_empty = false;
            assert(self.tail@ =~= decoded_tail(seen.push(line)));
        } else if end - start == 1 && buffer.chars[start] == '.' {
            assert(line[0] == buffer.chars@[start as int]);
            self.ended = true;
        } else {
            assert(end > start ==> line[0] == buffer.chars@[start as int]);
            if !self.body_empty {
                self.body.append("\r\n");
            }
            if end > start && buffer.chars[start] == '.' {
                assert(line.skip(1) =~= buffer.range(start + 1, end as int));
                self.body.append(buffer.slice(start + 1, end));
            } else {
                self.body.append(buffer.slice(start, end));
            }
            self.body_empty = false;
            assert(self.body@ =~= decoded_body(seen.push(line)));
        }
    }
}

/// Parse a data line.
/// The returning tuple contains:
/// - Boolean indicating if an end of data state was reached.
/// - String with the data: the lines before the end of data, each without the
///   dot that escapes it, joined by CR LF.
/// - Remaining string with the lines after the data end, joined by CR LF.  This
///   is only non-empty if the boolean is true.
pub fn parse_data_lines(input: &str) -> (r: (bool, String, String))
    ensures
        r.0 == has_ended(all_lines(input@)),
        r.1@ == decoded_body(all_lines(input@)),
        r.2@ == decoded_tail(all_lines(input@)),
        !r.0 ==> r.2@.len() == 0,
{
    let buffer = Buffer::new(input);
    let n = buffer.len();
    let ghost s = input@;
    let mut decoded = Decoded::new();
    let ghost mut seen: Seq<Seq<char>> = Seq::empty();
    let mut pos: usize = 0;
    assert(s.skip(0) =~= s);
    assert(seen + complete_lines(s) =~= complete_lines(s));
    loop
        invariant
            buffer.wf(),
            buffer.text@ == s,
            n == s.len(),
            pos <= n,
            complete_lines(s) == seen + complete_lines(s.skip(pos as int)),
            unfinished_tail(s) == unfinished_tail(s.skip(pos as int)),
            decoded.holds(seen),
        ensures
            pos <= n,
            complete_lines(s) == seen,
            unfinished_tail(s) == s.skip(pos as int),
            decoded.holds(seen),
        decreases n - pos,
    {
        let k = find_newline(&buffer.chars, pos);
        if k >= n {
            proof {
                lemma_lines_end(s, pos as int);
                assert(seen + Seq::<Seq<char>>::empty() =~= seen);
            }
            break ;
        }
        let end = line_end(&buffer, pos, k);
        decoded.push_line(&buffer, pos, end, Ghost(seen));
        proof {
            lemma_lines_step(s, pos as int, k as int);
            let line = buffer.range(pos as int, end as int);
            let rest = complete_lines(s.skip(k + 1));
            assert(seen + (seq![line] + rest) =~= seen.push(line) + rest);
            seen = seen.push(line);
        }
        pos = k + 1;
    }
    if pos < n {
        decoded.push_line(&buffer, pos, n, Ghost(seen));
        assert(buffer.range(pos as int, n as int) =~= s.skip(pos as int));
    }
    (decoded.ended, decoded.body, decoded.tail)
}

/// Read a command from all of `input`: the first of the seven forms that fits
/// the whole of it.  Nothing is left over when one fits.
pub fn parse_command<'a>(input: &'a str) -> (r: Option<(&'a str, ParseCommand<'a>)>)
    ensures
        match r {
            Some((rest, command)) => rest@.len() == 0 && command_of(input@) == Some(command@),
            None => command_of(input@) is None,
        },
{
    let buffer = Buffer::new(input);
    let n = buffer.len();
    assert(buffer.range(0, n as int) =~= input@);
    match buffer.command_in(0, n) {
        Some(command) => Some((buffer.slice(n, n), command)),
        None => None,
    }
}

/// Read, at the start of `input`, the longest text that `shape` derives.
/// Returns what follows it and the text itself.
fn parse_shape<'a>(input: &'a str, shape: Shape) -> (r: Option<(&'a str, &'a str)>)
    ensures
        match r {
            Some((rest, found)) => {
                &&& shape.longest_prefix(input@, found@.len() as int)
                &&& found@ == input@.take(found@.len() as int)
                &&& rest@ == input@.skip(found@.len() as int)
            },
            None => shape.no_prefix(input@),
        },
{
    let buffer = Buffer::new(input);
    let n = buffer.len();
    assert(buffer.range(0, n as int) =~= input@);
    match scan_shape(&buffer.chars, 0, n, shape) {
        Some(stop) => Some((buffer.slice(stop, n), buffer.slice(0, stop))),
        None => None,
    }
}

/// Read the longest atom at the start of `input`.
pub fn parse_atom<'a>(input: &'a str) -> (r: Option<(&'a str, &'a str)>)
    ensures
        match r {
            Some((rest, atom)) => {
                &&& Shape::Atom.longest_prefix(input@, atom@.len() as int)
                &&& atom@ == input@.take(atom@.len() as int)
                &&& rest@ == input@.skip(atom@.len() as int)
            },
            None => Shape::Atom.no_prefix(input@),
        },
{
    parse_shape(input, Shape::Atom)
}

/// Read the longest dot-string at the start of `input`.
pub fn parse_dot_string<'a>(input: &'a str) -> (r: Option<(&'a str, &'a str)>)
    ensures
        match r {
            Some((rest, found)) => {
                &&& Shape::DotString.longest_prefix(input@, found@.len() as int)
                &&& found@ == input@.take(found@.len() as int)
                &&& rest@ == input@.skip(found@.len() as int)
            },
            None => Shape::DotString.no_prefix(input@),
        },
{
    parse_shape(input, Shape::DotString)
}

/// Read the longest subdomain at the start of `input`.
pub fn parse_subdomain<'a>(input: &'a str) -> (r: Option<(&'a str, &'a str)>)
    ensures
        match r {
            Some((rest, label)) => {
                &&& Shape::Subdomain.longest_prefix(input@, label@.len() as int)
                &&& label@ == input@.take(label@.len() as int)
                &&& rest@ == input@.skip(label@.len() as int)
            },
            None => Shape::Subdomain.no_prefix(input@),
        },
{
    parse_shape(input, Shape::Subdomain)
}

/// Read the longest domain at the start of `input`.  A dot or a hyphen that
/// no letter or digit follows is left unread.
pub fn parse_domain<'a>(input: &'a str) -> (r: Option<(&'a str, DomainParam<'a>)>)
    ensures
        match r {
            Some((rest, domain)) => {
                &&& Shape::Domain.longest_prefix(input@, domain@.len() as int)
                &&& domain@ == input@.take(domain@.len() as int)
                &&& rest@ == input@.skip(domain@.len() as int)
            },
            None => Shape::Domain.no_prefix(input@),
        },
{
    match parse_shape(input, Shape::Domain) {
        Some((rest, found)) => Some((rest, DomainParam(found))),
        None => None,
    }
}

/// Read one `qtext` character at the start of `input`.
pub fn parse_qtext_smtp<'a>(input: &'a str) -> (r: Option<(&'a str, &'a str)>)
    ensures
        match r {
            Some((rest, found)) => {
                &&& input@.len() > 0
                &&& is_qtext(input@[0])
                &&& found@ == input@.take(1)
                &&& rest@ == input@.skip(1)
            },
            None => input@.len() == 0 || !is_qtext(input@[0]),
        },
{
    let buffer = Buffer::new(input);
    let n = buffer.len();
    if n > 0 && qtext(buffer.chars[0]) {
        Some((buffer.slice(1, n), buffer.slice(0, 1)))
    } else {
        None
    }
}

/// Read one quoted pair at the start of `input`: a backslash and a printable
/// character.  Returns what follows and the character behind the backslash.
pub fn parse_quotedpair_smtp<'a>(input: &'a str) -> (r: Option<(&'a str, &'a str)>)
    ensures
        match r {
            Some((rest, found)) => {
                &&& input@.len() >= 2
                &&& input@[0] == '\\'
                &&& is_quotable(input@[1])
                &&& found@ == input@.subrange(1, 2)
                &&& rest@ == input@.skip(2)
            },
            None => input@.len() < 2 || input@[0] != '\\' || !is_quotable(input@[1]),
        },
{
    let buffer = Buffer::new(input);
    let n = buffer.len();
    if n >= 2 && buffer.chars[0] == '\\' && quotable(buffer.chars[1]) {
        Some((buffer.slice(2, n), buffer.slice(1, 2)))
    } else {
        None
    }
}

/// Read one unit of quoted content at the start of `input`: a `qtext`
/// character, or else a quoted pair.
pub fn parse_qcontent_smtp<'a>(input: &'a str) -> (r: Option<(&'a str, &'a str)>)
    ensures
        match r {
            Some((rest, found)) => {
                &&& input@.len() > 0
                &&& if is_qtext(input@[0]) {
                    found@ == input@.take(1) && rest@ == input@.skip(1)
                } else {
                    &&& input@.len() >= 2
                    &&& input@[0] == '\\'
                    &&& is_quotable(input@[1])
                    &&& found@ == input@.subrange(1, 2)
                    &&& rest@ == input@.skip(2)
                }
            },
            None => input@.len() == 0 || (!is_qtext(input@[0]) && (input@.len() < 2 || input@[0]
                != '\\' || !is_quotable(input@[1]))),
        },
{
    match parse_qtext_smtp(input) {
        Some(found) => Some(found),
        None => parse_quotedpair_smtp(input),
    }
}

/// Read the quoted string at the start of `input`.  Returns what follows it
/// and its content, without the quotes.
pub fn parse_quoted_string<'a>(input: &'a str) -> (r: Option<(&'a str, &'a str)>)
    ensures
        match r {
            Some((rest, content)) => {
                &&& quoted_prefix(input@, content@.len() as int)
                &&& content@ == input@.subrange(1, content@.len() as int + 1)
                &&& rest@ == input@.skip(content@.len() as int + 2)
            },
            None => forall|k: int| !quoted_prefix(input@, k),
        },
{
    let buffer = Buffer::new(input);
    let n = buffer.len();
    assert(buffer.range(0, n as int) =~= input@);
    match scan_quoted(&buffer.chars, 0, n) {
        Some(len) => Some((buffer.slice(len + 2, n), buffer.slice(1, len + 1))),
        None => None,
    }
}

/// Read the local part at the start of `input`: a dot-string, or else a
/// quoted string.  Returns what follows it and the local part as it is
/// stored, a quoted string without its quotes.
pub fn parse_localpart<'a>(input: &'a str) -> (r: Option<(&'a str, &'a str)>)
    ensures
        match r {
            Some((rest, local)) => {
                &&& rest@.len() <= input@.len()
                &&& local_prefix(input@, input@.len() - rest@.len())
                &&& local@ == local_part_value(input@.take(input@.len() - rest@.len()))
                &&& rest@ == input@.skip(input@.len() - rest@.len())
            },
            None => no_local_prefix(input@),
        },
{
    let buffer = Buffer::new(input);
    let n = buffer.len();
    assert(buffer.range(0, n as int) =~= input@);
    if n > 0 && buffer.chars[0] == '"' {
        match scan_quoted(&buffer.chars, 0, n) {
            Some(len) => {
                proof {
                    let quoted = input@.take(len + 2);
                    assert(quoted.subrange(1, quoted.len() - 1) =~= input@.subrange(
                        1,
                        len + 1,
                    ));
                }
                Some((buffer.slice(len + 2, n), buffer.slice(1, len + 1)))
            },
            None => None,
        }
    } else {
        match scan_shape(&buffer.chars, 0, n, Shape::DotString) {
            Some(stop) => {
                proof {
                    let found = input@.take(stop as int);
                    assert(found[0] == input@[0]);
                    assert(!is_quoted_string(found));
                }
                Some((buffer.slice(stop, n), buffer.slice(0, stop)))
            },
            None => None,
        }
    }
}

/// Read the longest mailbox at the start of `input`.  Returns what follows it
/// and the mailbox.
pub fn parse_mailbox<'a>(input: &'a str) -> (r: Option<(&'a str, MailboxParam<'a>)>)
    ensures
        match r {
            Some((rest, mailbox)) => {
                &&& rest@.len() <= input@.len()
                &&& longest_mailbox_prefix(input@, input@.len() - rest@.len())
                &&& mailbox_of(input@.take(input@.len() - rest@.len())) == Some(mailbox@)
                &&& rest@ == input@.skip(input@.len() - rest@.len())
            },
            None => no_mailbox_prefix(input@),
        },
{
    let buffer = Buffer::new(input);
    let n = buffer.len();
    assert(buffer.range(0, n as int) =~= input@);
    match scan_mailbox(&buffer.chars, 0, n) {
        Some(span) => {
            assert(input@.take(span.domain_end as int) =~= buffer.chars@.subrange(
                0,
                span.domain_end as int,
            ));
            Some((buffer.slice(span.domain_end, n), buffer.mailbox_at(&span)))
        },
        None => None,
    }
}

/// What the complete lines of `text` spell, line by line: a command, or
/// `None` for a line that spells none.
pub open spec fn commands_of(text: Seq<char>) -> Seq<Option<CommandView>> {
    complete_lines(text).map_values(|line: Seq<char>| command_of(line))
}

/// Lines that each spell a command, each followed by CR LF, are read back as
/// that many commands, with nothing left over.
pub proof fn lemma_valid_lines_all_parse(lines: Seq<Seq<char>>)
    requires
        forall|i: int| 0 <= i < lines.len() ==> command_of(#[trigger] lines[i]) is Some,
    ensures
        complete_lines(terminated(lines)) == lines,
        unfinished_tail(terminated(lines)) == Seq::<char>::empty(),
        commands_of(terminated(lines)).len() == lines.len(),
        forall|i: int|
            0 <= i < lines.len() ==> (#[trigger] commands_of(terminated(lines))[i]) == command_of(
                lines[i],
            ) && commands_of(terminated(lines))[i] is Some,
{
    assert forall|i: int, j: int|
        0 <= i < lines.len() && 0 <= j < lines[i].len() implies #[trigger] lines[i][j]
        != '\n' by {
        lemma_command_is_printable(lines[i]);
    }
    lemma_terminated_lines(lines);
}

/// What the lines of two buffers spell, one after the other, when the first
/// leaves no line unfinished: a line is read on its own, whatever stands
/// before and after it.
pub proof fn lemma_commands_of_concatenation(a: Seq<char>, b: Seq<char>)
    requires
        a.len() == 0 || a.last() == '\n',
    ensures
        commands_of(a + b) == commands_of(a) + commands_of(b),
        unfinished_tail(a + b) == unfinished_tail(b),
{
    lemma_lines_of_concatenation(a, b);
    assert(commands_of(a + b) =~= commands_of(a) + commands_of(b));
}

/// A line that spells no command stands as `None` at its place, between what
/// the lines before it and the lines after it spell.
pub proof fn lemma_unparsable_line_stands_alone(
    before: Seq<char>,
    line: Seq<char>,
    after: Seq<char>,
)
    requires
        before.len() == 0 || before.last() == '\n',
        forall|i: int| 0 <= i < line.len() ==> line[i] != '\n',
        command_of(strip_cr(line)) is None,
    ensures
        complete_lines(before + line.push('\n') + after) == complete_lines(before).push(
            strip_cr(line),
        ) + complete_lines(after),
        commands_of(before + line.push('\n') + after) == commands_of(before).push(None)
            + commands_of(after),
        unfinished_tail(before + line.push('\n') + after) == unfinished_tail(after),
{
    let whole = line.push('\n');
    lemma_first_newline_is(whole, line.len() as int);
    assert(whole.take(line.len() as int) =~= line);
    assert(whole.skip(line.len() as int + 1) =~= Seq::<char>::empty());
    assert(complete_lines(Seq::<char>::empty()) =~= Seq::<Seq<char>>::empty());
    assert(complete_lines(whole) =~= seq![strip_cr(line)]);
    lemma_lines_of_concatenation(before, whole);
    assert((before + whole).last() == '\n');
    lemma_lines_of_concatenation(before + whole, after);
    assert(complete_lines(before + whole + after) =~= complete_lines(before).push(strip_cr(line))
        + complete_lines(after));
    assert(commands_of(before + whole + after) =~= commands_of(before).push(None) + commands_of(
        after,
    ));
}

/// Text without a line feed, added to a buffer of complete lines, is what the
/// parser returns as the unfinished tail; the lines spell what they spelled.
pub proof fn lemma_suffix_is_returned(s: Seq<char>, suffix: Seq<char>)
    requires
        s.len() == 0 || s.last() == '\n',
        forall|i: int| 0 <= i < suffix.len() ==> suffix[i] != '\n',
    ensures
        commands_of(s + suffix) == commands_of(s),
        unfinished_tail(s + suffix) == suffix,
{
    lemma_suffix_becomes_tail(s, suffix);
}

} // verus!
