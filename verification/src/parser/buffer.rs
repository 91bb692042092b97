//! Reading a buffer by position: the text, its characters, and the commands
//! and arguments that fill a range of it.

use vstd::prelude::*;
use vstd::string::*;
use crate::command::MailboxView;
use crate::parser::chars::{letters_match, same_letter};
use crate::parser::grammar::{
    Shape, command_of, domain_argument, is_bare_verb, is_domain, is_mailbox, mailbox_argument,
    mailbox_of, path_of, starts_with_verb,
};
use crate::parser::lines::{chars_of, strip_cr};
use crate::parser::result::{DomainParam, MailboxParam, ParseCommand, parsed_view};
use crate::parser::scan::{MailboxSpan, scan_mailbox, scan_shape};

verus! {

/// A buffer: the text and, beside it, its characters for reading by position.
pub(crate) struct Buffer<'a> {
    pub(crate) text: &'a str,
    pub(crate) chars: Vec<char>,
}

impl<'a> Buffer<'a> {
    /// The characters stand for the text.
    pub(crate) open spec fn wf(&self) -> bool {
        self.chars@ == self.text@
    }

    /// The characters from `start` up to `end`.
    pub(crate) open spec fn range(&self, start: int, end: int) -> Seq<char> {
        self.text@.subrange(start, end)
    }

    pub(crate) fn new(text: &'a str) -> (r: Self)
        ensures
            r.wf(),
            r.text@ == text@,
    {
        Buffer { text, chars: chars_of(text) }
    }

    pub(crate) fn len(&self) -> (n: usize)
        requires
            self.wf(),
        ensures
            n == self.text@.len(),
    {
        self.chars.len()
    }

    /// The text from `start` up to `end`.
    pub(crate) fn slice(&self, start: usize, end: usize) -> (r: &'a str)
        requires
            self.wf(),
            start <= end <= self.text@.len(),
        ensures
            r@ == self.range(start as int, end as int),
    {
        self.text.substring_char(start, end)
    }

    /// Whether `verb` stands at `start`, whatever the case of its letters.
    fn verb_at(&self, start: usize, end: usize, verb: &str) -> (r: bool)
        requires
            self.wf(),
            start <= end <= self.text@.len(),
        ensures
            r == starts_with_verb(self.range(start as int, end as int), verb@),
    {
        let n = verb.unicode_len();
        if end - start < n {
            return false;
        }
        let ghost line = self.range(start as int, end as int);
        let mut j: usize = 0;
        while j < n
            invariant
                self.wf(),
                start <= end <= self.text@.len(),
                n == verb@.len(),
                n <= end - start,
                j <= n,
                line == self.range(start as int, end as int),
                forall|i: int| 0 <= i < j ==> same_letter_at(line, verb@, i),
            decreases n - j,
        {
            assert(line[j as int] == self.chars@[start + j]);
            if !letters_match(self.chars[start + j], verb.get_char(j)) {
                assert(!same_letter_at(line, verb@, j as int));
                return false;
            }
            assert(same_letter_at(line, verb@, j as int));
            j += 1;
        }
        assert forall|i: int| 0 <= i < verb@.len() implies same_letter(
            #[trigger] line[i],
            verb@[i],
        ) by {
            assert(same_letter_at(line, verb@, i));
        }
        true
    }

    /// The domain that fills the range, if a domain fills it.
    fn domain_in(&self, start: usize, end: usize) -> (r: Option<DomainParam<'a>>)
        requires
            self.wf(),
            start <= end <= self.text@.len(),
        ensures
            match r {
                Some(d) => is_domain(self.range(start as int, end as int)) && d@ == self.range(
                    start as int,
                    end as int,
                ),
                None => !is_domain(self.range(start as int, end as int)),
            },
    {
        let ghost s = self.range(start as int, end as int);
        assert(s.take(s.len() as int) =~= s);
        match scan_shape(&self.chars, start, end, Shape::Domain) {
            Some(stop) => {
                if stop == end {
                    Some(DomainParam(self.slice(start, end)))
                } else {
                    assert(!Shape::Domain.matches(s.take(s.len() as int)));
                    None
                }
            },
            None => {
                assert(!Shape::Domain.matches(s.take(s.len() as int)));
                None
            },
        }
    }

    /// The mailbox at `span`.
    pub(crate) fn mailbox_at(&self, span: &MailboxSpan) -> (r: MailboxParam<'a>)
        requires
            self.wf(),
            span.local_start <= span.local_end <= span.domain_start <= span.domain_end
                <= self.text@.len(),
        ensures
            r@ == (MailboxView {
                local: self.range(span.local_start as int, span.local_end as int),
                domain: self.range(span.domain_start as int, span.domain_end as int),
            }),
    {
        MailboxParam(
            self.slice(span.local_start, span.local_end),
            DomainParam(self.slice(span.domain_start, span.domain_end)),
        )
    }

    /// The mailbox that fills the range, if a mailbox fills it.
    fn mailbox_in(&self, start: usize, end: usize) -> (r: Option<MailboxParam<'a>>)
        requires
            self.wf(),
            start <= end <= self.text@.len(),
        ensures
            option_mailbox_view(r) == mailbox_of(self.range(start as int, end as int)),
    {
        let ghost s = self.range(start as int, end as int);
        assert(s.take(s.len() as int) =~= s);
        match scan_mailbox(&self.chars, start, end) {
            Some(span) => {
                if span.domain_end == end {
                    Some(self.mailbox_at(&span))
                } else {
                    assert(!is_mailbox(s.take(s.len() as int)));
                    None
                }
            },
            None => {
                assert(!is_mailbox(s.take(s.len() as int)));
                None
            },
        }
    }

    /// The mailbox between angle brackets that fills the range.
    fn path_in(&self, start: usize, end: usize) -> (r: Option<MailboxParam<'a>>)
        requires
            self.wf(),
            start <= end <= self.text@.len(),
        ensures
            option_mailbox_view(r) == path_of(self.range(start as int, end as int)),
    {
        let ghost s = self.range(start as int, end as int);
        if end - start >= 2 && self.chars[start] == '<' && self.chars[end - 1] == '>' {
            assert(s[0] == self.chars@[start as int]);
            assert(s.last() == self.chars@[end - 1]);
            assert(s.subrange(1, s.len() - 1) =~= self.range(start + 1, end - 1));
            self.mailbox_in(start + 1, end - 1)
        } else {
            assert(end - start >= 2 ==> s[0] == self.chars@[start as int]);
            assert(end - start >= 2 ==> s.last() == self.chars@[end - 1]);
            None
        }
    }

    /// The domain behind `verb`, if the range is `verb` and a domain.
    fn domain_after(&self, start: usize, end: usize, verb: &str) -> (r: Option<DomainParam<'a>>)
        requires
            self.wf(),
            start <= end <= self.text@.len(),
        ensures
            option_domain_view(r) == domain_argument(self.range(start as int, end as int), verb@),
    {
        if self.verb_at(start, end, verb) {
            let n = verb.unicode_len();
            assert(self.range(start as int, end as int).skip(n as int) =~= self.range(
                start + n,
                end as int,
            ));
            self.domain_in(start + n, end)
        } else {
            None
        }
    }

    /// The mailbox behind `verb`, if the range is `verb`, an optional space
    /// and a mailbox in angle brackets.
    fn mailbox_after(&self, start: usize, end: usize, verb: &str) -> (r: Option<MailboxParam<'a>>)
        requires
            self.wf(),
            start <= end <= self.text@.len(),
        ensures
            option_mailbox_view(r) == mailbox_argument(
                self.range(start as int, end as int),
                verb@,
            ),
    {
        if self.verb_at(start, end, verb) {
            let n = verb.unicode_len();
            let ghost rest = self.range(start as int, end as int).skip(n as int);
            assert(rest =~= self.range(start + n, end as int));
            let from = start + n;
            if from < end && self.chars[from] == ' ' {
                assert(rest[0] == self.chars@[from as int]);
                assert(rest.skip(1) =~= self.range(from + 1, end as int));
                self.path_in(from + 1, end)
            } else {
                assert(from < end ==> rest[0] == self.chars@[from as int]);
                self.path_in(from, end)
            }
        } else {
            None
        }
    }

    /// Whether the range is `verb` and nothing else.
    fn verb_only(&self, start: usize, end: usize, verb: &str) -> (r: bool)
        requires
            self.wf(),
            start <= end <= self.text@.len(),
        ensures
            r == is_bare_verb(self.range(start as int, end as int), verb@),
    {
        self.verb_at(start, end, verb) && end - start == verb.unicode_len()
    }

    /// The command that fills the range, if a command fills it.
    pub(crate) fn command_in(&self, start: usize, end: usize) -> (r: Option<ParseCommand<'a>>)
        requires
            self.wf(),
            start <= end <= self.text@.len(),
        ensures
            parsed_view(r) == command_of(self.range(start as int, end as int)),
    {
        if let Some(d) = self.domain_after(start, end, "EHLO ") {
            return Some(ParseCommand::EHLO(d));
        }
        if let Some(d) = self.domain_after(start, end, "HELO ") {
            return Some(ParseCommand::HELO(d));
        }
        if let Some(m) = self.mailbox_after(start, end, "MAIL FROM:") {
            return Some(ParseCommand::FROM(m));
        }
        if let Some(m) = self.mailbox_after(start, end, "RCPT TO:") {
            return Some(ParseCommand::RCPT(m));
        }
        if self.verb_only(start, end, "DATA") {
            return Some(ParseCommand::DATA);
        }
        if self.verb_only(start, end, "RSET") {
            return Some(ParseCommand::RSET);
        }
        if self.verb_only(start, end, "QUIT") {
            return Some(ParseCommand::QUIT);
        }
        None
    }
}

/// The letters of `line` and `verb` at `i` are the same up to case.
spec fn same_letter_at(line: Seq<char>, verb: Seq<char>, i: int) -> bool {
    same_letter(line[i], verb[i])
}

/// Where the line that starts at `pos` ends, given the line feed at `k`: a
/// carriage return directly before the line feed is not part of the line.
pub(crate) fn line_end(buffer: &Buffer, pos: usize, k: usize) -> (end: usize)
    requires
        buffer.wf(),
        pos <= k < buffer.text@.len(),
    ensures
        pos <= end <= k,
        buffer.range(pos as int, end as int) == strip_cr(buffer.range(pos as int, k as int)),
{
    let ghost line = buffer.range(pos as int, k as int);
    if k > pos && buffer.chars[k - 1] == '\r' {
        assert(line.last() == buffer.chars@[k - 1]);
        assert(line.drop_last() =~= buffer.range(pos as int, k - 1));
        k - 1
    } else {
        assert(k > pos ==> line.last() == buffer.chars@[k - 1]);
        k
    }
}

/// The view of an optional borrowed domain.
pub open spec fn option_domain_view(d: Option<DomainParam>) -> Option<Seq<char>> {
    match d {
        Some(d) => Some(d@),
        None => None,
    }
}

/// The view of an optional borrowed mailbox.
pub open spec fn option_mailbox_view(m: Option<MailboxParam>) -> Option<MailboxView> {
    match m {
        Some(m) => Some(m@),
        None => None,
    }
}

} // verus!
