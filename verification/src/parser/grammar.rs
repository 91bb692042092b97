//! The address grammar, as predicates on character sequences.
//!
//! ```text
//! domain        = subdomain ("." subdomain)*
//! subdomain     = alphanumeric+ ("-" alphanumeric+)*
//! mailbox       = localpart "@" domain
//! localpart     = dot-string | quoted-string
//! dot-string    = atom ("."? atom)*
//! atom          = atext+
//! quoted-string = "\"" (qtext | quoted-pair)+ "\""
//! quoted-pair   = "\\" ASCII 32..=126
//! ```
//!
//! The rules for domains, subdomains, dot-strings and atoms have one shape:
//! runs of a character class, joined by single separator characters.
//! [`Shape`] names them and [`Shape::matches`] says in closed form which
//! strings each one derives; the module `rules` holds the closed form against
//! the rules as they are written above.  The other rules are predicates of
//! their own.

use vstd::prelude::*;
use crate::command::{CommandView, MailboxView};
use crate::parser::chars::{
    is_alphanumeric, is_atext, is_printable, is_qtext, is_quotable, same_letter,
};

verus! {

/// The rules of the grammar that are runs of one character class joined by
/// single separators.
#[derive(Clone, Copy, Debug, PartialEq, Eq)]
pub enum Shape {
    /// `alphanumeric+`
    Alphanumeric,
    /// `atext+`
    Atom,
    /// `atom ("."? atom)*`.  An atom is a longest run of `atext`, so two atoms
    /// never touch and the dot between them is always there.
    DotString,
    /// `alphanumeric+ ("-" alphanumeric+)*`
    Subdomain,
    /// `subdomain ("." subdomain)*`, which is
    /// `alphanumeric+ (("-" | ".") alphanumeric+)*`.
    Domain,
}

impl Shape {
    /// The class of the characters that make up a run.
    pub open spec fn unit(self, c: char) -> bool {
        match self {
            Shape::Atom | Shape::DotString => is_atext(c),
            Shape::Alphanumeric | Shape::Subdomain | Shape::Domain => is_alphanumeric(c),
        }
    }

    /// The characters that may stand, singly, between two runs.
    pub open spec fn separator(self, c: char) -> bool {
        match self {
            Shape::Alphanumeric | Shape::Atom => false,
            Shape::DotString => c == '.',
            Shape::Subdomain => c == '-',
            Shape::Domain => c == '-' || c == '.',
        }
    }

    /// Whether all of `s` is derived by the rule: it is not empty, holds only
    /// run characters and separators, begins and ends with a run character,
    /// and no two separators touch.
    pub open spec fn matches(self, s: Seq<char>) -> bool {
        &&& s.len() > 0
        &&& self.unit(s[0])
        &&& self.unit(s.last())
        &&& forall|i: int| 0 <= i < s.len() ==> self.unit(#[trigger] s[i]) || self.separator(s[i])
        &&& forall|i: int|
            0 <= i < s.len() - 1 ==> self.unit(#[trigger] s[i]) || self.unit(s[i + 1])
    }

    /// The first `n` characters of `s` are the longest prefix of `s` that the
    /// rule derives.
    pub open spec fn longest_prefix(self, s: Seq<char>, n: int) -> bool {
        &&& 0 < n <= s.len()
        &&& self.matches(s.take(n))
        &&& forall|m: int| n < m <= s.len() ==> !(#[trigger] self.matches(s.take(m)))
    }

    /// The rule derives no prefix of `s`.
    pub open spec fn no_prefix(self, s: Seq<char>) -> bool {
        forall|m: int| 0 <= m <= s.len() ==> !(#[trigger] self.matches(s.take(m)))
    }
}

/// `alphanumeric+`
pub open spec fn is_alphanumeric_run(s: Seq<char>) -> bool {
    Shape::Alphanumeric.matches(s)
}

/// `atom = atext+`
pub open spec fn is_atom(s: Seq<char>) -> bool {
    Shape::Atom.matches(s)
}

/// `dot-string = atom ("."? atom)*`
pub open spec fn is_dot_string(s: Seq<char>) -> bool {
    Shape::DotString.matches(s)
}

/// `subdomain = alphanumeric+ ("-" alphanumeric+)*`
pub open spec fn is_subdomain(s: Seq<char>) -> bool {
    Shape::Subdomain.matches(s)
}

/// `domain = subdomain ("." subdomain)*`
pub open spec fn is_domain(s: Seq<char>) -> bool {
    Shape::Domain.matches(s)
}

/// `(qtext | quoted-pair)*`: what may stand between the quotes of a quoted
/// string, read from the left.  A backslash takes the next character with it.
pub open spec fn is_quoted_content(s: Seq<char>) -> bool
    decreases s.len(),
{
    if s.len() == 0 {
        true
    } else if is_qtext(s[0]) {
        is_quoted_content(s.skip(1))
    } else if s[0] == '\\' && s.len() >= 2 && is_quotable(s[1]) {
        is_quoted_content(s.skip(2))
    } else {
        false
    }
}

/// `quoted-string = "\"" (qtext | quoted-pair)+ "\""`
pub open spec fn is_quoted_string(s: Seq<char>) -> bool {
    &&& s.len() >= 3
    &&& s[0] == '"'
    &&& s.last() == '"'
    &&& is_quoted_content(s.subrange(1, s.len() - 1))
}

/// `s` begins with a quoted string whose content has `n` characters.
pub open spec fn quoted_prefix(s: Seq<char>, n: int) -> bool {
    &&& 0 < n
    &&& n + 2 <= s.len()
    &&& is_quoted_string(s.take(n + 2))
}

/// `localpart = dot-string | quoted-string`
pub open spec fn is_local_part(s: Seq<char>) -> bool {
    is_dot_string(s) || is_quoted_string(s)
}

/// The local part as it is stored: a quoted string loses its quotes, and
/// keeps its content verbatim, backslashes included.
pub open spec fn local_part_value(s: Seq<char>) -> Seq<char> {
    if is_quoted_string(s) {
        s.subrange(1, s.len() - 1)
    } else {
        s
    }
}

/// The position of the last `c` in `s`, or -1 if there is none.
pub open spec fn last_index_of(s: Seq<char>, c: char) -> int
    decreases s.len(),
{
    if s.len() == 0 {
        -1
    } else if s.last() == c {
        s.len() - 1
    } else {
        last_index_of(s.drop_last(), c)
    }
}

/// The position of the last `@` of `s`, or -1 if there is none.
pub open spec fn last_at(s: Seq<char>) -> int {
    last_index_of(s, '@')
}

/// `mailbox = localpart "@" domain`, cut at position `k`.
pub open spec fn mailbox_split(s: Seq<char>, k: int) -> bool {
    &&& 0 <= k < s.len()
    &&& s[k] == '@'
    &&& is_local_part(s.take(k))
    &&& is_domain(s.skip(k + 1))
}

/// Whether all of `s` is a mailbox.  A domain holds no `@`, so the cut, if
/// there is one, is at the last `@`.
pub open spec fn is_mailbox(s: Seq<char>) -> bool {
    mailbox_split(s, last_at(s))
}

/// The mailbox that all of `s` spells, if it spells one.
pub open spec fn mailbox_of(s: Seq<char>) -> Option<MailboxView> {
    if is_mailbox(s) {
        Some(
            MailboxView {
                local: local_part_value(s.take(last_at(s))),
                domain: s.skip(last_at(s) + 1),
            },
        )
    } else {
        None
    }
}

/// The first `n` characters of `s` are the longest prefix of `s` that is a
/// mailbox.
pub open spec fn longest_mailbox_prefix(s: Seq<char>, n: int) -> bool {
    &&& 0 < n <= s.len()
    &&& is_mailbox(s.take(n))
    &&& forall|m: int| n < m <= s.len() ==> !(#[trigger] is_mailbox(s.take(m)))
}

/// No prefix of `s` is a mailbox.
pub open spec fn no_mailbox_prefix(s: Seq<char>) -> bool {
    forall|m: int| 0 <= m <= s.len() ==> !(#[trigger] is_mailbox(s.take(m)))
}

/// The local part at the start of `s` has `n` characters: a quoted string if
/// `s` begins with a quote, else the longest dot-string.
pub open spec fn local_prefix(s: Seq<char>, n: int) -> bool {
    if s.len() > 0 && s[0] == '"' {
        quoted_prefix(s, n - 2)
    } else {
        Shape::DotString.longest_prefix(s, n)
    }
}

/// No local part stands at the start of `s`.
pub open spec fn no_local_prefix(s: Seq<char>) -> bool {
    if s.len() > 0 && s[0] == '"' {
        forall|k: int| !quoted_prefix(s, k)
    } else {
        Shape::DotString.no_prefix(s)
    }
}

/// `line` begins with `verb`, whatever the case of its letters.
pub open spec fn starts_with_verb(line: Seq<char>, verb: Seq<char>) -> bool {
    &&& verb.len() <= line.len()
    &&& forall|i: int| 0 <= i < verb.len() ==> same_letter(#[trigger] line[i], verb[i])
}

/// `s` without the single space that may stand at its start.
pub open spec fn skip_space(s: Seq<char>) -> Seq<char> {
    if s.len() > 0 && s[0] == ' ' {
        s.skip(1)
    } else {
        s
    }
}

/// The mailbox that `s` holds between angle brackets, if all of `s` is
/// `"<" mailbox ">"`.
pub open spec fn path_of(s: Seq<char>) -> Option<MailboxView> {
    if s.len() >= 2 && s[0] == '<' && s.last() == '>' {
        mailbox_of(s.subrange(1, s.len() - 1))
    } else {
        None
    }
}

/// The domain of a line that is `verb` followed by a domain and nothing else.
pub open spec fn domain_argument(line: Seq<char>, verb: Seq<char>) -> Option<Seq<char>> {
    if starts_with_verb(line, verb) && is_domain(line.skip(verb.len() as int)) {
        Some(line.skip(verb.len() as int))
    } else {
        None
    }
}

/// The mailbox of a line that is `verb`, an optional single space, a mailbox
/// in angle brackets and nothing else.
pub open spec fn mailbox_argument(line: Seq<char>, verb: Seq<char>) -> Option<MailboxView> {
    if starts_with_verb(line, verb) {
        path_of(skip_space(line.skip(verb.len() as int)))
    } else {
        None
    }
}

/// `line` is `verb` and nothing else.
pub open spec fn is_bare_verb(line: Seq<char>, verb: Seq<char>) -> bool {
    starts_with_verb(line, verb) && line.len() == verb.len()
}

/// `EHLO ` and a domain.
pub open spec fn ehlo_of(line: Seq<char>) -> Option<CommandView> {
    match domain_argument(line, "EHLO "@) {
        Some(d) => Some(CommandView::EHLO(d)),
        None => None,
    }
}

/// `HELO ` and a domain.
pub open spec fn helo_of(line: Seq<char>) -> Option<CommandView> {
    match domain_argument(line, "HELO "@) {
        Some(d) => Some(CommandView::HELO(d)),
        None => None,
    }
}

/// `MAIL FROM:`, an optional space and a mailbox in angle brackets.
pub open spec fn mail_of(line: Seq<char>) -> Option<CommandView> {
    match mailbox_argument(line, "MAIL FROM:"@) {
        Some(m) => Some(CommandView::FROM(m)),
        None => None,
    }
}

/// `RCPT TO:`, an optional space and a mailbox in angle brackets.
pub open spec fn rcpt_of(line: Seq<char>) -> Option<CommandView> {
    match mailbox_argument(line, "RCPT TO:"@) {
        Some(m) => Some(CommandView::RCPT(m)),
        None => None,
    }
}

/// `DATA`
pub open spec fn data_of(line: Seq<char>) -> Option<CommandView> {
    if is_bare_verb(line, "DATA"@) {
        Some(CommandView::DATA)
    } else {
        None
    }
}

/// `RSET`
pub open spec fn rset_of(line: Seq<char>) -> Option<CommandView> {
    if is_bare_verb(line, "RSET"@) {
        Some(CommandView::RSET)
    } else {
        None
    }
}

/// `QUIT`
pub open spec fn quit_of(line: Seq<char>) -> Option<CommandView> {
    if is_bare_verb(line, "QUIT"@) {
        Some(CommandView::QUIT)
    } else {
        None
    }
}

/// The first of two readings that succeeds.
pub open spec fn or_else(first: Option<CommandView>, second: Option<CommandView>) -> Option<
    CommandView,
> {
    if first is Some {
        first
    } else {
        second
    }
}

/// The command that all of `line` spells, if it spells one: the first of the
/// seven forms that fits the whole line.
pub open spec fn command_of(line: Seq<char>) -> Option<CommandView> {
    or_else(
        ehlo_of(line),
        or_else(
            helo_of(line),
            or_else(
                mail_of(line),
                or_else(rcpt_of(line), or_else(data_of(line), or_else(rset_of(line), quit_of(line)))),
            ),
        ),
    )
}

/// One for a form that fits, none for one that does not.
pub open spec fn fits(form: Option<CommandView>) -> nat {
    if form is Some {
        1
    } else {
        0
    }
}

/// The number of the seven forms that fit `line`.
pub open spec fn forms_that_fit(line: Seq<char>) -> nat {
    fits(ehlo_of(line)) + fits(helo_of(line)) + fits(mail_of(line)) + fits(rcpt_of(line)) + fits(
        data_of(line),
    ) + fits(rset_of(line)) + fits(quit_of(line))
}

/// The letter at `i` of a line that begins with `verb` is the letter at `i`
/// of the verb, up to case.
proof fn lemma_verb_letter(line: Seq<char>, verb: Seq<char>, i: int)
    requires
        starts_with_verb(line, verb),
        0 <= i < verb.len(),
    ensures
        same_letter(line[i], verb[i]),
{
}

/// A line spells a command in at most one way: the seven forms exclude each
/// other, and a line spells a command if exactly one of them fits.
pub proof fn lemma_forms_exclude_each_other(line: Seq<char>)
    ensures
        forms_that_fit(line) <= 1,
        command_of(line) is Some <==> forms_that_fit(line) == 1,
{
    reveal_strlit("EHLO ");
    reveal_strlit("HELO ");
    reveal_strlit("MAIL FROM:");
    reveal_strlit("RCPT TO:");
    reveal_strlit("DATA");
    reveal_strlit("RSET");
    reveal_strlit("QUIT");
    if starts_with_verb(line, "EHLO "@) {
        lemma_verb_letter(line, "EHLO "@, 0);
    }
    if starts_with_verb(line, "HELO "@) {
        lemma_verb_letter(line, "HELO "@, 0);
    }
    if starts_with_verb(line, "MAIL FROM:"@) {
        lemma_verb_letter(line, "MAIL FROM:"@, 0);
    }
    if starts_with_verb(line, "RCPT TO:"@) {
        lemma_verb_letter(line, "RCPT TO:"@, 0);
        lemma_verb_letter(line, "RCPT TO:"@, 1);
    }
    if starts_with_verb(line, "DATA"@) {
        lemma_verb_letter(line, "DATA"@, 0);
    }
    if starts_with_verb(line, "RSET"@) {
        lemma_verb_letter(line, "RSET"@, 0);
        lemma_verb_letter(line, "RSET"@, 1);
    }
    if starts_with_verb(line, "QUIT"@) {
        lemma_verb_letter(line, "QUIT"@, 0);
    }
}

/// Every character of `s` is printable ASCII.
pub open spec fn all_printable(s: Seq<char>) -> bool {
    forall|i: int| 0 <= i < s.len() ==> is_printable(#[trigger] s[i])
}

/// What a run rule derives is printable.
pub proof fn lemma_shape_is_printable(shape: Shape, s: Seq<char>)
    requires
        shape.matches(s),
    ensures
        all_printable(s),
{
    assert forall|i: int| 0 <= i < s.len() implies is_printable(#[trigger] s[i]) by {
        assert(shape.unit(s[i]) || shape.separator(s[i]));
    }
}

/// Quoted content is printable.
pub proof fn lemma_quoted_content_is_printable(s: Seq<char>)
    requires
        is_quoted_content(s),
    ensures
        all_printable(s),
    decreases s.len(),
{
    if s.len() > 0 {
        let n: int = if is_qtext(s[0]) {
            1
        } else {
            2
        };
        let rest = s.skip(n);
        lemma_quoted_content_is_printable(rest);
        assert forall|i: int| 0 <= i < s.len() implies is_printable(#[trigger] s[i]) by {
            if i >= n {
                assert(s[i] == rest[i - n]);
            }
        }
    }
}

/// A mailbox is printable.
pub proof fn lemma_mailbox_is_printable(s: Seq<char>)
    requires
        is_mailbox(s),
    ensures
        all_printable(s),
{
    let k = last_at(s);
    let local = s.take(k);
    let domain = s.skip(k + 1);
    lemma_shape_is_printable(Shape::Domain, domain);
    if is_dot_string(local) {
        lemma_shape_is_printable(Shape::DotString, local);
    } else {
        let content = local.subrange(1, local.len() - 1);
        lemma_quoted_content_is_printable(content);
        assert forall|i: int| 0 <= i < local.len() implies is_printable(#[trigger] local[i]) by {
            if 0 < i < local.len() - 1 {
                assert(local[i] == content[i - 1]);
            }
        }
    }
    assert forall|i: int| 0 <= i < s.len() implies is_printable(#[trigger] s[i]) by {
        if i < k {
            assert(s[i] == local[i]);
        } else if i > k {
            assert(s[i] == domain[i - k - 1]);
        }
    }
}

/// The verbs of the seven commands are printable.
pub proof fn lemma_verbs_are_printable()
    ensures
        all_printable("EHLO "@),
        all_printable("HELO "@),
        all_printable("MAIL FROM:"@),
        all_printable("RCPT TO:"@),
        all_printable("DATA"@),
        all_printable("RSET"@),
        all_printable("QUIT"@),
{
    reveal_strlit("EHLO ");
    reveal_strlit("HELO ");
    reveal_strlit("MAIL FROM:");
    reveal_strlit("RCPT TO:");
    reveal_strlit("DATA");
    reveal_strlit("RSET");
    reveal_strlit("QUIT");
}

/// A line that begins with a printable verb, and is printable behind it, is
/// printable.
proof fn lemma_line_is_printable(line: Seq<char>, verb: Seq<char>)
    requires
        starts_with_verb(line, verb),
        all_printable(verb),
        all_printable(line.skip(verb.len() as int)),
    ensures
        all_printable(line),
{
    let rest = line.skip(verb.len() as int);
    assert forall|i: int| 0 <= i < line.len() implies is_printable(#[trigger] line[i]) by {
        if i < verb.len() {
            assert(same_letter(line[i], verb[i]));
            assert(is_printable(verb[i]));
        } else {
            assert(line[i] == rest[i - verb.len()]);
        }
    }
}

/// A line with a mailbox argument is printable behind its verb.
proof fn lemma_path_is_printable(rest: Seq<char>)
    requires
        path_of(skip_space(rest)) is Some,
    ensures
        all_printable(rest),
{
    let path = skip_space(rest);
    let inner = path.subrange(1, path.len() - 1);
    lemma_mailbox_is_printable(inner);
    assert forall|i: int| 0 <= i < path.len() implies is_printable(#[trigger] path[i]) by {
        if 0 < i < path.len() - 1 {
            assert(path[i] == inner[i - 1]);
        }
    }
    assert forall|i: int| 0 <= i < rest.len() implies is_printable(#[trigger] rest[i]) by {
        if rest[0] == ' ' {
            if i > 0 {
                assert(rest[i] == path[i - 1]);
            }
        }
    }
}

/// A line that spells a command is printable ASCII: it holds no line feed and
/// no carriage return.
pub proof fn lemma_command_is_printable(line: Seq<char>)
    requires
        command_of(line) is Some,
    ensures
        all_printable(line),
{
    lemma_verbs_are_printable();
    let empty = Seq::<char>::empty();
    if ehlo_of(line) is Some {
        lemma_shape_is_printable(Shape::Domain, line.skip("EHLO "@.len() as int));
        lemma_line_is_printable(line, "EHLO "@);
    } else if helo_of(line) is Some {
        lemma_shape_is_printable(Shape::Domain, line.skip("HELO "@.len() as int));
        lemma_line_is_printable(line, "HELO "@);
    } else if mail_of(line) is Some {
        lemma_path_is_printable(line.skip("MAIL FROM:"@.len() as int));
        lemma_line_is_printable(line, "MAIL FROM:"@);
    } else if rcpt_of(line) is Some {
        lemma_path_is_printable(line.skip("RCPT TO:"@.len() as int));
        lemma_line_is_printable(line, "RCPT TO:"@);
    } else if data_of(line) is Some {
        assert(line.skip("DATA"@.len() as int) =~= empty);
        lemma_line_is_printable(line, "DATA"@);
    } else if rset_of(line) is Some {
        assert(line.skip("RSET"@.len() as int) =~= empty);
        lemma_line_is_printable(line, "RSET"@);
    } else {
        assert(line.skip("QUIT"@.len() as int) =~= empty);
        lemma_line_is_printable(line, "QUIT"@);
    }
}

/// What a run rule has read, it reads again, and all of it: parsing the text
/// of a parsed domain gives the same domain.
pub proof fn lemma_shape_reparses(shape: Shape, s: Seq<char>, n: int)
    requires
        shape.longest_prefix(s, n),
    ensures
        shape.longest_prefix(s.take(n), n),
        shape.matches(s.take(n)),
{
    let p = s.take(n);
    assert(p.take(n) =~= p);
}

/// A domain is the longest domain at its own start.
pub proof fn lemma_domain_reparses(domain: Seq<char>)
    requires
        is_domain(domain),
    ensures
        Shape::Domain.longest_prefix(domain, domain.len() as int),
        domain_argument("EHLO "@ + domain, "EHLO "@) == Some(domain),
        domain_argument("HELO "@ + domain, "HELO "@) == Some(domain),
{
    assert(domain.take(domain.len() as int) =~= domain);
    assert(("EHLO "@ + domain).skip("EHLO "@.len() as int) =~= domain);
    assert(("HELO "@ + domain).skip("HELO "@.len() as int) =~= domain);
}

} // verus!
