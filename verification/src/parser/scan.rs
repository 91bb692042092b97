//! Scanners: executable functions that find, in a range of a character
//! buffer, the longest prefix that a grammar rule derives.

use vstd::prelude::*;
use crate::parser::chars::{alphanumeric, atext, qtext, quotable};
use crate::parser::chars::{is_qtext, is_quotable};
use crate::command::MailboxView;
use crate::parser::rules::lemma_mailbox_split_is_last;
use crate::parser::grammar::{
    Shape, is_domain, is_dot_string, is_local_part, is_mailbox, is_quoted_content,
    is_quoted_string, last_at, local_part_value, longest_mailbox_prefix, mailbox_of,
    mailbox_split, no_mailbox_prefix, quoted_prefix,
};

verus! {

/// A prefix that the rule derives grows by one run character.
pub proof fn lemma_shape_grows_by_unit(shape: Shape, s: Seq<char>, n: int)
    requires
        0 < n < s.len(),
        shape.matches(s.take(n)),
        shape.unit(s[n]),
    ensures
        shape.matches(s.take(n + 1)),
{
    let p = s.take(n);
    let q = s.take(n + 1);
    assert(q[0] == p[0]);
    assert forall|i: int| 0 <= i < q.len() implies shape.unit(#[trigger] q[i]) || shape.separator(
        q[i],
    ) by {
        if i < n {
            assert(q[i] == p[i]);
        }
    }
    assert forall|i: int| 0 <= i < q.len() - 1 implies shape.unit(#[trigger] q[i]) || shape.unit(
        q[i + 1],
    ) by {
        if i < n - 1 {
            assert(q[i] == p[i]);
            assert(q[i + 1] == p[i + 1]);
        }
    }
}

/// A prefix that the rule derives grows by a separator and a run character.
pub proof fn lemma_shape_grows_by_separator(shape: Shape, s: Seq<char>, n: int)
    requires
        0 < n,
        n + 1 < s.len(),
        shape.matches(s.take(n)),
        shape.separator(s[n]),
        shape.unit(s[n + 1]),
    ensures
        shape.matches(s.take(n + 2)),
{
    let p = s.take(n);
    let q = s.take(n + 2);
    assert(q[0] == p[0]);
    assert(p.last() == q[n - 1]);
    assert forall|i: int| 0 <= i < q.len() implies shape.unit(#[trigger] q[i]) || shape.separator(
        q[i],
    ) by {
        if i < n {
            assert(q[i] == p[i]);
        }
    }
    assert forall|i: int| 0 <= i < q.len() - 1 implies shape.unit(#[trigger] q[i]) || shape.unit(
        q[i + 1],
    ) by {
        if i < n - 1 {
            assert(q[i] == p[i]);
            assert(q[i + 1] == p[i + 1]);
        }
    }
}

/// A derived prefix is the longest one when what follows it is neither a run
/// character nor a separator with a run character behind it.
pub proof fn lemma_shape_stops(shape: Shape, s: Seq<char>, n: int)
    requires
        0 < n <= s.len(),
        shape.matches(s.take(n)),
        n < s.len() ==> !shape.unit(s[n]),
        n + 1 < s.len() && shape.separator(s[n]) ==> !shape.unit(s[n + 1]),
    ensures
        shape.longest_prefix(s, n),
{
    assert forall|m: int| n < m <= s.len() implies !(#[trigger] shape.matches(s.take(m))) by {
        let q = s.take(m);
        assert(q[n] == s[n]);
        if m == n + 1 {
            assert(q.last() == s[n]);
        } else {
            assert(q[n + 1] == s[n + 1]);
            if shape.matches(q) {
                assert(shape.unit(q[n]) || shape.separator(q[n]));
                assert(shape.unit(q[n]) || shape.unit(q[n + 1]));
            }
        }
    }
}

/// Nothing is derived from a string that does not begin with a run character.
pub proof fn lemma_shape_needs_unit(shape: Shape, s: Seq<char>)
    requires
        s.len() == 0 || !shape.unit(s[0]),
    ensures
        shape.no_prefix(s),
{
    assert forall|m: int| 0 <= m <= s.len() implies !(#[trigger] shape.matches(s.take(m))) by {
        if m > 0 {
            assert(s.take(m)[0] == s[0]);
        }
    }
}

fn is_unit(shape: Shape, c: char) -> (r: bool)
    ensures
        r == shape.unit(c),
{
    match shape {
        Shape::Atom | Shape::DotString => atext(c),
        Shape::Alphanumeric | Shape::Subdomain | Shape::Domain => alphanumeric(c),
    }
}

fn is_separator(shape: Shape, c: char) -> (r: bool)
    ensures
        r == shape.separator(c),
{
    match shape {
        Shape::Alphanumeric | Shape::Atom => false,
        Shape::DotString => c == '.',
        Shape::Subdomain => c == '-',
        Shape::Domain => c == '-' || c == '.',
    }
}

/// Find the longest prefix of `chars[start..end]` that `shape` derives, and
/// return the position at which it stops.
pub(crate) fn scan_shape(chars: &Vec<char>, start: usize, end: usize, shape: Shape) -> (r: Option<usize>)
    requires
        start <= end <= chars.len(),
    ensures
        match r {
            Some(stop) => start < stop <= end && shape.longest_prefix(
                chars@.subrange(start as int, end as int),
                stop - start,
            ),
            None => shape.no_prefix(chars@.subrange(start as int, end as int)),
        },
{
    let ghost s = chars@.subrange(start as int, end as int);
    if start >= end || !is_unit(shape, chars[start]) {
        proof {
            lemma_shape_needs_unit(shape, s);
        }
        return None;
    }
    let mut i = start + 1;
    assert(shape.matches(s.take(1))) by {
        assert(s.take(1)[0] == s[0]);
    }
    loop
        invariant
            start < i <= end <= chars.len(),
            s == chars@.subrange(start as int, end as int),
            shape.matches(s.take(i - start)),
        ensures
            start < i <= end,
            shape.longest_prefix(s, i - start),
        decreases end - i,
    {
        assert(i < end ==> s[i - start] == chars@[i as int]);
        assert(i + 1 < end ==> s[i + 1 - start] == chars@[i + 1]);
        if i < end && is_unit(shape, chars[i]) {
            proof {
                lemma_shape_grows_by_unit(shape, s, i - start);
            }
            i += 1;
        } else if end - i >= 2 && is_separator(shape, chars[i]) && is_unit(shape, chars[i + 1]) {
            proof {
                lemma_shape_grows_by_separator(shape, s, i - start);
            }
            i += 2;
        } else {
            proof {
                lemma_shape_stops(shape, s, i - start);
            }
            break ;
        }
    }
    Some(i)
}

/// Quoted content followed by quoted content is quoted content.
pub proof fn lemma_quoted_content_joins(a: Seq<char>, b: Seq<char>)
    requires
        is_quoted_content(a),
        is_quoted_content(b),
    ensures
        is_quoted_content(a + b),
    decreases a.len(),
{
    if a.len() == 0 {
        assert(a + b =~= b);
    } else if is_qtext(a[0]) {
        lemma_quoted_content_joins(a.skip(1), b);
        assert((a + b).skip(1) =~= a.skip(1) + b);
    } else {
        lemma_quoted_content_joins(a.skip(2), b);
        assert((a + b).skip(2) =~= a.skip(2) + b);
    }
}

/// What follows quoted content inside quoted content is quoted content too:
/// the reading from the left is unambiguous.
pub proof fn lemma_quoted_content_splits(a: Seq<char>, b: Seq<char>)
    requires
        is_quoted_content(a),
        is_quoted_content(a + b),
    ensures
        is_quoted_content(b),
    decreases a.len(),
{
    if a.len() == 0 {
        assert(a + b =~= b);
    } else if is_qtext(a[0]) {
        assert((a + b).skip(1) =~= a.skip(1) + b);
        lemma_quoted_content_splits(a.skip(1), b);
    } else {
        assert((a + b)[1] == a[1]);
        assert((a + b).skip(2) =~= a.skip(2) + b);
        lemma_quoted_content_splits(a.skip(2), b);
    }
}

/// The content that the scanner has read, and the place where it stopped.
spec fn content_read(s: Seq<char>, n: int) -> bool {
    &&& 0 <= n
    &&& n + 1 <= s.len()
    &&& is_quoted_content(s.subrange(1, n + 1))
    &&& n + 1 < s.len() ==> !is_qtext(s[n + 1])
    &&& n + 1 < s.len() && s[n + 1] == '\\' ==> n + 2 >= s.len() || !is_quotable(s[n + 2])
}

/// Where the reading of quoted content stops, any quoted string at the start
/// of `s` ends: its content has exactly the length read.
proof fn lemma_quoted_prefix_at(s: Seq<char>, n: int, k: int)
    requires
        s.len() > 0,
        s[0] == '"',
        content_read(s, n),
        quoted_prefix(s, k),
    ensures
        k == n,
        n + 1 < s.len(),
        s[n + 1] == '"',
{
    let read = s.subrange(1, n + 1);
    let quoted = s.take(k + 2);
    let inner = quoted.subrange(1, k + 1);
    assert(inner =~= s.subrange(1, k + 1));
    assert(quoted.last() == s[k + 1]);
    if k < n {
        let rest = s.subrange(k + 1, n + 1);
        assert(read =~= inner + rest);
        lemma_quoted_content_splits(inner, rest);
        assert(rest[0] == '"');
        assert(false);
    } else if k > n {
        let rest = s.subrange(n + 1, k + 1);
        assert(inner =~= read + rest);
        lemma_quoted_content_splits(read, rest);
        assert(rest[0] == s[n + 1]);
        if rest.len() >= 2 {
            assert(rest[1] == s[n + 2]);
        }
        assert(false);
    }
}

/// Find the quoted string at the start of `chars[start..end]`, and return the
/// length of its content.
pub(crate) fn scan_quoted(chars: &Vec<char>, start: usize, end: usize) -> (r: Option<usize>)
    requires
        start <= end <= chars.len(),
    ensures
        match r {
            Some(n) => quoted_prefix(chars@.subrange(start as int, end as int), n as int),
            None => forall|k: int| !quoted_prefix(chars@.subrange(start as int, end as int), k),
        },
{
    let ghost s = chars@.subrange(start as int, end as int);
    if start >= end || chars[start] != '"' {
        assert forall|k: int| !quoted_prefix(s, k) by {
            if 0 < k && k + 2 <= s.len() {
                assert(s.take(k + 2)[0] == s[0]);
            }
        }
        return None;
    }
    let mut i = start + 1;
    assert(s.subrange(1, 1) =~= Seq::<char>::empty());
    loop
        invariant
            start < i <= end <= chars.len(),
            s == chars@.subrange(start as int, end as int),
            is_quoted_content(s.subrange(1, i - start)),
        ensures
            start < i <= end,
            content_read(s, i - start - 1),
        decreases end - i,
    {
        let ghost read = s.subrange(1, i - start);
        assert(i < end ==> s[i - start] == chars@[i as int]);
        assert(i + 1 < end ==> s[i + 1 - start] == chars@[i + 1]);
        if i < end && qtext(chars[i]) {
            proof {
                let unit = seq![chars@[i as int]];
                assert(is_quoted_content(unit)) by {
                    reveal_with_fuel(is_quoted_content, 2);
                    assert(unit.skip(1) =~= Seq::<char>::empty());
                }
                lemma_quoted_content_joins(read, unit);
                assert(s.subrange(1, i + 1 - start) =~= read + unit);
            }
            i += 1;
        } else if end - i >= 2 && chars[i] == '\\' && quotable(chars[i + 1]) {
            proof {
                let unit = seq![chars@[i as int], chars@[i + 1]];
                assert(is_quoted_content(unit)) by {
                    reveal_with_fuel(is_quoted_content, 2);
                    assert(unit.skip(2) =~= Seq::<char>::empty());
                }
                lemma_quoted_content_joins(read, unit);
                assert(s.subrange(1, i + 2 - start) =~= read + unit);
            }
            i += 2;
        } else {
            break ;
        }
    }
    let n = i - start - 1;
    if n > 0 && i < end && chars[i] == '"' {
        proof {
            let quoted = s.take(n + 2);
            assert(quoted.subrange(1, quoted.len() - 1) =~= s.subrange(1, n + 1));
            assert(quoted.last() == s[n + 1]);
            assert(quoted[0] == s[0]);
        }
        Some(n)
    } else {
        assert forall|k: int| !quoted_prefix(s, k) by {
            if quoted_prefix(s, k) {
                lemma_quoted_prefix_at(s, n as int, k);
            }
        }
        None
    }
}

/// At most one quoted string stands at the start of a string.
pub proof fn lemma_quoted_prefix_unique(s: Seq<char>, n: int, k: int)
    requires
        quoted_prefix(s, n),
        quoted_prefix(s, k),
    ensures
        n == k,
{
    let a = s.take(n + 2);
    let b = s.take(k + 2);
    let inner_a = a.subrange(1, n + 1);
    let inner_b = b.subrange(1, k + 1);
    assert(inner_a =~= s.subrange(1, n + 1));
    assert(inner_b =~= s.subrange(1, k + 1));
    assert(a.last() == s[n + 1]);
    assert(b.last() == s[k + 1]);
    if n < k {
        let rest = s.subrange(n + 1, k + 1);
        assert(inner_b =~= inner_a + rest);
        lemma_quoted_content_splits(inner_a, rest);
        assert(rest[0] == '"');
    } else if k < n {
        let rest = s.subrange(k + 1, n + 1);
        assert(inner_a =~= inner_b + rest);
        lemma_quoted_content_splits(inner_b, rest);
        assert(rest[0] == '"');
    }
}

/// Where the local part of any mailbox at the start of `s` must end, given
/// what the scanner found there: `None` if no local part stands there at all.
#[verifier::opaque]
spec fn local_part_ends(s: Seq<char>, at: Option<int>) -> bool {
    &&& forall|m: int, k: int|
        0 <= m <= s.len() && #[trigger] mailbox_split(s.take(m), k) ==> at == Some(k)
    &&& at matches Some(k) ==> 0 < k <= s.len() && is_local_part(s.take(k))
}

/// A dot-string local part ends where the longest dot-string prefix ends: the
/// `@` behind it cannot be part of a longer one.
proof fn lemma_dot_string_local(s: Seq<char>, at: Option<int>)
    requires
        s.len() == 0 || s[0] != '"',
        match at {
            Some(n) => Shape::DotString.longest_prefix(s, n),
            None => Shape::DotString.no_prefix(s),
        },
    ensures
        local_part_ends(s, at),
{
    reveal(local_part_ends);
    assert forall|m: int, k: int|
        0 <= m <= s.len() && #[trigger] mailbox_split(s.take(m), k) implies at == Some(k) by {
        let p = s.take(m);
        let l = p.take(k);
        assert(l =~= s.take(k));
        if is_quoted_string(l) {
            assert(l[0] == s[0]);
        }
        assert(Shape::DotString.matches(s.take(k)));
        match at {
            Some(n) => {
                if k < n {
                    let q = s.take(n);
                    assert(q[k] == p[k]);
                    assert(Shape::DotString.unit(q[k]) || Shape::DotString.separator(q[k]));
                }
            },
            None => {},
        }
    }
}

/// A quoted local part is the one quoted string at the start.
proof fn lemma_quoted_local(s: Seq<char>, at: Option<int>)
    requires
        s.len() > 0,
        s[0] == '"',
        match at {
            Some(n) => quoted_prefix(s, n - 2),
            None => forall|k: int| !quoted_prefix(s, k),
        },
    ensures
        local_part_ends(s, at),
{
    reveal(local_part_ends);
    assert forall|m: int, k: int|
        0 <= m <= s.len() && #[trigger] mailbox_split(s.take(m), k) implies at == Some(k) by {
        let p = s.take(m);
        let l = p.take(k);
        assert(l =~= s.take(k));
        if is_dot_string(l) {
            assert(l[0] == s[0]);
        }
        assert(quoted_prefix(s, k - 2));
        match at {
            Some(n) => {
                lemma_quoted_prefix_unique(s, n - 2, k - 2);
            },
            None => {},
        }
    }
}

/// Whether an `@` stands where the local part ends.
spec fn at_sign_follows(s: Seq<char>, at: Option<int>) -> bool {
    at matches Some(k) && k < s.len() && s[k] == '@'
}

/// With the end of the local part fixed, the mailboxes at the start of `s`
/// are the local part, an `@` and a domain at the start of what follows.
proof fn lemma_mailbox_prefixes(s: Seq<char>, at: Option<int>, domain: Option<int>)
    requires
        local_part_ends(s, at),
        at_sign_follows(s, at) ==> match domain {
            Some(d) => Shape::Domain.longest_prefix(s.skip(at->0 + 1), d),
            None => Shape::Domain.no_prefix(s.skip(at->0 + 1)),
        },
    ensures
        at_sign_follows(s, at) && domain is Some ==> {
            &&& longest_mailbox_prefix(s, at->0 + 1 + domain->0)
            &&& mailbox_of(s.take(at->0 + 1 + domain->0)) == Some(
                MailboxView {
                    local: local_part_value(s.take(at->0)),
                    domain: s.subrange(at->0 + 1, at->0 + 1 + domain->0),
                },
            )
        },
        !(at_sign_follows(s, at) && domain is Some) ==> no_mailbox_prefix(s),
{
    reveal(local_part_ends);
    assert forall|m: int| 0 <= m <= s.len() && #[trigger] is_mailbox(s.take(m)) implies (
    at_sign_follows(s, at) && at->0 < m && is_domain(s.skip(at->0 + 1).take(m - at->0 - 1))) by {
        let p = s.take(m);
        let k = last_at(p);
        assert(mailbox_split(p, k));
        assert(at == Some(k));
        assert(p[k] == s[k]);
        assert(p.skip(k + 1) =~= s.skip(k + 1).take(m - k - 1));
    }
    if at_sign_follows(s, at) && domain is Some {
        let k = at->0;
        let d = domain->0;
        let n = k + 1 + d;
        let p = s.take(n);
        assert(p.take(k) =~= s.take(k));
        assert(p.skip(k + 1) =~= s.skip(k + 1).take(d));
        assert(p.skip(k + 1) =~= s.subrange(k + 1, k + 1 + d));
        assert(mailbox_split(p, k));
        lemma_mailbox_split_is_last(p, k);
    }
}

/// Where a mailbox stands in a buffer: the stored local part (without the
/// quotes of a quoted string) and the domain, as ranges of positions.
pub(crate) struct MailboxSpan {
    pub(crate) local_start: usize,
    pub(crate) local_end: usize,
    pub(crate) domain_start: usize,
    pub(crate) domain_end: usize,
}

/// What the scanner found as the local part: where its stored text starts and
/// ends, and where the local part itself ends.
struct LocalSpan {
    start: usize,
    end: usize,
    stop: usize,
}

/// Find the local part at the start of `chars[start..end]`: a quoted string
/// if a quote stands there, else the longest dot-string.
fn scan_local(chars: &Vec<char>, start: usize, end: usize) -> (r: Option<LocalSpan>)
    requires
        start <= end <= chars.len(),
    ensures
        local_part_ends(
            chars@.subrange(start as int, end as int),
            match r {
                Some(l) => Some(l.stop - start),
                None => None,
            },
        ),
        r matches Some(l) ==> {
            &&& start <= l.start <= l.end <= l.stop <= end
            &&& start < l.stop
            &&& local_part_value(chars@.subrange(start as int, l.stop as int)) == chars@.subrange(
                l.start as int,
                l.end as int,
            )
        },
{
    let ghost s = chars@.subrange(start as int, end as int);
    if start < end && chars[start] == '"' {
        match scan_quoted(chars, start, end) {
            Some(n) => {
                proof {
                    lemma_quoted_local(s, Some(n + 2));
                    let l = chars@.subrange(start as int, start + n + 2);
                    assert(l =~= s.take(n + 2));
                    assert(l.subrange(1, l.len() - 1) =~= chars@.subrange(
                        start + 1,
                        start + 1 + n,
                    ));
                }
                Some(LocalSpan { start: start + 1, end: start + 1 + n, stop: start + n + 2 })
            },
            None => {
                proof {
                    lemma_quoted_local(s, None);
                }
                None
            },
        }
    } else {
        match scan_shape(chars, start, end, Shape::DotString) {
            Some(stop) => {
                proof {
                    lemma_dot_string_local(s, Some(stop - start));
                    let l = chars@.subrange(start as int, stop as int);
                    assert(l =~= s.take(stop - start));
                    assert(!is_quoted_string(l)) by {
                        assert(l[0] == s[0]);
                    }
                }
                Some(LocalSpan { start, end: stop, stop })
            },
            None => {
                proof {
                    lemma_dot_string_local(s, None);
                }
                None
            },
        }
    }
}

/// Find the longest prefix of `chars[start..end]` that is a mailbox.  It ends
/// where the returned domain ends.
pub(crate) fn scan_mailbox(chars: &Vec<char>, start: usize, end: usize) -> (r: Option<MailboxSpan>)
    requires
        start <= end <= chars.len(),
    ensures
        match r {
            Some(span) => {
                &&& start <= span.local_start <= span.local_end < span.domain_start
                    < span.domain_end <= end
                &&& longest_mailbox_prefix(
                    chars@.subrange(start as int, end as int),
                    span.domain_end - start,
                )
                &&& mailbox_of(chars@.subrange(start as int, span.domain_end as int)) == Some(
                    MailboxView {
                        local: chars@.subrange(span.local_start as int, span.local_end as int),
                        domain: chars@.subrange(span.domain_start as int, span.domain_end as int),
                    },
                )
            },
            None => no_mailbox_prefix(chars@.subrange(start as int, end as int)),
        },
{
    let ghost s = chars@.subrange(start as int, end as int);
    let local = match scan_local(chars, start, end) {
        Some(local) => local,
        None => {
            proof {
                lemma_mailbox_prefixes(s, None, None);
            }
            return None;
        },
    };
    let ghost at = Some(local.stop - start);
    if local.stop >= end || chars[local.stop] != '@' {
        proof {
            assert(local.stop < end ==> s[local.stop - start] == chars@[local.stop as int]);
            lemma_mailbox_prefixes(s, at, None);
        }
        return None;
    }
    assert(s[local.stop - start] == chars@[local.stop as int]);
    assert(s.skip(local.stop - start + 1) =~= chars@.subrange(local.stop + 1, end as int));
    match scan_shape(chars, local.stop + 1, end, Shape::Domain) {
        Some(domain_end) => {
            proof {
                let k = local.stop - start;
                let d = domain_end - local.stop - 1;
                lemma_mailbox_prefixes(s, at, Some(d));
                assert(s.take(k + 1 + d) =~= chars@.subrange(start as int, domain_end as int));
                assert(s.subrange(k + 1, k + 1 + d) =~= chars@.subrange(
                    local.stop + 1,
                    domain_end as int,
                ));
                assert(s.take(k) =~= chars@.subrange(start as int, local.stop as int));
            }
            Some(
                MailboxSpan {
                    local_start: local.start,
                    local_end: local.end,
                    domain_start: local.stop + 1,
                    domain_end,
                },
            )
        },
        None => {
            proof {
                lemma_mailbox_prefixes(s, at, None);
            }
            None
        },
    }
}

} // verus!
