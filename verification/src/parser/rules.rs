//! The run rules of the grammar, one step at a time.
//!
//! [`Shape::matches`] says in closed form which strings a run rule derives.
//! The lemmas here hold that closed form against the rule as it is written:
//! a string is derived by `inner (sep inner)*` if it is an `inner`, or a
//! shorter such string, a separator and an `inner`.  On finite strings these
//! equations have one solution.

use vstd::prelude::*;
use crate::parser::chars::{is_alphanumeric, is_atext};
use crate::parser::grammar::{
    Shape, is_alphanumeric_run, is_atom, is_domain, is_dot_string, is_mailbox, is_subdomain,
    last_at, last_index_of, mailbox_split,
};

verus! {

/// `last_index_of` points at a `c` that no `c` follows, if there is one.
pub proof fn lemma_last_index_of(s: Seq<char>, c: char)
    ensures
        -1 <= last_index_of(s, c) < s.len(),
        last_index_of(s, c) >= 0 ==> s[last_index_of(s, c)] == c,
        forall|j: int| last_index_of(s, c) < j < s.len() ==> s[j] != c,
    decreases s.len(),
{
    if s.len() > 0 && s.last() != c {
        let t = s.drop_last();
        lemma_last_index_of(t, c);
        assert forall|j: int| last_index_of(s, c) < j < s.len() implies s[j] != c by {
            if j < t.len() {
                assert(s[j] == t[j]);
            }
        }
    }
}

/// A position with a `c` that no `c` follows is `last_index_of`.
pub proof fn lemma_last_index_of_is(s: Seq<char>, c: char, k: int)
    requires
        0 <= k < s.len(),
        s[k] == c,
        forall|j: int| k < j < s.len() ==> s[j] != c,
    ensures
        last_index_of(s, c) == k,
{
    lemma_last_index_of(s, c);
}

/// `outer` is `inner (sep inner)*`: the two rules have the same run
/// characters, and `outer` takes `sep` as one more separator.
pub open spec fn adds_separator(outer: Shape, inner: Shape, sep: char) -> bool {
    &&& !outer.unit(sep)
    &&& !inner.separator(sep)
    &&& forall|c: char| #[trigger] outer.unit(c) == inner.unit(c)
    &&& forall|c: char| #[trigger] outer.separator(c) == (inner.separator(c) || c == sep)
}

/// `s` is a string of `outer`, the separator `sep` and a string of `inner`,
/// with the separator at `k`.
pub open spec fn splits_at(outer: Shape, inner: Shape, sep: char, s: Seq<char>, k: int) -> bool {
    &&& 0 < k < s.len() - 1
    &&& s[k] == sep
    &&& outer.matches(s.take(k))
    &&& inner.matches(s.skip(k + 1))
}

proof fn lemma_split_composes(outer: Shape, inner: Shape, sep: char, s: Seq<char>, k: int)
    requires
        adds_separator(outer, inner, sep),
        splits_at(outer, inner, sep, s, k),
    ensures
        outer.matches(s),
{
    let front = s.take(k);
    let back = s.skip(k + 1);
    assert(s[0] == front[0]);
    assert(s.last() == back.last());
    assert(front.last() == s[k - 1]);
    assert(back[0] == s[k + 1]);
    assert forall|i: int| 0 <= i < s.len() implies outer.unit(#[trigger] s[i]) || outer.separator(
        s[i],
    ) by {
        if i < k {
            assert(s[i] == front[i]);
        } else if i > k {
            assert(s[i] == back[i - k - 1]);
            assert(inner.unit(back[i - k - 1]) || inner.separator(back[i - k - 1]));
        }
    }
    assert forall|i: int| 0 <= i < s.len() - 1 implies outer.unit(#[trigger] s[i]) || outer.unit(
        s[i + 1],
    ) by {
        if i < k - 1 {
            assert(s[i] == front[i]);
            assert(s[i + 1] == front[i + 1]);
        } else if i > k {
            assert(s[i] == back[i - k - 1]);
            assert(s[i + 1] == back[i - k]);
            assert(inner.unit(back[i - k - 1]) || inner.unit(back[i - k]));
        }
    }
}

proof fn lemma_split_exists(outer: Shape, inner: Shape, sep: char, s: Seq<char>)
    requires
        adds_separator(outer, inner, sep),
        outer.matches(s),
        !inner.matches(s),
    ensures
        splits_at(outer, inner, sep, s, last_index_of(s, sep)),
{
    lemma_last_index_of(s, sep);
    let k = last_index_of(s, sep);
    if k < 0 {
        assert forall|i: int| 0 <= i < s.len() implies inner.unit(#[trigger] s[i])
            || inner.separator(s[i]) by {
            assert(outer.unit(s[i]) || outer.separator(s[i]));
        }
        assert forall|i: int| 0 <= i < s.len() - 1 implies inner.unit(#[trigger] s[i])
            || inner.unit(s[i + 1]) by {
            assert(outer.unit(s[i]) || outer.unit(s[i + 1]));
        }
        assert(inner.matches(s));
    } else {
        let front = s.take(k);
        let back = s.skip(k + 1);
        assert(outer.unit(s[k - 1]) || outer.unit(s[k]));
        assert(outer.unit(s[k]) || outer.unit(s[k + 1]));
        assert(front.last() == s[k - 1]);
        assert(back[0] == s[k + 1]);
        assert(front[0] == s[0]);
        assert(back.last() == s.last());
        assert forall|i: int| 0 <= i < front.len() implies outer.unit(#[trigger] front[i])
            || outer.separator(front[i]) by {
            assert(front[i] == s[i]);
        }
        assert forall|i: int| 0 <= i < front.len() - 1 implies outer.unit(#[trigger] front[i])
            || outer.unit(front[i + 1]) by {
            assert(front[i] == s[i]);
            assert(front[i + 1] == s[i + 1]);
            assert(outer.unit(s[i]) || outer.unit(s[i + 1]));
        }
        assert forall|i: int| 0 <= i < back.len() implies inner.unit(#[trigger] back[i])
            || inner.separator(back[i]) by {
            assert(back[i] == s[i + k + 1]);
            assert(outer.unit(s[i + k + 1]) || outer.separator(s[i + k + 1]));
        }
        assert forall|i: int| 0 <= i < back.len() - 1 implies inner.unit(#[trigger] back[i])
            || inner.unit(back[i + 1]) by {
            assert(back[i] == s[i + k + 1]);
            assert(back[i + 1] == s[i + k + 2]);
            assert(outer.unit(s[i + k + 1]) || outer.unit(s[i + k + 1 + 1]));
        }
    }
}

proof fn lemma_inner_is_outer(outer: Shape, inner: Shape, sep: char, s: Seq<char>)
    requires
        adds_separator(outer, inner, sep),
        inner.matches(s),
    ensures
        outer.matches(s),
{
    assert forall|i: int| 0 <= i < s.len() implies outer.unit(#[trigger] s[i]) || outer.separator(
        s[i],
    ) by {
        assert(inner.unit(s[i]) || inner.separator(s[i]));
    }
    assert forall|i: int| 0 <= i < s.len() - 1 implies outer.unit(#[trigger] s[i]) || outer.unit(
        s[i + 1],
    ) by {
        assert(inner.unit(s[i]) || inner.unit(s[i + 1]));
    }
}

/// `outer = inner (sep inner)*`, one step at a time: a string of `outer` is a
/// string of `inner`, or a string of `outer`, a `sep` and a string of `inner`.
pub proof fn lemma_rule_unfolds(outer: Shape, inner: Shape, sep: char, s: Seq<char>)
    requires
        adds_separator(outer, inner, sep),
    ensures
        outer.matches(s) <==> (inner.matches(s) || exists|k: int|
            splits_at(outer, inner, sep, s, k)),
{
    if inner.matches(s) {
        lemma_inner_is_outer(outer, inner, sep, s);
    } else if outer.matches(s) {
        lemma_split_exists(outer, inner, sep, s);
    } else if exists|k: int| splits_at(outer, inner, sep, s, k) {
        let k = choose|k: int| splits_at(outer, inner, sep, s, k);
        lemma_split_composes(outer, inner, sep, s, k);
    }
}

/// `alphanumeric+`: one or more letters and digits, and nothing else.
pub proof fn lemma_alphanumeric_rule(s: Seq<char>)
    ensures
        is_alphanumeric_run(s) <==> s.len() > 0 && forall|i: int|
            0 <= i < s.len() ==> is_alphanumeric(#[trigger] s[i]),
{
    if s.len() > 0 && (forall|i: int| 0 <= i < s.len() ==> is_alphanumeric(#[trigger] s[i])) {
        assert(is_alphanumeric(s[0]));
        assert(is_alphanumeric(s[s.len() - 1]));
    }
    if is_alphanumeric_run(s) {
        assert forall|i: int| 0 <= i < s.len() implies is_alphanumeric(#[trigger] s[i]) by {
            assert(Shape::Alphanumeric.unit(s[i]) || Shape::Alphanumeric.separator(s[i]));
        }
    }
}

/// `atom = atext+`: one or more `atext` characters, and nothing else.
pub proof fn lemma_atom_rule(s: Seq<char>)
    ensures
        is_atom(s) <==> s.len() > 0 && forall|i: int|
            0 <= i < s.len() ==> is_atext(#[trigger] s[i]),
{
    if s.len() > 0 && (forall|i: int| 0 <= i < s.len() ==> is_atext(#[trigger] s[i])) {
        assert(is_atext(s[0]));
        assert(is_atext(s[s.len() - 1]));
    }
    if is_atom(s) {
        assert forall|i: int| 0 <= i < s.len() implies is_atext(#[trigger] s[i]) by {
            assert(Shape::Atom.unit(s[i]) || Shape::Atom.separator(s[i]));
        }
    }
}

/// `subdomain = alphanumeric+ ("-" alphanumeric+)*`
pub proof fn lemma_subdomain_rule(s: Seq<char>)
    ensures
        is_subdomain(s) <==> (is_alphanumeric_run(s) || exists|k: int|
            0 < k < s.len() - 1 && s[k] == '-' && is_subdomain(s.take(k)) && is_alphanumeric_run(
                s.skip(k + 1),
            )),
{
    lemma_rule_unfolds(Shape::Subdomain, Shape::Alphanumeric, '-', s);
    if exists|k: int| splits_at(Shape::Subdomain, Shape::Alphanumeric, '-', s, k) {
        let k = choose|k: int| splits_at(Shape::Subdomain, Shape::Alphanumeric, '-', s, k);
        assert(0 < k < s.len() - 1 && s[k] == '-' && is_subdomain(s.take(k))
            && is_alphanumeric_run(s.skip(k + 1)));
    }
    if exists|k: int|
        0 < k < s.len() - 1 && s[k] == '-' && is_subdomain(s.take(k)) && is_alphanumeric_run(
            s.skip(k + 1),
        ) {
        let k = choose|k: int|
            0 < k < s.len() - 1 && s[k] == '-' && is_subdomain(s.take(k)) && is_alphanumeric_run(
                s.skip(k + 1),
            );
        assert(splits_at(Shape::Subdomain, Shape::Alphanumeric, '-', s, k));
    }
}

/// `domain = subdomain ("." subdomain)*`
pub proof fn lemma_domain_rule(s: Seq<char>)
    ensures
        is_domain(s) <==> (is_subdomain(s) || exists|k: int|
            0 < k < s.len() - 1 && s[k] == '.' && is_domain(s.take(k)) && is_subdomain(
                s.skip(k + 1),
            )),
{
    lemma_rule_unfolds(Shape::Domain, Shape::Subdomain, '.', s);
    if exists|k: int| splits_at(Shape::Domain, Shape::Subdomain, '.', s, k) {
        let k = choose|k: int| splits_at(Shape::Domain, Shape::Subdomain, '.', s, k);
        assert(0 < k < s.len() - 1 && s[k] == '.' && is_domain(s.take(k)) && is_subdomain(
            s.skip(k + 1),
        ));
    }
    if exists|k: int|
        0 < k < s.len() - 1 && s[k] == '.' && is_domain(s.take(k)) && is_subdomain(
            s.skip(k + 1),
        ) {
        let k = choose|k: int|
            0 < k < s.len() - 1 && s[k] == '.' && is_domain(s.take(k)) && is_subdomain(
                s.skip(k + 1),
            );
        assert(splits_at(Shape::Domain, Shape::Subdomain, '.', s, k));
    }
}

/// A dot-string followed by an atom, with no dot between them, is a
/// dot-string: the two atoms that touch are one atom.
pub proof fn lemma_atoms_without_dot(s: Seq<char>, k: int)
    requires
        0 < k < s.len(),
        is_dot_string(s.take(k)),
        is_atom(s.skip(k)),
    ensures
        is_dot_string(s),
{
    let front = s.take(k);
    let back = s.skip(k);
    assert(s[0] == front[0]);
    assert(s.last() == back.last());
    assert(front.last() == s[k - 1]);
    assert forall|i: int| 0 <= i < s.len() implies is_atext(#[trigger] s[i]) || s[i] == '.' by {
        if i < k {
            assert(s[i] == front[i]);
            assert(Shape::DotString.unit(front[i]) || Shape::DotString.separator(front[i]));
        } else {
            assert(s[i] == back[i - k]);
            assert(Shape::Atom.unit(back[i - k]) || Shape::Atom.separator(back[i - k]));
        }
    }
    assert forall|i: int| 0 <= i < s.len() - 1 implies is_atext(#[trigger] s[i]) || is_atext(
        s[i + 1],
    ) by {
        if i < k - 1 {
            assert(s[i] == front[i]);
            assert(s[i + 1] == front[i + 1]);
            assert(Shape::DotString.unit(front[i]) || Shape::DotString.unit(front[i + 1]));
        } else if i >= k {
            assert(s[i] == back[i - k]);
            assert(Shape::Atom.unit(back[i - k]) || Shape::Atom.separator(back[i - k]));
        }
    }
}

/// `dot-string = atom ("."? atom)*`: an atom, or a dot-string and an atom
/// with a dot between them, or with none.
pub proof fn lemma_dot_string_rule(s: Seq<char>)
    ensures
        is_dot_string(s) <==> (is_atom(s) || (exists|k: int|
            0 < k < s.len() - 1 && s[k] == '.' && is_dot_string(s.take(k)) && is_atom(
                s.skip(k + 1),
            )) || (exists|k: int| 0 < k < s.len() && is_dot_string(s.take(k)) && is_atom(s.skip(k)))),
{
    lemma_rule_unfolds(Shape::DotString, Shape::Atom, '.', s);
    if exists|k: int| splits_at(Shape::DotString, Shape::Atom, '.', s, k) {
        let k = choose|k: int| splits_at(Shape::DotString, Shape::Atom, '.', s, k);
        assert(0 < k < s.len() - 1 && s[k] == '.' && is_dot_string(s.take(k)) && is_atom(
            s.skip(k + 1),
        ));
    }
    if exists|k: int|
        0 < k < s.len() - 1 && s[k] == '.' && is_dot_string(s.take(k)) && is_atom(s.skip(k + 1)) {
        let k = choose|k: int|
            0 < k < s.len() - 1 && s[k] == '.' && is_dot_string(s.take(k)) && is_atom(
                s.skip(k + 1),
            );
        assert(splits_at(Shape::DotString, Shape::Atom, '.', s, k));
    }
    if exists|k: int| 0 < k < s.len() && is_dot_string(s.take(k)) && is_atom(s.skip(k)) {
        let k = choose|k: int| 0 < k < s.len() && is_dot_string(s.take(k)) && is_atom(s.skip(k));
        lemma_atoms_without_dot(s, k);
    }
}

/// A mailbox is cut at its last `@`, and nowhere else.
pub proof fn lemma_mailbox_split_is_last(s: Seq<char>, k: int)
    requires
        mailbox_split(s, k),
    ensures
        last_at(s) == k,
        is_mailbox(s),
{
    let d = s.skip(k + 1);
    assert forall|j: int| k < j < s.len() implies s[j] != '@' by {
        assert(s[j] == d[j - k - 1]);
        assert(Shape::Domain.unit(d[j - k - 1]) || Shape::Domain.separator(d[j - k - 1]));
    }
    lemma_last_index_of_is(s, '@', k);
}

/// `mailbox = localpart "@" domain`: a local part, an `@` and a domain, and
/// nothing else.
pub proof fn lemma_mailbox_rule(s: Seq<char>)
    ensures
        is_mailbox(s) <==> exists|k: int| mailbox_split(s, k),
{
    if exists|k: int| mailbox_split(s, k) {
        let k = choose|k: int| mailbox_split(s, k);
        lemma_mailbox_split_is_last(s, k);
    }
    if is_mailbox(s) {
        assert(mailbox_split(s, last_at(s)));
    }
}

} // verus!
