//! Cutting a buffer into lines.
//!
//! A line ends at a line feed; a carriage return directly before the line feed
//! belongs to the terminator.  What follows the last line feed is the
//! unfinished tail.

use vstd::prelude::*;
use vstd::string::*;

verus! {

broadcast use vstd::string::group_string_axioms;

/// The number of characters before the first line feed of `s`; the length of
/// `s` if it holds none.
pub open spec fn first_newline(s: Seq<char>) -> nat
    decreases s.len(),
{
    if s.len() == 0 || s[0] == '\n' {
        0
    } else {
        1 + first_newline(s.skip(1))
    }
}

/// The line terminator that the server writes, and that joins lines on the
/// wire: CR LF.
pub open spec fn crlf() -> Seq<char> {
    seq!['\r', '\n']
}

/// A line without the carriage return that preceded its line feed.
pub open spec fn strip_cr(line: Seq<char>) -> Seq<char> {
    if line.len() > 0 && line.last() == '\r' {
        line.drop_last()
    } else {
        line
    }
}

/// The lines of `s` that a line feed completes, in order, each without its
/// terminator.
pub open spec fn complete_lines(s: Seq<char>) -> Seq<Seq<char>>
    decreases s.len(),
{
    let k = first_newline(s) as int;
    if k >= s.len() {
        Seq::empty()
    } else {
        seq![strip_cr(s.take(k))] + complete_lines(s.skip(k + 1))
    }
}

/// What follows the last line feed of `s`: all of `s` if it holds none, and
/// nothing if `s` ends in one.
pub open spec fn unfinished_tail(s: Seq<char>) -> Seq<char>
    decreases s.len(),
{
    let k = first_newline(s) as int;
    if k >= s.len() {
        s
    } else {
        unfinished_tail(s.skip(k + 1))
    }
}

/// Every line of `s`: the complete ones, then the unfinished tail if it is not
/// empty.  The tail keeps a trailing carriage return: no line feed follows it.
pub open spec fn all_lines(s: Seq<char>) -> Seq<Seq<char>> {
    if unfinished_tail(s).len() > 0 {
        complete_lines(s).push(unfinished_tail(s))
    } else {
        complete_lines(s)
    }
}

/// `first_newline` points at the first line feed, if there is one.
pub proof fn lemma_first_newline(s: Seq<char>)
    ensures
        first_newline(s) <= s.len(),
        forall|i: int| 0 <= i < first_newline(s) ==> s[i] != '\n',
        first_newline(s) < s.len() ==> s[first_newline(s) as int] == '\n',
    decreases s.len(),
{
    if s.len() == 0 || s[0] == '\n' {
    } else {
        lemma_first_newline(s.skip(1));
        assert forall|i: int| 0 <= i < first_newline(s) implies s[i] != '\n' by {
            if i > 0 {
                assert(s[i] == s.skip(1)[i - 1]);
            }
        }
    }
}

/// A position with no line feed before it, and a line feed or the end at it,
/// is `first_newline`.
pub proof fn lemma_first_newline_is(s: Seq<char>, k: int)
    requires
        0 <= k <= s.len(),
        forall|i: int| 0 <= i < k ==> s[i] != '\n',
        k < s.len() ==> s[k] == '\n',
    ensures
        first_newline(s) == k,
{
    lemma_first_newline(s);
    let f = first_newline(s) as int;
    if f < k {
        assert(s[f] == '\n');
    } else if k < f {
        assert(s[k] != '\n');
    }
}

/// A buffer that ends in a line feed leaves no unfinished tail.
pub proof fn lemma_no_tail_after_newline(s: Seq<char>)
    requires
        s.len() > 0,
        s.last() == '\n',
    ensures
        unfinished_tail(s) == Seq::<char>::empty(),
    decreases s.len(),
{
    lemma_first_newline(s);
    let k = first_newline(s) as int;
    assert(k < s.len()) by {
        assert(s[s.len() - 1] == '\n');
    }
    let rest = s.skip(k + 1);
    if rest.len() > 0 {
        assert(rest.last() == s.last());
        lemma_no_tail_after_newline(rest);
    } else {
        assert(unfinished_tail(rest) =~= Seq::<char>::empty());
    }
}

/// A buffer that leaves no unfinished tail is empty or ends in a line feed.
pub proof fn lemma_no_tail_means_newline(s: Seq<char>)
    requires
        unfinished_tail(s).len() == 0,
    ensures
        s.len() == 0 || s.last() == '\n',
    decreases s.len(),
{
    lemma_first_newline(s);
    let k = first_newline(s) as int;
    if k < s.len() {
        let rest = s.skip(k + 1);
        lemma_no_tail_means_newline(rest);
        if rest.len() > 0 {
            assert(rest.last() == s.last());
        }
    }
}

/// The lines of two buffers, one after the other, are the lines of the first
/// followed by the lines of the second, provided the first leaves no line
/// unfinished: what a line spells does not depend on the lines around it.
pub proof fn lemma_lines_of_concatenation(a: Seq<char>, b: Seq<char>)
    requires
        a.len() == 0 || a.last() == '\n',
    ensures
        complete_lines(a + b) == complete_lines(a) + complete_lines(b),
        unfinished_tail(a + b) == unfinished_tail(b),
    decreases a.len(),
{
    if a.len() == 0 {
        assert(a + b =~= b);
        assert(complete_lines(a) + complete_lines(b) =~= complete_lines(b));
    } else {
        lemma_first_newline(a);
        let k = first_newline(a) as int;
        assert forall|i: int| 0 <= i < k implies (a + b)[i] != '\n' by {
            assert((a + b)[i] == a[i]);
        }
        assert((a + b)[k] == a[k]);
        lemma_first_newline_is(a + b, k);
        let rest = a.skip(k + 1);
        if rest.len() > 0 {
            assert(rest.last() == a.last());
        }
        lemma_lines_of_concatenation(rest, b);
        assert((a + b).take(k) =~= a.take(k));
        assert((a + b).skip(k + 1) =~= rest + b);
        assert(complete_lines(a + b) =~= complete_lines(a) + complete_lines(b));
    }
}

/// Text without a line feed, added at the end of a buffer, completes no line:
/// it goes to the unfinished tail as it is.
pub proof fn lemma_append_without_newline(s: Seq<char>, suffix: Seq<char>)
    requires
        forall|i: int| 0 <= i < suffix.len() ==> suffix[i] != '\n',
    ensures
        complete_lines(s + suffix) == complete_lines(s),
        unfinished_tail(s + suffix) == unfinished_tail(s) + suffix,
    decreases s.len(),
{
    lemma_first_newline(s);
    let k = first_newline(s) as int;
    if k < s.len() {
        assert forall|i: int| 0 <= i < k implies (s + suffix)[i] != '\n' by {
            assert((s + suffix)[i] == s[i]);
        }
        assert((s + suffix)[k] == s[k]);
        lemma_first_newline_is(s + suffix, k);
        lemma_append_without_newline(s.skip(k + 1), suffix);
        assert((s + suffix).take(k) =~= s.take(k));
        assert((s + suffix).skip(k + 1) =~= s.skip(k + 1) + suffix);
    } else {
        let all = s + suffix;
        assert forall|i: int| 0 <= i < all.len() implies all[i] != '\n' by {
            if i < s.len() {
                assert(all[i] == s[i]);
            } else {
                assert(all[i] == suffix[i - s.len()]);
            }
        }
        lemma_first_newline_is(all, all.len() as int);
    }
}

/// Text without a line feed, added to a buffer of complete lines, is the
/// unfinished tail, verbatim, and the lines stay as they were.
pub proof fn lemma_suffix_becomes_tail(s: Seq<char>, suffix: Seq<char>)
    requires
        s.len() == 0 || s.last() == '\n',
        forall|i: int| 0 <= i < suffix.len() ==> suffix[i] != '\n',
    ensures
        complete_lines(s + suffix) == complete_lines(s),
        unfinished_tail(s + suffix) == suffix,
{
    lemma_append_without_newline(s, suffix);
    if s.len() > 0 {
        lemma_no_tail_after_newline(s);
    }
    assert(unfinished_tail(s) + suffix =~= suffix);
}

/// Reading in pieces: the lines of two pieces taken together are the lines of
/// the first piece, then the lines of what the first piece left unfinished
/// followed by the second piece.  So a reader that keeps the unfinished tail
/// and puts it before the next piece sees the lines of the whole input.
pub proof fn lemma_reading_in_pieces(a: Seq<char>, b: Seq<char>)
    ensures
        complete_lines(a + b) == complete_lines(a) + complete_lines(unfinished_tail(a) + b),
        unfinished_tail(a + b) == unfinished_tail(unfinished_tail(a) + b),
    decreases a.len(),
{
    lemma_first_newline(a);
    let k = first_newline(a) as int;
    if k < a.len() {
        assert forall|i: int| 0 <= i < k implies (a + b)[i] != '\n' by {
            assert((a + b)[i] == a[i]);
        }
        assert((a + b)[k] == a[k]);
        lemma_first_newline_is(a + b, k);
        let rest = a.skip(k + 1);
        lemma_reading_in_pieces(rest, b);
        assert((a + b).take(k) =~= a.take(k));
        assert((a + b).skip(k + 1) =~= rest + b);
        assert(complete_lines(a + b) =~= complete_lines(a) + complete_lines(
            unfinished_tail(a) + b,
        ));
    } else {
        assert(complete_lines(a) + complete_lines(a + b) =~= complete_lines(a + b));
    }
}

/// The lines, each followed by CR LF.
pub open spec fn terminated(lines: Seq<Seq<char>>) -> Seq<char>
    decreases lines.len(),
{
    if lines.len() == 0 {
        Seq::empty()
    } else {
        lines[0] + crlf() + terminated(lines.skip(1))
    }
}

/// No line holds a line feed.
pub open spec fn newline_free(lines: Seq<Seq<char>>) -> bool {
    forall|i: int, j: int|
        0 <= i < lines.len() && 0 <= j < lines[i].len() ==> #[trigger] lines[i][j] != '\n'
}

/// Lines that were each followed by CR LF are read back as they were, with
/// nothing left over.
pub proof fn lemma_terminated_lines(lines: Seq<Seq<char>>)
    requires
        newline_free(lines),
    ensures
        complete_lines(terminated(lines)) == lines,
        unfinished_tail(terminated(lines)) == Seq::<char>::empty(),
    decreases lines.len(),
{
    if lines.len() == 0 {
        assert(complete_lines(terminated(lines)) =~= lines);
    } else {
        let first = lines[0];
        let rest = lines.skip(1);
        let s = terminated(lines);
        let k = first.len() as int + 1;
        assert forall|i: int| 0 <= i < k implies s[i] != '\n' by {
            if i < first.len() {
                assert(s[i] == lines[0][i]);
            }
        }
        lemma_first_newline_is(s, k);
        assert(s.take(k) =~= first.push('\r'));
        assert(strip_cr(s.take(k)) =~= first);
        assert(s.skip(k + 1) =~= terminated(rest));
        assert forall|i: int, j: int|
            0 <= i < rest.len() && 0 <= j < rest[i].len() implies #[trigger] rest[i][j]
            != '\n' by {
            assert(rest[i][j] == lines[i + 1][j]);
        }
        lemma_terminated_lines(rest);
        assert(complete_lines(s) =~= lines);
    }
}

/// One more line at the end of lines that are each followed by CR LF.
pub proof fn lemma_terminated_push(lines: Seq<Seq<char>>, line: Seq<char>)
    ensures
        terminated(lines.push(line)) == terminated(lines) + line + crlf(),
    decreases lines.len(),
{
    let all = lines.push(line);
    if lines.len() == 0 {
        assert(all.skip(1) =~= lines);
        assert(all[0] == line);
        assert(terminated(lines) =~= Seq::<char>::empty());
        assert(terminated(all) =~= terminated(lines) + line + crlf());
    } else {
        lemma_terminated_push(lines.skip(1), line);
        assert(all.skip(1) =~= lines.skip(1).push(line));
        assert(terminated(all) =~= terminated(lines) + line + crlf());
    }
}

/// All the lines of two buffers, one after the other, when the first leaves
/// no line unfinished.
pub proof fn lemma_all_lines_of_concatenation(a: Seq<char>, b: Seq<char>)
    requires
        a.len() == 0 || a.last() == '\n',
    ensures
        all_lines(a + b) == complete_lines(a) + all_lines(b),
{
    lemma_lines_of_concatenation(a, b);
    assert(all_lines(a + b) =~= complete_lines(a) + all_lines(b));
}

/// Text without a line feed is its own and only line, if it is not empty.
pub proof fn lemma_all_lines_without_newline(s: Seq<char>)
    requires
        forall|i: int| 0 <= i < s.len() ==> s[i] != '\n',
    ensures
        all_lines(s) == if s.len() > 0 {
            seq![s]
        } else {
            Seq::<Seq<char>>::empty()
        },
{
    lemma_first_newline_is(s, s.len() as int);
    assert(all_lines(s) =~= if s.len() > 0 {
        seq![s]
    } else {
        Seq::<Seq<char>>::empty()
    });
}

/// The unfinished tail holds no line feed.
pub proof fn lemma_tail_holds_no_newline(s: Seq<char>)
    ensures
        forall|i: int| 0 <= i < unfinished_tail(s).len() ==> unfinished_tail(s)[i] != '\n',
    decreases s.len(),
{
    lemma_first_newline(s);
    let k = first_newline(s) as int;
    let tail = unfinished_tail(s);
    if k < s.len() {
        lemma_tail_holds_no_newline(s.skip(k + 1));
        assert(tail == unfinished_tail(s.skip(k + 1)));
    } else {
        assert forall|i: int| 0 <= i < tail.len() implies tail[i] != '\n' by {
            assert(tail[i] == s[i]);
        }
    }
}

/// The characters of a string slice, collected.
pub fn chars_of(s: &str) -> (v: Vec<char>)
    ensures
        v@ == s@,
{
    let mut v: Vec<char> = Vec::new();
    for c in it: s.chars()
        invariant
            it.seq() == s@,
            v@ == s@.take(it.index() as int),
    {
        v.push(c);
        assert(v@ == s@.take(it.index() + 1));
    }
    assert(v@ == s@);
    v
}

/// The position of the first line feed at or after `from`; the length of
/// `chars` if none follows.
pub(crate) fn find_newline(chars: &Vec<char>, from: usize) -> (k: usize)
    requires
        from <= chars.len(),
    ensures
        from <= k <= chars.len(),
        k - from == first_newline(chars@.skip(from as int)),
{
    let mut k = from;
    while k < chars.len() && chars[k] != '\n'
        invariant
            from <= k <= chars.len(),
            forall|i: int| from <= i < k ==> chars@[i] != '\n',
        decreases chars.len() - k,
    {
        k += 1;
    }
    proof {
        lemma_first_newline_is(chars@.skip(from as int), k - from);
    }
    k
}

/// The lines of what starts at `pos`, when the first line feed at or after
/// `pos` is at `k`: the line up to `k`, then the lines of what follows `k`.
pub proof fn lemma_lines_step(s: Seq<char>, pos: int, k: int)
    requires
        0 <= pos <= k < s.len(),
        k - pos == first_newline(s.skip(pos)),
    ensures
        complete_lines(s.skip(pos)) == seq![strip_cr(s.subrange(pos, k))] + complete_lines(
            s.skip(k + 1),
        ),
        unfinished_tail(s.skip(pos)) == unfinished_tail(s.skip(k + 1)),
{
    let rest = s.skip(pos);
    assert(rest.take(k - pos) =~= s.subrange(pos, k));
    assert(rest.skip(k - pos + 1) =~= s.skip(k + 1));
}

/// What starts at `pos` and holds no line feed is the unfinished tail.
pub proof fn lemma_lines_end(s: Seq<char>, pos: int)
    requires
        0 <= pos <= s.len(),
        first_newline(s.skip(pos)) == s.len() - pos,
    ensures
        complete_lines(s.skip(pos)) == Seq::<Seq<char>>::empty(),
        unfinished_tail(s.skip(pos)) == s.skip(pos),
{
}

} // verus!
