//! What the DATA body decoder computes, as functions on lines.
//!
//! The body of a message ends at the first line that is a single dot.  The
//! lines before it are the body; a dot at the start of a body line is an
//! escape and is removed.  The lines after it belong to the command dialogue
//! again.

use vstd::prelude::*;
use crate::parser::lines::{
    all_lines, crlf, lemma_all_lines_of_concatenation, lemma_all_lines_without_newline,
    lemma_no_tail_means_newline, lemma_terminated_lines, lemma_terminated_push, newline_free,
    terminated,
};

verus! {

/// The line that ends a message body: a single dot.
pub open spec fn is_terminator(line: Seq<char>) -> bool {
    line.len() == 1 && line[0] == '.'
}

/// A body line as the client meant it: without the dot that escapes it.
pub open spec fn unstuff(line: Seq<char>) -> Seq<char> {
    if line.len() > 0 && line[0] == '.' {
        line.skip(1)
    } else {
        line
    }
}

/// A body line as the client sends it: a line that begins with a dot gets
/// one more.
pub open spec fn stuff(line: Seq<char>) -> Seq<char> {
    if line.len() > 0 && line[0] == '.' {
        seq!['.'] + line
    } else {
        line
    }
}

/// The lines joined by CR LF, with none after the last.
pub open spec fn join_lines(lines: Seq<Seq<char>>) -> Seq<char>
    decreases lines.len(),
{
    if lines.len() == 0 {
        Seq::empty()
    } else if lines.len() == 1 {
        lines[0]
    } else {
        join_lines(lines.drop_last()) + crlf() + lines.last()
    }
}

/// The number of lines before the first terminator; the number of all lines
/// if there is none.
pub open spec fn terminator_index(lines: Seq<Seq<char>>) -> nat
    decreases lines.len(),
{
    if lines.len() == 0 || is_terminator(lines[0]) {
        0
    } else {
        1 + terminator_index(lines.skip(1))
    }
}

/// Whether a terminator is among the lines.
pub open spec fn has_ended(lines: Seq<Seq<char>>) -> bool {
    terminator_index(lines) < lines.len()
}

/// The body lines: those before the terminator, each without its escape.
pub open spec fn body_lines(lines: Seq<Seq<char>>) -> Seq<Seq<char>> {
    lines.take(terminator_index(lines) as int).map_values(|l: Seq<char>| unstuff(l))
}

/// The lines after the terminator.
pub open spec fn lines_after(lines: Seq<Seq<char>>) -> Seq<Seq<char>> {
    if has_ended(lines) {
        lines.skip(terminator_index(lines) as int + 1)
    } else {
        Seq::empty()
    }
}

/// The decoded body: the body lines joined by CR LF.
pub open spec fn decoded_body(lines: Seq<Seq<char>>) -> Seq<char> {
    join_lines(body_lines(lines))
}

/// What is left for the command parser: the lines after the terminator, joined
/// by CR LF.
pub open spec fn decoded_tail(lines: Seq<Seq<char>>) -> Seq<char> {
    join_lines(lines_after(lines))
}

/// `terminator_index` points at the first terminator, if there is one.
pub proof fn lemma_terminator_index(lines: Seq<Seq<char>>)
    ensures
        terminator_index(lines) <= lines.len(),
        forall|i: int| 0 <= i < terminator_index(lines) ==> !is_terminator(#[trigger] lines[i]),
        has_ended(lines) ==> is_terminator(lines[terminator_index(lines) as int]),
    decreases lines.len(),
{
    if lines.len() == 0 || is_terminator(lines[0]) {
    } else {
        lemma_terminator_index(lines.skip(1));
        assert forall|i: int| 0 <= i < terminator_index(lines) implies !is_terminator(
            #[trigger] lines[i],
        ) by {
            if i > 0 {
                assert(lines[i] == lines.skip(1)[i - 1]);
            }
        }
    }
}

/// A position with no terminator before it, and a terminator or the end at
/// it, is `terminator_index`.
pub proof fn lemma_terminator_index_is(lines: Seq<Seq<char>>, k: int)
    requires
        0 <= k <= lines.len(),
        forall|i: int| 0 <= i < k ==> !is_terminator(#[trigger] lines[i]),
        k < lines.len() ==> is_terminator(lines[k]),
    ensures
        terminator_index(lines) == k,
{
    lemma_terminator_index(lines);
    let t = terminator_index(lines) as int;
    if t < k {
        assert(is_terminator(lines[t]));
    } else if k < t {
        assert(!is_terminator(lines[k]));
    }
}

/// One more line at the end: how the joined text grows.
pub proof fn lemma_join_lines_push(lines: Seq<Seq<char>>, line: Seq<char>)
    ensures
        join_lines(lines.push(line)) == if lines.len() == 0 {
            line
        } else {
            join_lines(lines) + crlf() + line
        },
{
    let all = lines.push(line);
    assert(all.drop_last() =~= lines);
    assert(all.last() == line);
}

/// One more line at the end: what becomes of the decoded parts.  Before the
/// terminator the line joins the body, the terminator itself joins nothing,
/// and after it the line joins the tail.
pub proof fn lemma_decode_push(lines: Seq<Seq<char>>, line: Seq<char>)
    ensures
        has_ended(lines.push(line)) == (has_ended(lines) || is_terminator(line)),
        body_lines(lines.push(line)) == if has_ended(lines) || is_terminator(line) {
            body_lines(lines)
        } else {
            body_lines(lines).push(unstuff(line))
        },
        lines_after(lines.push(line)) == if has_ended(lines) {
            lines_after(lines).push(line)
        } else {
            Seq::<Seq<char>>::empty()
        },
{
    let all = lines.push(line);
    let t = terminator_index(lines) as int;
    lemma_terminator_index(lines);
    if has_ended(lines) {
        assert forall|i: int| 0 <= i < t implies !is_terminator(#[trigger] all[i]) by {
            assert(all[i] == lines[i]);
        }
        assert(all[t] == lines[t]);
        lemma_terminator_index_is(all, t);
        assert(all.take(t) =~= lines.take(t));
        assert(all.skip(t + 1) =~= lines.skip(t + 1).push(line));
    } else {
        assert forall|i: int| 0 <= i < lines.len() implies !is_terminator(#[trigger] all[i]) by {
            assert(all[i] == lines[i]);
        }
        if is_terminator(line) {
            lemma_terminator_index_is(all, lines.len() as int);
            assert(all.take(lines.len() as int) =~= lines.take(t));
            assert(all.skip(lines.len() as int + 1) =~= Seq::<Seq<char>>::empty());
        } else {
            lemma_terminator_index_is(all, all.len() as int);
            assert(all.take(all.len() as int) =~= lines.take(t).push(line));
            assert(all.take(all.len() as int).map_values(|l: Seq<char>| unstuff(l))
                =~= lines.take(t).map_values(|l: Seq<char>| unstuff(l)).push(unstuff(line)));
        }
    }
}

/// Removing the escape undoes adding it.  A line that begins with two dots
/// is an escaped line: it decodes to a line that begins with one dot, and
/// that line encodes to it again.
pub proof fn lemma_stuffing_round_trips(line: Seq<char>)
    ensures
        unstuff(stuff(line)) == line,
        !is_terminator(stuff(line)),
        line.len() >= 2 && line[0] == '.' && line[1] == '.' ==> {
            &&& unstuff(line).len() > 0
            &&& unstuff(line)[0] == '.'
            &&& stuff(unstuff(line)) == line
        },
{
    assert(unstuff(stuff(line)) =~= line);
    if line.len() >= 2 && line[0] == '.' && line[1] == '.' {
        assert(stuff(unstuff(line)) =~= line);
    }
}

/// Lines joined by CR LF and followed by CR LF are lines each followed by
/// CR LF.
pub proof fn lemma_join_lines_terminated(lines: Seq<Seq<char>>)
    requires
        lines.len() > 0,
    ensures
        terminated(lines) == join_lines(lines) + crlf(),
    decreases lines.len(),
{
    let front = lines.drop_last();
    assert(lines =~= front.push(lines.last()));
    lemma_terminated_push(front, lines.last());
    if front.len() > 0 {
        lemma_join_lines_terminated(front);
        assert(terminated(lines) =~= join_lines(lines) + crlf());
    } else {
        assert(terminated(front) =~= Seq::<char>::empty());
        assert(terminated(lines) =~= join_lines(lines) + crlf());
    }
}

/// What a client sends for a body: its lines, each escaped, joined by CR LF,
/// then the terminator line.
pub open spec fn encoded_body(body: Seq<Seq<char>>) -> Seq<char> {
    join_lines(body.map_values(|l: Seq<char>| stuff(l))) + crlf() + seq!['.'] + crlf()
}

/// Decoding undoes encoding.  For a body of lines that hold no line feed,
/// the decoder finds the end of the encoded body, returns the body as it was,
/// and leaves the lines of what follows, joined by CR LF.
pub proof fn lemma_decoder_round_trip(body: Seq<Seq<char>>, trailing: Seq<char>)
    requires
        body.len() > 0,
        newline_free(body),
    ensures
        has_ended(all_lines(encoded_body(body) + trailing)),
        decoded_body(all_lines(encoded_body(body) + trailing)) == join_lines(body),
        decoded_tail(all_lines(encoded_body(body) + trailing)) == join_lines(
            all_lines(trailing),
        ),
{
    let stuffed = body.map_values(|l: Seq<char>| stuff(l));
    let dot = seq!['.'];
    let sent_lines = stuffed.push(dot);
    lemma_join_lines_terminated(stuffed);
    lemma_terminated_push(stuffed, dot);
    assert(encoded_body(body) =~= terminated(sent_lines));
    assert forall|i: int, j: int|
        0 <= i < sent_lines.len() && 0 <= j < sent_lines[i].len() implies #[trigger] sent_lines[i][j]
        != '\n' by {
        if i < body.len() {
            let line = body[i];
            if line.len() > 0 && line[0] == '.' {
                if j > 0 {
                    assert(sent_lines[i][j] == body[i][j - 1]);
                }
            } else {
                assert(sent_lines[i][j] == body[i][j]);
            }
        }
    }
    lemma_terminated_lines(sent_lines);
    lemma_no_tail_means_newline(terminated(sent_lines));
    lemma_all_lines_of_concatenation(terminated(sent_lines), trailing);
    let after = all_lines(trailing);
    let lines = sent_lines + after;
    assert(all_lines(encoded_body(body) + trailing) == lines);
    assert forall|i: int| 0 <= i < body.len() implies !is_terminator(#[trigger] lines[i]) by {
        lemma_stuffing_round_trips(body[i]);
        assert(lines[i] == stuff(body[i]));
    }
    assert(lines[body.len() as int] == dot);
    lemma_terminator_index_is(lines, body.len() as int);
    assert(body_lines(lines) =~= body) by {
        assert forall|i: int| 0 <= i < body.len() implies #[trigger] body_lines(lines)[i]
            == body[i] by {
            lemma_stuffing_round_trips(body[i]);
            assert(lines.take(body.len() as int)[i] == stuff(body[i]));
        }
    }
    assert(lines_after(lines) =~= after);
}

/// What follows the body comes back verbatim if it holds no line feed: it is
/// one unfinished line.
pub proof fn lemma_decoder_keeps_unfinished_line(body: Seq<Seq<char>>, trailing: Seq<char>)
    requires
        body.len() > 0,
        newline_free(body),
        forall|i: int| 0 <= i < trailing.len() ==> trailing[i] != '\n',
    ensures
        has_ended(all_lines(encoded_body(body) + trailing)),
        decoded_body(all_lines(encoded_body(body) + trailing)) == join_lines(body),
        decoded_tail(all_lines(encoded_body(body) + trailing)) == trailing,
{
    lemma_decoder_round_trip(body, trailing);
    lemma_all_lines_without_newline(trailing);
    assert(join_lines(all_lines(trailing)) =~= trailing);
}

} // verus!
