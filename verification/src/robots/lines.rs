//! The lines of a text.
//!
//! A line ends at a line feed, or at a carriage return followed by a line
//! feed; neither belongs to the line. A carriage return elsewhere is part of
//! its line. The last line needs no line ending, and a text that ends with one
//! has the same lines as that text without it.

use vstd::prelude::*;
use crate::robots::text::slice_of;

verus! {

/// The index of the first line feed of `text` at or after `from`, or the length
/// of `text` if there is none.
pub open spec fn line_end(text: Seq<char>, from: int) -> int
    decreases text.len() - from,
{
    if 0 <= from < text.len() && text[from] != '\n' {
        line_end(text, from + 1)
    } else {
        from
    }
}

/// `line` without the carriage return at its end, if it has one.
pub open spec fn without_cr(line: Seq<char>) -> Seq<char> {
    if line.len() > 0 && line.last() == '\r' {
        line.drop_last()
    } else {
        line
    }
}

/// The lines of `text` that start at or after index `from`, where `from` is
/// the start of a line.
pub open spec fn lines_from(text: Seq<char>, from: int) -> Seq<Seq<char>>
    decreases text.len() - from,
{
    if 0 <= from < text.len() {
        let end = line_end(text, from);
        if from <= end < text.len() {
            seq![without_cr(text.subrange(from, end))] + lines_from(text, end + 1)
        } else {
            seq![text.subrange(from, text.len() as int)]
        }
    } else {
        Seq::empty()
    }
}

/// The lines of `text`.
pub open spec fn lines_of(text: Seq<char>) -> Seq<Seq<char>> {
    lines_from(text, 0)
}

/// `line_end` is read from where it starts: what stands before that place
/// has no part in it.
proof fn lemma_line_end_after(head: Seq<char>, tail: Seq<char>, from: int)
    requires
        0 <= from <= tail.len(),
    ensures
        line_end(head + tail, head.len() + from) == head.len() + line_end(tail, from),
        from <= line_end(tail, from) <= tail.len(),
    decreases tail.len() - from,
{
    if from < tail.len() {
        assert((head + tail)[head.len() + from] == tail[from]);
        if tail[from] != '\n' {
            lemma_line_end_after(head, tail, from + 1);
        }
    }
}

/// The lines after a place are those of the text that starts there.
proof fn lemma_lines_from_after(head: Seq<char>, tail: Seq<char>, from: int)
    requires
        0 <= from <= tail.len(),
    ensures
        lines_from(head + tail, head.len() + from) == lines_from(tail, from),
    decreases tail.len() - from,
{
    if from < tail.len() {
        let text = head + tail;
        lemma_line_end_after(head, tail, from);
        let end = line_end(tail, from);
        assert(text.subrange(head.len() + from, head.len() + end) =~= tail.subrange(from, end));
        if end < tail.len() {
            lemma_lines_from_after(head, tail, end + 1);
        } else {
            assert(text.subrange(head.len() + from, text.len() as int) =~= tail.subrange(
                from,
                tail.len() as int,
            ));
        }
    }
}

/// A text is split at its line feeds: what stands before the first line feed
/// is the first line, less the carriage return that may end it, and the lines
/// of what stands after it follow. A text without a line feed is one line,
/// and the empty text has none.
pub proof fn law_lines_split_at_line_feeds(first: Seq<char>, rest: Seq<char>)
    requires
        forall|k: int| 0 <= k < first.len() ==> first[k] != '\n',
    ensures
        lines_of(first + seq!['\n'] + rest) == seq![without_cr(first)] + lines_of(rest),
        first.len() > 0 ==> lines_of(first) == seq![first],
        lines_of(Seq::empty()) == Seq::<Seq<char>>::empty(),
{
    let head = first + seq!['\n'];
    let text = head + rest;
    let n = first.len() as int;
    lemma_line_end_run(text, 0, n);
    assert(text[n] == '\n');
    assert(text.subrange(0, n) =~= first);
    lemma_lines_from_after(head, rest, 0);
    if first.len() > 0 {
        lemma_line_end_run(first, 0, n);
        assert(first.subrange(0, n) =~= first);
    }
}

/// `line_end` passes over everything that is no line feed.
proof fn lemma_line_end_run(text: Seq<char>, from: int, to: int)
    requires
        0 <= from <= to <= text.len(),
        forall|k: int| from <= k < to ==> text[k] != '\n',
    ensures
        line_end(text, from) == line_end(text, to),
    decreases to - from,
{
    if from < to {
        lemma_line_end_run(text, from + 1, to);
    }
}

fn find_line_end(text: &Vec<char>, from: usize) -> (end: usize)
    requires
        from <= text.len(),
    ensures
        end == line_end(text@, from as int),
        from <= end <= text.len(),
{
    let mut i: usize = from;
    while i < text.len() && text[i] != '\n'
        invariant
            from <= i <= text.len(),
            line_end(text@, i as int) == line_end(text@, from as int),
        decreases text.len() - i,
    {
        i += 1;
    }
    i
}

/// Splits `text` into its lines.
pub fn split_lines(text: &Vec<char>) -> (lines: Vec<Vec<char>>)
    ensures
        lines.deep_view() == lines_of(text@),
{
    let mut lines: Vec<Vec<char>> = Vec::new();
    let mut from: usize = 0;
    while from < text.len()
        invariant
            from <= text.len(),
            lines.deep_view() + lines_from(text@, from as int) == lines_of(text@),
        decreases text.len() - from,
    {
        let end = find_line_end(text, from);
        let ghost before = lines.deep_view();
        if end < text.len() {
            let stop: usize = if end > from && text[end - 1] == '\r' {
                end - 1
            } else {
                end
            };
            let line = slice_of(text, from, stop);
            proof {
                let raw = text@.subrange(from as int, end as int);
                assert(line@ =~= without_cr(raw));
            }
            lines.push(line);
            proof {
                assert(lines@.last().deep_view() =~= line@);
                assert(lines.deep_view() =~= before.push(line@));
                assert(before.push(line@) + lines_from(text@, end + 1) =~= before + (seq![line@]
                    + lines_from(text@, end + 1)));
            }
            from = end + 1;
        } else {
            let line = slice_of(text, from, end);
            lines.push(line);
            proof {
                assert(lines@.last().deep_view() =~= line@);
                assert(lines.deep_view() =~= before.push(line@));
                assert(before.push(line@) + lines_from(text@, end as int) =~= before + seq![line@]);
            }
            from = end;
        }
    }
    proof {
        assert(lines.deep_view() + lines_from(text@, from as int) =~= lines.deep_view());
    }
    lines
}

} // verus!
