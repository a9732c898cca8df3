//! Splitting a text into lines.
//!
//! A line ends at a line feed. A carriage return directly before that line
//! feed belongs to the line ending; any other carriage return is kept. A
//! final line needs no line feed, and a text that ends with one has no empty
//! line after it.

use vstd::prelude::*;
use crate::text::{copy_range, find_stop, len_until, lemma_len_until, lemma_len_until_is};

verus! {

/// `line` without a carriage return at its end.
pub open spec fn strip_cr(line: Seq<char>) -> Seq<char> {
    if line.len() > 0 && line.last() == '\r' {
        line.drop_last()
    } else {
        line
    }
}

/// The lines of `s`, in order.
pub open spec fn lines_of(s: Seq<char>) -> Seq<Seq<char>>
    decreases s.len(),
{
    let n = len_until(s, '\n');
    if s.len() == 0 {
        Seq::empty()
    } else if n < s.len() {
        seq![strip_cr(s.take(n as int))] + lines_of(s.skip(n as int + 1))
    } else {
        seq![s]
    }
}

/// The contents of a vector of lines.
pub open spec fn line_views(lines: Seq<Vec<char>>) -> Seq<Seq<char>> {
    lines.map_values(|line: Vec<char>| line@)
}

/// No line holds a line feed.
pub proof fn lemma_lines_hold_no_line_feed(s: Seq<char>)
    ensures
        forall|k: int| 0 <= k < lines_of(s).len() ==> !(#[trigger] lines_of(s)[k]).contains('\n'),
    decreases s.len(),
{
    let n = len_until(s, '\n');
    lemma_len_until(s, '\n');
    if s.len() == 0 {
    } else if n < s.len() {
        let rest = s.skip(n as int + 1);
        lemma_lines_hold_no_line_feed(rest);
        let head = strip_cr(s.take(n as int));
        assert(!head.contains('\n')) by {
            if head.contains('\n') {
                let i = choose|i: int| 0 <= i < head.len() && head[i] == '\n';
                assert(s[i] == '\n');
            }
        }
        assert forall|k: int| 0 <= k < lines_of(s).len() implies !(#[trigger] lines_of(s)[k]).contains(
            '\n',
        ) by {
            if k > 0 {
                assert(lines_of(s)[k] == lines_of(rest)[k - 1]);
            }
        }
    } else {
        assert(!s.contains('\n'));
    }
}

/// A first line that is closed by a line feed is followed by the lines of
/// what comes after that line feed.
pub proof fn lemma_lines_of_joined(first: Seq<char>, rest: Seq<char>)
    requires
        !first.contains('\n'),
    ensures
        lines_of(first + seq!['\n'] + rest) == seq![strip_cr(first)] + lines_of(rest),
{
    let s = first + seq!['\n'] + rest;
    assert forall|i: int| 0 <= i < first.len() implies s[i] != '\n' by {
        assert(first[i] == s[i]);
        assert(first.contains(first[i]));
    }
    lemma_len_until_is(s, '\n', first.len() as int);
    assert(s.take(first.len() as int) == first);
    assert(s.skip(first.len() as int + 1) == rest);
}

/// The lines of `content`.
pub fn split_lines(content: &Vec<char>) -> (lines: Vec<Vec<char>>)
    ensures
        line_views(lines@) == lines_of(content@),
{
    let n: usize = content.len();
    let mut lines: Vec<Vec<char>> = Vec::new();
    let mut pos: usize = 0;
    assert(content@.skip(0) == content@);
    assert(line_views(lines@) + lines_of(content@) == lines_of(content@));
    while pos < n
        invariant
            n == content@.len(),
            pos <= n,
            lines_of(content@) == line_views(lines@) + lines_of(content@.skip(pos as int)),
        decreases n - pos,
    {
        let ghost tail = content@.skip(pos as int);
        let ghost before = line_views(lines@);
        let end = find_stop(content, pos, n, '\n');
        assert(content@.subrange(pos as int, n as int) == tail);
        if end < n {
            let stop = if end > pos && content[end - 1] == '\r' {
                end - 1
            } else {
                end
            };
            let line = copy_range(content, pos, stop);
            assert(tail.take(end - pos) == content@.subrange(pos as int, end as int));
            assert(line@ == strip_cr(tail.take(end - pos)));
            assert(tail.skip(end - pos + 1) == content@.skip(end + 1));
            lines.push(line);
            assert(line_views(lines@) == before.push(line@));
            pos = end + 1;
        } else {
            let line = copy_range(content, pos, n);
            lines.push(line);
            assert(line_views(lines@) == before.push(line@));
            pos = n;
            assert(lines_of(content@.skip(n as int)) == Seq::<Seq<char>>::empty());
        }
    }
    assert(lines_of(content@.skip(n as int)) == Seq::<Seq<char>>::empty());
    lines
}

} // verus!
