//! Furigana: a run of Han characters with its reading in parentheses behind
//! it becomes ruby markup.
//!
//! A text is read from left to right. A run of Han characters is taken as
//! long as it goes. Where `(` follows it directly and a `)` follows later,
//! with no line feed between the two, the run is the base and what stands
//! between the parentheses is its reading: both are rewritten as
//! `<ruby>base<rt>reading</rt></ruby>`, and reading goes on behind the `)`.
//! Everything else is copied as it is; nothing is escaped.

use vstd::prelude::*;
use crate::classes::{is_han, is_han_char};
use crate::text::{push_range, push_str};

verus! {

/// Where the run of Han characters that starts at `from` ends: the first
/// place from `from` on that holds none.
pub open spec fn han_end(s: Seq<char>, from: int) -> int
    decreases s.len() - from,
{
    if 0 <= from < s.len() && is_han(s[from]) {
        han_end(s, from + 1)
    } else {
        from
    }
}

/// The place of the `)` that closes a reading which starts at `from`: the
/// first `)` from `from` on, unless a line feed or the end of `s` comes
/// first.
pub open spec fn reading_end(s: Seq<char>, from: int) -> Option<int>
    decreases s.len() - from,
{
    if from < 0 || from >= s.len() || s[from] == '\n' {
        None
    } else if s[from] == ')' {
        Some(from)
    } else {
        reading_end(s, from + 1)
    }
}

/// The markup for `base` with `reading` above it.
pub open spec fn annotated(base: Seq<char>, reading: Seq<char>) -> Seq<char> {
    "<ruby>"@ + base + "<rt>"@ + reading + "</rt></ruby>"@
}

/// Whether the run of Han characters from `from` to `run_end` has a reading
/// behind it.
pub open spec fn has_reading(s: Seq<char>, run_end: int) -> bool {
    0 <= run_end < s.len() && s[run_end] == '(' && reading_end(s, run_end + 1) is Some
}

/// `s` from place `from` on, with furigana rewritten as ruby markup.
pub open spec fn ruby_from(s: Seq<char>, from: int) -> Seq<char>
    decreases s.len() - from,
{
    if from < 0 || from >= s.len() {
        Seq::empty()
    } else if is_han(s[from]) {
        let run_end = han_end(s, from);
        proof {
            lemma_han_end(s, from);
            lemma_reading_end(s, run_end + 1);
        }
        if has_reading(s, run_end) {
            let close = reading_end(s, run_end + 1)->0;
            annotated(s.subrange(from, run_end), s.subrange(run_end + 1, close)) + ruby_from(
                s,
                close + 1,
            )
        } else {
            s.subrange(from, run_end) + ruby_from(s, run_end)
        }
    } else {
        seq![s[from]] + ruby_from(s, from + 1)
    }
}

/// `s` with furigana rewritten as ruby markup.
pub open spec fn ruby(s: Seq<char>) -> Seq<char> {
    ruby_from(s, 0)
}

/// A run of Han characters holds Han characters only, ends within `s`, and
/// ends before a character that is none. It is not empty where it starts
/// with one.
pub proof fn lemma_han_end(s: Seq<char>, from: int)
    requires
        0 <= from <= s.len(),
    ensures
        from <= han_end(s, from) <= s.len(),
        from < s.len() && is_han(s[from]) ==> from < han_end(s, from),
        forall|i: int| from <= i < han_end(s, from) ==> is_han(#[trigger] s[i]),
        han_end(s, from) < s.len() ==> !is_han(s[han_end(s, from)]),
    decreases s.len() - from,
{
    if from < s.len() && is_han(s[from]) {
        lemma_han_end(s, from + 1);
    }
}

/// The run of Han characters from `from` ends at `to` where Han characters
/// fill the places between and none stands at `to`.
pub proof fn lemma_han_end_is(s: Seq<char>, from: int, to: int)
    requires
        0 <= from <= to <= s.len(),
        forall|i: int| from <= i < to ==> is_han(#[trigger] s[i]),
        to < s.len() ==> !is_han(s[to]),
    ensures
        han_end(s, from) == to,
    decreases to - from,
{
    if from < to {
        lemma_han_end_is(s, from + 1, to);
    }
}

/// The `)` that closes a reading stands at or behind the reading's start,
/// and neither `)` nor a line feed stands between.
pub proof fn lemma_reading_end(s: Seq<char>, from: int)
    ensures
        match reading_end(s, from) {
            Some(close) => {
                &&& 0 <= from <= close < s.len()
                &&& s[close] == ')'
                &&& forall|i: int| from <= i < close ==> s[i] != ')' && s[i] != '\n'
            },
            None => true,
        },
    decreases s.len() - from,
{
    if 0 <= from < s.len() && s[from] != '\n' && s[from] != ')' {
        lemma_reading_end(s, from + 1);
    }
}

/// A reading that starts at `from` ends at `close` where `)` stands there
/// and neither `)` nor a line feed stands between.
pub proof fn lemma_reading_end_is(s: Seq<char>, from: int, close: int)
    requires
        0 <= from <= close < s.len(),
        s[close] == ')',
        forall|i: int| from <= i < close ==> s[i] != ')' && s[i] != '\n',
    ensures
        reading_end(s, from) == Some(close),
    decreases close - from,
{
    if from < close {
        lemma_reading_end_is(s, from + 1, close);
    }
}

/// What stands before a place does not change how the text reads from that
/// place on: behind any text `before`, the run of Han characters of `s` from
/// `from` ends where it ends in `s` alone.
pub proof fn lemma_han_end_behind(before: Seq<char>, s: Seq<char>, from: int)
    requires
        0 <= from <= s.len(),
    ensures
        han_end(before + s, before.len() + from) == before.len() + han_end(s, from),
    decreases s.len() - from,
{
    if from < s.len() {
        assert((before + s)[before.len() + from] == s[from]);
        if is_han(s[from]) {
            lemma_han_end_behind(before, s, from + 1);
        }
    }
}

/// Behind any text `before`, a reading of `s` from `from` closes where it
/// closes in `s` alone.
pub proof fn lemma_reading_end_behind(before: Seq<char>, s: Seq<char>, from: int)
    requires
        0 <= from <= s.len(),
    ensures
        reading_end(before + s, before.len() + from) == match reading_end(s, from) {
            Some(close) => Some(before.len() + close),
            None => None,
        },
    decreases s.len() - from,
{
    if from < s.len() {
        assert((before + s)[before.len() + from] == s[from]);
        if s[from] != '\n' && s[from] != ')' {
            lemma_reading_end_behind(before, s, from + 1);
        }
    }
}

/// Behind any text `before`, `s` is rewritten from `from` on as it is in `s`
/// alone.
pub proof fn lemma_ruby_behind(before: Seq<char>, s: Seq<char>, from: int)
    requires
        0 <= from <= s.len(),
    ensures
        ruby_from(before + s, before.len() + from) == ruby_from(s, from),
    decreases s.len() - from,
{
    let whole = before + s;
    let shift = before.len() as int;
    if from < s.len() {
        assert(whole[shift + from] == s[from]);
        if is_han(s[from]) {
            let run_end = han_end(s, from);
            lemma_han_end(s, from);
            lemma_han_end_behind(before, s, from);
            lemma_reading_end(s, run_end + 1);
            if run_end < s.len() {
                assert(whole[shift + run_end] == s[run_end]);
                lemma_reading_end_behind(before, s, run_end + 1);
            }
            assert(whole.subrange(shift + from, shift + run_end) == s.subrange(from, run_end));
            if has_reading(s, run_end) {
                let close = reading_end(s, run_end + 1)->0;
                assert(whole.subrange(shift + run_end + 1, shift + close) == s.subrange(
                    run_end + 1,
                    close,
                ));
                lemma_ruby_behind(before, s, close + 1);
            } else {
                lemma_ruby_behind(before, s, run_end);
            }
        } else {
            lemma_ruby_behind(before, s, from + 1);
        }
    }
}

/// A text without Han characters is copied, and what follows it is rewritten
/// as if it stood alone.
pub proof fn lemma_plain_text_then(plain: Seq<char>, rest: Seq<char>)
    requires
        forall|i: int| 0 <= i < plain.len() ==> !is_han(#[trigger] plain[i]),
    ensures
        ruby(plain + rest) == plain + ruby(rest),
{
    lemma_plain_from(plain, rest, 0);
    assert(plain.skip(0) == plain);
}

proof fn lemma_plain_from(plain: Seq<char>, rest: Seq<char>, from: int)
    requires
        0 <= from <= plain.len(),
        forall|i: int| 0 <= i < plain.len() ==> !is_han(#[trigger] plain[i]),
    ensures
        ruby_from(plain + rest, from) == plain.skip(from) + ruby(rest),
    decreases plain.len() - from,
{
    let whole = plain + rest;
    if from < plain.len() {
        assert(whole[from] == plain[from]);
        lemma_plain_from(plain, rest, from + 1);
        assert(seq![plain[from]] + (plain.skip(from + 1) + ruby(rest)) == plain.skip(from) + ruby(
            rest,
        ));
    } else {
        lemma_ruby_behind(plain, rest, 0);
        assert(plain.skip(from) + ruby(rest) == ruby(rest));
    }
}

/// A run of Han characters with its reading in parentheses behind it becomes
/// the markup of that run under that reading, and what follows the closing
/// parenthesis is rewritten as if it stood alone.
pub proof fn lemma_run_with_reading_then(base: Seq<char>, reading: Seq<char>, rest: Seq<char>)
    requires
        base.len() > 0,
        forall|i: int| 0 <= i < base.len() ==> is_han(#[trigger] base[i]),
        !reading.contains(')'),
        !reading.contains('\n'),
    ensures
        ruby(base + seq!['('] + reading + seq![')'] + rest) == annotated(base, reading) + ruby(rest),
{
    let head = base + seq!['('] + reading + seq![')'];
    let s = head + rest;
    let run_end = base.len() as int;
    let close = run_end + 1 + reading.len();
    assert(s[0] == base[0]);
    assert forall|i: int| 0 <= i < run_end implies is_han(#[trigger] s[i]) by {
        assert(s[i] == base[i]);
    }
    assert(s[run_end] == '(');
    lemma_han_end_is(s, 0, run_end);
    assert forall|i: int| run_end + 1 <= i < close implies s[i] != ')' && s[i] != '\n' by {
        assert(s[i] == reading[i - run_end - 1]);
        assert(reading.contains(reading[i - run_end - 1]));
    }
    assert(s[close] == ')');
    lemma_reading_end_is(s, run_end + 1, close);
    assert(s.subrange(0, run_end) == base);
    assert(s.subrange(run_end + 1, close) == reading);
    lemma_ruby_behind(head, rest, 0);
}

/// A run of Han characters with its reading in parentheses behind it, and
/// nothing else, becomes the markup of that run under that reading.
pub proof fn lemma_run_with_reading(base: Seq<char>, reading: Seq<char>)
    requires
        base.len() > 0,
        forall|i: int| 0 <= i < base.len() ==> is_han(#[trigger] base[i]),
        !reading.contains(')'),
        !reading.contains('\n'),
    ensures
        ruby(base + seq!['('] + reading + seq![')']) == annotated(base, reading),
{
    let none = Seq::<char>::empty();
    lemma_run_with_reading_then(base, reading, none);
    assert(base + seq!['('] + reading + seq![')'] + none == base + seq!['('] + reading + seq![')']);
    assert(annotated(base, reading) + ruby(none) == annotated(base, reading));
}

/// A text in which no `(` stands directly behind a Han character is left as
/// it is.
pub proof fn lemma_no_reading_no_change(s: Seq<char>)
    requires
        forall|i: int| 0 < i < s.len() && s[i] == '(' ==> !is_han(#[trigger] s[i - 1]),
    ensures
        ruby(s) == s,
{
    lemma_untouched_from(s, 0);
    assert(s.skip(0) == s);
}

proof fn lemma_untouched_from(s: Seq<char>, from: int)
    requires
        0 <= from <= s.len(),
        forall|i: int| 0 < i < s.len() && s[i] == '(' ==> !is_han(#[trigger] s[i - 1]),
    ensures
        ruby_from(s, from) == s.skip(from),
    decreases s.len() - from,
{
    if from >= s.len() {
        assert(s.skip(from) == Seq::<char>::empty());
    } else if is_han(s[from]) {
        let run_end = han_end(s, from);
        lemma_han_end(s, from);
        assert(is_han(s[run_end - 1]));
        assert(!has_reading(s, run_end));
        lemma_untouched_from(s, run_end);
        assert(s.subrange(from, run_end) + s.skip(run_end) == s.skip(from));
    } else {
        lemma_untouched_from(s, from + 1);
        assert(seq![s[from]] + s.skip(from + 1) == s.skip(from));
    }
}

/// Where the run of Han characters of `text` that starts at `from` ends.
pub fn scan_han(text: &Vec<char>, from: usize) -> (end: usize)
    requires
        from <= text@.len(),
    ensures
        from <= end <= text@.len(),
        end == han_end(text@, from as int),
{
    let mut end: usize = from;
    while end < text.len() && is_han_char(text[end])
        invariant
            from <= end <= text@.len(),
            forall|i: int| from <= i < end ==> is_han(#[trigger] text@[i]),
        decreases text@.len() - end,
    {
        end = end + 1;
    }
    proof {
        lemma_han_end_is(text@, from as int, end as int);
    }
    end
}

/// The place of the `)` that closes a reading which starts at `from`.
pub fn find_reading_end(text: &Vec<char>, from: usize) -> (close: Option<usize>)
    requires
        from <= text@.len(),
    ensures
        match close {
            Some(at) => reading_end(text@, from as int) == Some(at as int),
            None => reading_end(text@, from as int) is None,
        },
{
    let mut at: usize = from;
    while at < text.len()
        invariant
            from <= at <= text@.len(),
            reading_end(text@, from as int) == reading_end(text@, at as int),
        decreases text@.len() - at,
    {
        let c = text[at];
        if c == ')' {
            return Some(at);
        }
        if c == '\n' {
            return None;
        }
        at = at + 1;
    }
    None
}

/// `text` with furigana rewritten as ruby markup.
pub fn annotate(text: &Vec<char>) -> (marked: Vec<char>)
    ensures
        marked@ == ruby(text@),
{
    let n: usize = text.len();
    let mut marked: Vec<char> = Vec::new();
    let mut at: usize = 0;
    assert(marked@ + ruby_from(text@, 0) == ruby(text@));
    while at < n
        invariant
            n == text@.len(),
            at <= n,
            ruby(text@) == marked@ + ruby_from(text@, at as int),
        decreases n - at,
    {
        let ghost before = marked@;
        let ghost tail = ruby_from(text@, at as int);
        if is_han_char(text[at]) {
            let run_end = scan_han(text, at);
            proof {
                lemma_han_end(text@, at as int);
                lemma_reading_end(text@, run_end + 1);
            }
            let close = if run_end < n && text[run_end] == '(' {
                find_reading_end(text, run_end + 1)
            } else {
                None
            };
            match close {
                Some(close) => {
                    push_str(&mut marked, "<ruby>");
                    push_range(&mut marked, text, at, run_end);
                    push_str(&mut marked, "<rt>");
                    push_range(&mut marked, text, run_end + 1, close);
                    push_str(&mut marked, "</rt></ruby>");
                    let ghost added = annotated(
                        text@.subrange(at as int, run_end as int),
                        text@.subrange(run_end + 1, close as int),
                    );
                    assert(marked@ == before + added);
                    assert(tail == added + ruby_from(text@, close + 1));
                    assert(before + tail == (before + added) + ruby_from(text@, close + 1));
                    at = close + 1;
                },
                None => {
                    push_range(&mut marked, text, at, run_end);
                    let ghost added = text@.subrange(at as int, run_end as int);
                    assert(!has_reading(text@, run_end as int));
                    assert(tail == added + ruby_from(text@, run_end as int));
                    assert(before + tail == (before + added) + ruby_from(text@, run_end as int));
                    at = run_end;
                },
            }
        } else {
            marked.push(text[at]);
            let ghost added = seq![text@[at as int]];
            assert(marked@ == before + added);
            assert(tail == added + ruby_from(text@, at + 1));
            assert(before + tail == (before + added) + ruby_from(text@, at + 1));
            at = at + 1;
        }
    }
    assert(marked@ + Seq::<char>::empty() == marked@);
    marked
}

} // verus!
