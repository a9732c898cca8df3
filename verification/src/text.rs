//! Character-level text helpers: conversions between strings and the
//! character vectors the parsers work on, and whitespace trimming.

use vstd::prelude::*;

verus! {

/// Whether `c` counts as whitespace: what `char::is_whitespace` answers for it.
pub uninterp spec fn white_space(c: char) -> bool;

/// `s` without its leading whitespace.
pub open spec fn trim_start(s: Seq<char>) -> Seq<char>
    decreases s.len(),
{
    if s.len() > 0 && white_space(s[0]) {
        trim_start(s.drop_first())
    } else {
        s
    }
}

/// `s` without its trailing whitespace.
pub open spec fn trim_end(s: Seq<char>) -> Seq<char>
    decreases s.len(),
{
    if s.len() > 0 && white_space(s.last()) {
        trim_end(s.drop_last())
    } else {
        s
    }
}

/// `s` without leading and trailing whitespace.
pub open spec fn trim(s: Seq<char>) -> Seq<char> {
    trim_end(trim_start(s))
}

/// Nothing is left to trim: `s` neither starts nor ends with whitespace.
pub open spec fn is_trimmed(s: Seq<char>) -> bool {
    s.len() > 0 ==> !white_space(s[0]) && !white_space(s.last())
}

/// Trimming yields a suffix of the input that does not start with whitespace.
pub proof fn lemma_trim_start(s: Seq<char>)
    ensures
        trim_start(s).len() <= s.len(),
        trim_start(s) == s.subrange(s.len() - trim_start(s).len(), s.len() as int),
        trim_start(s).len() > 0 ==> !white_space(trim_start(s)[0]),
    decreases s.len(),
{
    if s.len() > 0 && white_space(s[0]) {
        lemma_trim_start(s.drop_first());
        let t = trim_start(s);
        assert(t == s.subrange(s.len() - t.len(), s.len() as int));
    } else {
        assert(s == s.subrange(0, s.len() as int));
    }
}

/// Trimming yields a prefix of the input that does not end with whitespace.
pub proof fn lemma_trim_end(s: Seq<char>)
    ensures
        trim_end(s).len() <= s.len(),
        trim_end(s) == s.subrange(0, trim_end(s).len() as int),
        trim_end(s).len() > 0 ==> !white_space(trim_end(s).last()),
    decreases s.len(),
{
    if s.len() > 0 && white_space(s.last()) {
        lemma_trim_end(s.drop_last());
        let t = trim_end(s);
        assert(t == s.subrange(0, t.len() as int));
    } else {
        assert(s == s.subrange(0, s.len() as int));
    }
}

/// A trimmed text is trimmed, and trimming it again changes nothing.
pub proof fn lemma_trim_is_trimmed(s: Seq<char>)
    ensures
        is_trimmed(trim(s)),
        trim(trim(s)) == trim(s),
{
    lemma_trim_start(s);
    lemma_trim_end(trim_start(s));
    let t = trim(s);
    if t.len() > 0 {
        assert(t[0] == trim_start(s)[0]);
    }
    lemma_trimmed_is_fixed(t);
}

/// Trimming leaves a text that neither starts nor ends with whitespace as it is.
pub proof fn lemma_trimmed_is_fixed(s: Seq<char>)
    requires
        is_trimmed(s),
    ensures
        trim(s) == s,
{
}

/// Whatever trimming keeps was in the input: a character that `s` lacks,
/// `trim(s)` lacks too.
pub proof fn lemma_trim_keeps_absence(s: Seq<char>, c: char)
    requires
        !s.contains(c),
    ensures
        !trim(s).contains(c),
{
    lemma_trim_start(s);
    lemma_trim_end(trim_start(s));
    let t = trim(s);
    let lead = s.len() - trim_start(s).len();
    if t.contains(c) {
        let i = choose|i: int| 0 <= i < t.len() && t[i] == c;
        assert(s[lead + i] == c);
    }
}

/// How many characters of `s` come before its first `stop`; the length of
/// `s` where `stop` does not occur in it.
pub open spec fn len_until(s: Seq<char>, stop: char) -> nat
    decreases s.len(),
{
    if s.len() == 0 || s[0] == stop {
        0
    } else {
        1 + len_until(s.drop_first(), stop)
    }
}

/// `len_until` marks the first occurrence of `stop`: none comes before it,
/// and it stands at that place unless `s` has run out.
pub proof fn lemma_len_until(s: Seq<char>, stop: char)
    ensures
        len_until(s, stop) <= s.len(),
        forall|i: int| 0 <= i < len_until(s, stop) ==> s[i] != stop,
        len_until(s, stop) < s.len() ==> s[len_until(s, stop) as int] == stop,
    decreases s.len(),
{
    if s.len() > 0 && s[0] != stop {
        let rest = s.drop_first();
        lemma_len_until(rest, stop);
        assert forall|i: int| 0 <= i < len_until(s, stop) implies s[i] != stop by {
            if i > 0 {
                assert(rest[i - 1] == s[i]);
            }
        }
    }
}

/// A place `n` with no `stop` before it and `stop` at it (or the end of `s`)
/// is what `len_until` gives.
pub proof fn lemma_len_until_is(s: Seq<char>, stop: char, n: int)
    requires
        0 <= n <= s.len(),
        forall|i: int| 0 <= i < n ==> s[i] != stop,
        n < s.len() ==> s[n] == stop,
    ensures
        len_until(s, stop) == n,
{
    lemma_len_until(s, stop);
}

/// `char::is_whitespace`: says whether `c` has the Unicode property
/// White_Space. The contract only names that answer.
#[verifier::external_body]
fn is_whitespace(c: char) -> (r: bool)
    ensures
        r == white_space(c),
{
    c.is_whitespace()
}

/// `String::from_iter` over characters: the string made of `chars`, in order.
#[verifier::external_body]
pub(crate) fn string_of(chars: &Vec<char>) -> (s: String)
    ensures
        s@ == chars@,
{
    String::from_iter(chars.iter())
}

/// The characters of `s`, in order.
pub fn chars_of(s: &str) -> (chars: Vec<char>)
    ensures
        chars@ == s@,
{
    let mut chars: Vec<char> = Vec::new();
    for c in it: s.chars()
        invariant
            it.seq() == s@,
            chars@ == s@.take(it.index()),
    {
        chars.push(c);
    }
    chars
}

/// Appends the characters of `s` to `out`.
pub fn push_str(out: &mut Vec<char>, s: &str)
    ensures
        final(out)@ == old(out)@ + s@,
{
    for c in it: s.chars()
        invariant
            it.seq() == s@,
            out@ == old(out)@ + s@.take(it.index()),
    {
        out.push(c);
    }
}

/// Appends `s[from..to]` to `out`.
pub fn push_range(out: &mut Vec<char>, s: &Vec<char>, from: usize, to: usize)
    requires
        from <= to <= s@.len(),
    ensures
        final(out)@ == old(out)@ + s@.subrange(from as int, to as int),
{
    let mut i: usize = from;
    while i < to
        invariant
            from <= i <= to <= s@.len(),
            out@ == old(out)@ + s@.subrange(from as int, i as int),
        decreases to - i,
    {
        out.push(s[i]);
        i = i + 1;
    }
}

/// A copy of `s[from..to]`.
pub fn copy_range(s: &Vec<char>, from: usize, to: usize) -> (part: Vec<char>)
    requires
        from <= to <= s@.len(),
    ensures
        part@ == s@.subrange(from as int, to as int),
{
    let mut part: Vec<char> = Vec::new();
    push_range(&mut part, s, from, to);
    part
}

/// The bounds of `s[from..to]` once trimmed: the result `(a, b)` delimits
/// `trim(s[from..to])` within `s`.
pub fn trim_range(s: &Vec<char>, from: usize, to: usize) -> (bounds: (usize, usize))
    requires
        from <= to <= s@.len(),
    ensures
        from <= bounds.0 <= bounds.1 <= to,
        s@.subrange(bounds.0 as int, bounds.1 as int) == trim(
            s@.subrange(from as int, to as int),
        ),
{
    let mut a: usize = from;
    while a < to && is_whitespace(s[a])
        invariant
            from <= a <= to <= s@.len(),
            trim_start(s@.subrange(from as int, to as int)) == trim_start(
                s@.subrange(a as int, to as int),
            ),
        decreases to - a,
    {
        assert(s@.subrange(a as int, to as int).drop_first() == s@.subrange(a + 1, to as int));
        a = a + 1;
    }
    let mut b: usize = to;
    while a < b && is_whitespace(s[b - 1])
        invariant
            a <= b <= to <= s@.len(),
            trim_end(s@.subrange(a as int, to as int)) == trim_end(
                s@.subrange(a as int, b as int),
            ),
        decreases b - a,
    {
        assert(s@.subrange(a as int, b as int).drop_last() == s@.subrange(a as int, b - 1));
        b = b - 1;
    }
    (a, b)
}

/// The first place in `s[from..to]` that holds `stop`, or `to` where none does.
pub fn find_stop(s: &Vec<char>, from: usize, to: usize, stop: char) -> (at: usize)
    requires
        from <= to <= s@.len(),
    ensures
        from <= at <= to,
        at - from == len_until(s@.subrange(from as int, to as int), stop),
{
    let mut at: usize = from;
    while at < to && s[at] != stop
        invariant
            from <= at <= to <= s@.len(),
            forall|i: int| from <= i < at ==> s@[i] != stop,
        decreases to - at,
    {
        at = at + 1;
    }
    proof {
        lemma_len_until_is(s@.subrange(from as int, to as int), stop, at - from);
    }
    at
}

/// Whether `s` begins with `prefix`.
pub fn has_prefix(s: &Vec<char>, prefix: &Vec<char>) -> (r: bool)
    ensures
        r == prefix@.is_prefix_of(s@),
{
    if prefix.len() > s.len() {
        return false;
    }
    let mut i: usize = 0;
    while i < prefix.len()
        invariant
            i <= prefix@.len() <= s@.len(),
            forall|j: int| 0 <= j < i ==> s@[j] == prefix@[j],
        decreases prefix@.len() - i,
    {
        if s[i] != prefix[i] {
            return false;
        }
        i = i + 1;
    }
    assert(s@.subrange(0, prefix@.len() as int) == prefix@);
    true
}

/// Whether `a` and `b` hold the same characters.
pub fn same_chars(a: &Vec<char>, b: &Vec<char>) -> (r: bool)
    ensures
        r == (a@ == b@),
{
    if a.len() != b.len() {
        return false;
    }
    let r = has_prefix(a, b);
    assert(a@.subrange(0, b@.len() as int) == a@);
    r
}

} // verus!
