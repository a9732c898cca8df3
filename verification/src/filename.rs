//! File names: stem, extension, and ASCII lower-casing.

use vstd::prelude::*;
use crate::text::{chars_of, same_chars};

verus! {

/// The position of the last `.` in `name`, or `-1` where it has none.
pub open spec fn last_dot(name: Seq<char>) -> int
    decreases name.len(),
{
    if name.len() == 0 {
        -1
    } else if name.last() == '.' {
        name.len() - 1
    } else {
        last_dot(name.drop_last())
    }
}

/// Whether `name` splits at its last dot into a stem and an extension. It
/// does not when it has no dot, when its only dot leads it (a hidden file),
/// or when it is the parent entry `..`.
pub open spec fn splits(name: Seq<char>) -> bool {
    last_dot(name) > 0 && name != seq!['.', '.']
}

/// What follows the last dot of `name`, if it splits.
pub open spec fn extension(name: Seq<char>) -> Option<Seq<char>> {
    if splits(name) {
        Some(name.skip(last_dot(name) + 1))
    } else {
        None
    }
}

/// What precedes the last dot of `name`; all of `name` if it does not split.
pub open spec fn stem(name: Seq<char>) -> Seq<char> {
    if splits(name) {
        name.take(last_dot(name))
    } else {
        name
    }
}

/// `c` with an ASCII capital letter replaced by its small letter.
pub open spec fn lower_char(c: char) -> char {
    if 'A' <= c && c <= 'Z' {
        ((c as u8) + 32) as u8 as char
    } else {
        c
    }
}

/// `s` with every ASCII capital letter replaced by its small letter.
pub open spec fn lower(s: Seq<char>) -> Seq<char> {
    s.map_values(|c: char| lower_char(c))
}

/// The last dot is a dot, and no dot follows it.
pub proof fn lemma_last_dot(name: Seq<char>)
    ensures
        -1 <= last_dot(name) < name.len(),
        last_dot(name) >= 0 ==> name[last_dot(name)] == '.',
        forall|i: int| last_dot(name) < i < name.len() ==> name[i] != '.',
    decreases name.len(),
{
    if name.len() > 0 && name.last() != '.' {
        let front = name.drop_last();
        lemma_last_dot(front);
        assert forall|i: int| last_dot(name) < i < name.len() implies name[i] != '.' by {
            if i < front.len() {
                assert(front[i] == name[i]);
            }
        }
    }
}

/// A position `d` that holds a dot with none after it is the last dot.
pub proof fn lemma_last_dot_is(name: Seq<char>, d: int)
    requires
        -1 <= d < name.len(),
        d >= 0 ==> name[d] == '.',
        forall|i: int| d < i < name.len() ==> name[i] != '.',
    ensures
        last_dot(name) == d,
{
    lemma_last_dot(name);
}

/// The ASCII small letter of `c`.
pub fn to_lower(c: char) -> (r: char)
    ensures
        r == lower_char(c),
{
    if 'A' <= c && c <= 'Z' {
        ((c as u8) + 32) as char
    } else {
        c
    }
}

/// Where `name` splits: the index of its last dot, or `None` if it does not
/// split.
pub fn split_point(name: &Vec<char>) -> (at: Option<usize>)
    ensures
        at is Some <==> splits(name@),
        at is Some ==> at->0 == last_dot(name@) && at->0 < name@.len(),
{
    let mut i: usize = name.len();
    while i > 0 && name[i - 1] != '.'
        invariant
            i <= name@.len(),
            forall|j: int| i <= j < name@.len() ==> name@[j] != '.',
        decreases i,
    {
        i = i - 1;
    }
    proof {
        lemma_last_dot_is(name@, i - 1);
    }
    if i <= 1 {
        return None;
    }
    if name.len() == 2 && name[0] == '.' {
        assert(name@ =~= seq!['.', '.']);
        return None;
    }
    assert(name@ != seq!['.', '.']) by {
        if name@.len() == 2 {
            assert(seq!['.', '.'][0] == '.');
        }
    }
    Some(i - 1)
}

/// Whether the extension of `name`, lower-cased, is `wanted`.
pub fn extension_is(name: &Vec<char>, wanted: &str) -> (r: bool)
    ensures
        r == (extension(name@) is Some && lower(extension(name@)->0) == wanted@),
{
    let n: usize = name.len();
    match split_point(name) {
        None => false,
        Some(d) => {
            let mut ext: Vec<char> = Vec::new();
            let mut i: usize = d + 1;
            while i < n
                invariant
                    n == name@.len(),
                    d < i <= n,
                    ext@ == lower(name@.subrange(d + 1, i as int)),
                decreases name@.len() - i,
            {
                ext.push(to_lower(name[i]));
                i = i + 1;
            }
            assert(name@.subrange(d + 1, name@.len() as int) == name@.skip(d + 1));
            let wanted_chars = chars_of(wanted);
            same_chars(&ext, &wanted_chars)
        },
    }
}

} // verus!
