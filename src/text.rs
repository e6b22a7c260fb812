//! Character-level helpers on strings.

use vstd::prelude::*;

verus! {

/// The first index at or after `from` where `s` holds `c`, or `s.len()`.
pub open spec fn index_of_from(s: Seq<char>, c: char, from: int) -> int
    decreases s.len() - from,
{
    if from >= s.len() {
        s.len() as int
    } else if s[from] == c {
        from
    } else {
        index_of_from(s, c, from + 1)
    }
}

pub open spec fn index_of(s: Seq<char>, c: char) -> int {
    index_of_from(s, c, 0)
}

pub proof fn lemma_index_of_from_bounds(s: Seq<char>, c: char, from: int)
    requires
        0 <= from <= s.len(),
    ensures
        from <= index_of_from(s, c, from) <= s.len(),
        index_of_from(s, c, from) < s.len() ==> s[index_of_from(s, c, from)] == c,
        forall|j: int| from <= j < index_of_from(s, c, from) ==> s[j] != c,
    decreases s.len() - from,
{
    if from < s.len() && s[from] != c {
        lemma_index_of_from_bounds(s, c, from + 1);
    }
}

/// Finds `c` in `s` from position `from` on.
pub fn find_char(s: &str, len: usize, c: char, from: usize) -> (r: usize)
    requires
        len == s@.len(),
        from <= len,
    ensures
        r == index_of_from(s@, c, from as int),
{
    let mut i = from;
    while i < len
        invariant
            len == s@.len(),
            from <= i <= len,
            index_of_from(s@, c, from as int) == index_of_from(s@, c, i as int),
        decreases len - i,
    {
        if s.get_char(i) == c {
            return i;
        }
        i = i + 1;
    }
    i
}

/// Relies on `String::push`: appends one character.
#[verifier::external_body]
pub(crate) fn push_char(s: &mut String, c: char)
    ensures
        final(s)@ == old(s)@.push(c),
{
    s.push(c)
}

/// The pieces of `s[start..]` between occurrences of `c`, scanning from `i`;
/// like `str::split`, an empty string gives one empty piece.
pub open spec fn split_from(s: Seq<char>, c: char, start: int, i: int) -> Seq<Seq<char>>
    decreases s.len() - i,
{
    if i >= s.len() {
        seq![s.subrange(start, s.len() as int)]
    } else if s[i] == c {
        seq![s.subrange(start, i)] + split_from(s, c, i + 1, i + 1)
    } else {
        split_from(s, c, start, i + 1)
    }
}

pub open spec fn split_on(s: Seq<char>, c: char) -> Seq<Seq<char>> {
    split_from(s, c, 0, 0)
}

pub open spec fn strings_view(v: Seq<String>) -> Seq<Seq<char>> {
    v.map_values(|x: String| x@)
}

/// Splits `s` at every `c`, as `str::split` does.
pub fn split_char(s: &str, c: char) -> (r: Vec<String>)
    ensures
        strings_view(r@) == split_on(s@, c),
{
    let len = s.unicode_len();
    let mut out: Vec<String> = Vec::new();
    let mut start: usize = 0;
    let mut i: usize = 0;
    while i < len
        invariant
            len == s@.len(),
            start <= i <= len,
            split_on(s@, c) == strings_view(out@) + split_from(s@, c, start as int, i as int),
        decreases len - i,
    {
        if s.get_char(i) == c {
            let piece = String::from_str(s.substring_char(start, i));
            let ghost before = strings_view(out@);
            out.push(piece);
            proof {
                assert(strings_view(out@) =~= before.push(piece@));
                assert(before + split_from(s@, c, start as int, i as int) =~= before.push(piece@) + split_from(s@, c, i + 1, i + 1));
            }
            start = i + 1;
        }
        i = i + 1;
    }
    let piece = String::from_str(s.substring_char(start, len));
    let ghost before = strings_view(out@);
    out.push(piece);
    assert(strings_view(out@) =~= before.push(piece@));
    assert(split_on(s@, c) =~= strings_view(out@));
    out
}

/// `a`, then `sep`, then `b`.
pub fn join_pair(a: &str, sep: &str, b: &str) -> (r: String)
    ensures
        r@ == a@ + sep@ + b@,
{
    let mut out = String::from_str(a);
    out.append(sep);
    out.append(b);
    out
}

/// A copy of the strings, in the same order.
pub fn copy_strings(v: &Vec<String>) -> (r: Vec<String>)
    ensures
        strings_view(r@) == strings_view(v@),
{
    let mut out: Vec<String> = Vec::new();
    let mut i: usize = 0;
    while i < v.len()
        invariant
            i <= v@.len(),
            strings_view(out@) == strings_view(v@.take(i as int)),
        decreases v.len() - i,
    {
        let x = String::from_str(v[i].as_str());
        let ghost before = strings_view(out@);
        out.push(x);
        proof {
            assert(strings_view(out@) =~= before.push(x@));
            assert(strings_view(v@.take(i + 1)) =~= strings_view(v@.take(i as int)).push(v@[i as int]@));
        }
        i = i + 1;
    }
    assert(v@.take(v@.len() as int) =~= v@);
    out
}

} // verus!
