//! Conversions between Rust strings and sequences of characters.

use vstd::prelude::*;

verus! {

/// The character sequences of a sequence of strings.
pub open spec fn texts(v: Seq<String>) -> Seq<Seq<char>> {
    v.map_values(|s: String| s@)
}

/// The character sequences of a sequence of character vectors.
pub open spec fn rows(v: Seq<Vec<char>>) -> Seq<Seq<char>> {
    v.map_values(|r: Vec<char>| r@)
}

/// Appends one character to a string.
///
/// Trusted: this is `String::push`, which std documents as appending the
/// given character to the end of the string.
#[verifier::external_body]
pub(crate) fn push_char(s: &mut String, c: char)
    ensures
        final(s)@ == old(s)@.push(c),
{
    s.push(c)
}

/// The characters of a string slice, in order.
pub fn chars_of(s: &str) -> (v: Vec<char>)
    ensures
        v@ == s@,
{
    broadcast use vstd::string::axiom_spec_iter;

    let mut v: Vec<char> = Vec::new();
    for c in it: s.chars()
        invariant
            it.seq() == s@,
            v@ == it.history(),
    {
        v.push(c);
    }
    assert(v@ =~= s@);
    v
}

/// The string made of the given characters, in order.
pub fn string_of(v: &Vec<char>) -> (s: String)
    ensures
        s@ == v@,
{
    let mut s = String::new();
    let mut i: usize = 0;
    while i < v.len()
        invariant
            i <= v.len(),
            s@ == v@.take(i as int),
        decreases v.len() - i,
    {
        push_char(&mut s, v[i]);
        i += 1;
        assert(s@ =~= v@.take(i as int));
    }
    assert(v@.take(v.len() as int) =~= v@);
    s
}

/// The strings made of the given character vectors, in order.
pub fn strings_of(list: &Vec<Vec<char>>) -> (v: Vec<String>)
    ensures
        texts(v@) == rows(list@),
{
    let mut v: Vec<String> = Vec::new();
    let mut i: usize = 0;
    while i < list.len()
        invariant
            i <= list.len(),
            texts(v@) == rows(list@).take(i as int),
        decreases list.len() - i,
    {
        let word = string_of(&list[i]);
        proof {
            assert(rows(list@)[i as int] == list@[i as int]@);
            assert(texts(v@.push(word)) =~= texts(v@).push(word@));
            assert(texts(v@.push(word)) =~= rows(list@).take(i + 1));
        }
        v.push(word);
        i += 1;
    }
    proof {
        assert(rows(list@).take(i as int) =~= rows(list@));
    }
    v
}

} // verus!
