//! Character-level helpers shared by the wire codec: conversion between
//! strings and character vectors, and digit/hex classification.

use vstd::prelude::*;
use vstd::string::StrSliceExecFns;

verus! {

/// Relies on String::push: appends exactly the given character.
#[verifier::external_body]
pub(crate) fn push_char(s: &mut String, c: char)
    ensures
        final(s)@ == old(s)@.push(c),
{
    s.push(c);
}

/// Copy the characters of a string slice into a vector.
pub fn str_to_chars(s: &str) -> (v: Vec<char>)
    ensures
        v@ == s@,
{
    let n = s.unicode_len();
    let mut v: Vec<char> = Vec::new();
    let mut i: usize = 0;
    while i < n
        invariant
            n == s@.len(),
            i <= n,
            v@ == s@.subrange(0, i as int),
        decreases n - i,
    {
        v.push(s.get_char(i));
        i = i + 1;
    }
    proof {
        assert(v@ =~= s@);
    }
    v
}

/// Build a string out of a sequence of characters.
pub fn chars_to_string(v: &Vec<char>) -> (s: String)
    ensures
        s@ == v@,
{
    let mut s = String::new();
    let mut i: usize = 0;
    while i < v.len()
        invariant
            i <= v@.len(),
            s@ == v@.subrange(0, i as int),
        decreases v@.len() - i,
    {
        push_char(&mut s, v[i]);
        i = i + 1;
    }
    proof {
        assert(s@ =~= v@);
    }
    s
}

/// A decimal digit.
pub open spec fn is_digit(c: char) -> bool {
    '0' <= c && c <= '9'
}

/// The numeric value of a decimal digit.
pub open spec fn digit_value(c: char) -> int {
    c as int - '0' as int
}

/// Executable check for a decimal digit.
pub fn check_digit(c: char) -> (r: bool)
    ensures
        r == is_digit(c),
{
    '0' <= c && c <= '9'
}

} // verus!

verus! {

/// The views of a sequence of strings.
pub open spec fn view_strings(xs: Seq<String>) -> Seq<Seq<char>>
    decreases xs,
{
    if xs.len() == 0 {
        Seq::empty()
    } else {
        view_strings(xs.drop_last()).push(xs.last()@)
    }
}

pub proof fn lemma_view_strings_len(xs: Seq<String>)
    ensures
        view_strings(xs).len() == xs.len(),
    decreases xs,
{
    if xs.len() > 0 {
        lemma_view_strings_len(xs.drop_last());
        assert(view_strings(xs) == view_strings(xs.drop_last()).push(xs.last()@));
    }
}

pub proof fn lemma_view_strings_index(xs: Seq<String>, i: int)
    requires
        0 <= i < xs.len(),
    ensures
        view_strings(xs).len() == xs.len(),
        view_strings(xs)[i] == xs[i]@,
    decreases xs,
{
    lemma_view_strings_len(xs);
    lemma_view_strings_len(xs.drop_last());
    assert(view_strings(xs) == view_strings(xs.drop_last()).push(xs.last()@));
    if i < xs.len() - 1 {
        lemma_view_strings_index(xs.drop_last(), i);
        assert(xs.drop_last()[i] == xs[i]);
    } else {
        assert(xs[i] == xs.last());
    }
}

} // verus!
