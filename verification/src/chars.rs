//! Conversions between `String` / `&str` and vectors of characters.
//!
//! The wire codec works over `Vec<char>`, where every position is directly
//! addressable; these helpers move between that representation and the
//! `String` values the rest of the library exchanges.

use vstd::prelude::*;

verus! {

/// Relies on `String::push`: appends the one character `c` to the string.
#[verifier::external_body]
pub fn push_char(s: &mut String, c: char)
    ensures
        final(s)@ == old(s)@.push(c),
{
    s.push(c);
}

/// Builds a `String` holding exactly the characters of `v`, in order.
pub fn string_from_chars(v: &Vec<char>) -> (s: String)
    ensures
        s@ == v@,
{
    let mut s = String::new();
    let mut i: usize = 0;
    while i < v.len()
        invariant
            i <= v@.len(),
            s@ == v@.subrange(0, i as int),
        decreases v@.len() - i,
    {
        push_char(&mut s, v[i]);
        i = i + 1;
        proof {
            assert(v@.subrange(0, i as int) == v@.subrange(0, i as int - 1).push(v@[i as int - 1]));
        }
    }
    proof {
        assert(v@.subrange(0, v@.len() as int) == v@);
    }
    s
}

/// Collects the characters of `s` into a vector, in order.
pub fn str_chars(s: &str) -> (v: Vec<char>)
    ensures
        v@ == s@,
{
    let n = s.unicode_len();
    let mut v: Vec<char> = Vec::new();
    let mut i: usize = 0;
    while i < n
        invariant
            n == s@.len(),
            i <= n,
            v@ == s@.subrange(0, i as int),
        decreases n - i,
    {
        v.push(s.get_char(i));
        i = i + 1;
        proof {
            assert(s@.subrange(0, i as int) == s@.subrange(0, i as int - 1).push(s@[i as int - 1]));
        }
    }
    proof {
        assert(s@.subrange(0, s@.len() as int) == s@);
    }
    v
}

} // verus!
