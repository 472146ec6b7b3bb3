//! Verified helpers over borrowed strings.
//!
//! Strings are modelled by their character sequences, so lengths and
//! positions below count characters.

use vstd::prelude::*;
use vstd::string::StrSliceExecFns;

verus! {

/// The length of a string, in characters, without taking ownership.
pub fn calculate_length(s: &String) -> (r: usize)
    ensures
        r == s@.len(),
{
    s.as_str().unicode_len()
}

/// The slice of `s` between character positions `start` and `end`, or
/// `None` when the range does not fit the string.
pub fn safe_slice<'a>(s: &'a str, start: usize, end: usize) -> (r: Option<&'a str>)
    ensures
        r is Some <==> start <= end <= s@.len(),
        r matches Some(sub) ==> sub@ == s@.subrange(start as int, end as int),
{
    if start <= end && end <= s.unicode_len() {
        Some(s.substring_char(start, end))
    } else {
        None
    }
}

/// The first word of `s`: its longest prefix that holds no space
/// character.  A string without spaces is returned whole.
pub fn first_word<'a>(s: &'a str) -> (r: &'a str)
    ensures
        r@.len() <= s@.len(),
        r@ == s@.subrange(0, r@.len() as int),
        forall|j: int| 0 <= j < r@.len() ==> s@[j] != ' ',
        r@.len() < s@.len() ==> s@[r@.len() as int] == ' ',
{
    let n = s.unicode_len();
    let mut i: usize = 0;
    while i < n
        invariant
            i <= n,
            n == s@.len(),
            forall|j: int| 0 <= j < i ==> s@[j] != ' ',
        decreases n - i,
    {
        if s.get_char(i) == ' ' {
            let r = s.substring_char(0, i);
            return r;
        }
        i += 1;
    }
    proof {
        assert(s@.subrange(0, s@.len() as int) =~= s@);
    }
    s
}

} // verus!
