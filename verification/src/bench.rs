//! Random strings of letters and digits, for measurements.

use crate::utf8::collect_chars;
use vstd::prelude::*;

verus! {

/// Whether `c` is one of the 62 ASCII letters and digits.
pub open spec fn is_alphanumeric(c: char) -> bool {
    ||| 'a' as u32 <= c as u32 <= 'z' as u32
    ||| 'A' as u32 <= c as u32 <= 'Z' as u32
    ||| '0' as u32 <= c as u32 <= '9' as u32
}

/// A number drawn by `fastrand::usize` from `min..=max`. It lies in that
/// range; the call panics on an empty range, which is left out.
#[verifier::external_body]
fn random_len(min: usize, max: usize) -> (len: usize)
    requires
        min <= max,
    ensures
        min <= len <= max,
{
    fastrand::usize(min..=max)
}

/// A character drawn by `fastrand::alphanumeric`: an ASCII letter or
/// digit.
#[verifier::external_body]
fn random_alphanumeric() -> (c: char)
    ensures
        is_alphanumeric(c),
{
    fastrand::alphanumeric()
}

/// A string of random letters and digits whose length is drawn from
/// `min..=max`.
pub fn random_string(min: usize, max: usize) -> (s: String)
    requires
        min <= max,
    ensures
        min <= s@.len() <= max,
        forall|i: int| 0 <= i < s@.len() ==> is_alphanumeric(#[trigger] s@[i]),
{
    let len = random_len(min, max);
    let mut chars: Vec<char> = Vec::with_capacity(len);
    let mut i: usize = 0;
    while i < len
        invariant
            i <= len,
            chars@.len() == i,
            forall|j: int| 0 <= j < i ==> is_alphanumeric(#[trigger] chars@[j]),
        decreases len - i,
    {
        chars.push(random_alphanumeric());
        i += 1;
    }
    collect_chars(chars)
}

} // verus!
