//! Equality, hashing and the conversions from and to std's strings.

use crate::utf8::collect_chars;
use crate::laws::lemma_canonical;
use crate::string::ColdString;
use core::hash::{Hash, Hasher};
use vstd::prelude::*;
use vstd::std_specs::cmp::PartialEqSpecImpl;
use vstd::std_specs::convert::FromSpecImpl;
use vstd::string::StringSliceAdditionalSpecFns;
use vstd::utf8::encode_utf8;

verus! {

/// Whether two byte strings are the same.
pub fn bytes_eq(a: &[u8], b: &[u8]) -> (same: bool)
    ensures
        same == (a@ == b@),
{
    if a.len() != b.len() {
        return false;
    }
    let mut i: usize = 0;
    while i < a.len()
        invariant
            a.len() == b.len(),
            i <= a.len(),
            forall|j: int| 0 <= j < i ==> a[j] == b[j],
        decreases a.len() - i,
    {
        if a[i] != b[i] {
            return false;
        }
        i += 1;
    }
    assert(a@ =~= b@);
    true
}

impl PartialEq for ColdString {
    /// Two inline strings are compared by their words, two heap strings by
    /// their bytes; an inline string never equals a heap string.
    fn eq(&self, other: &Self) -> (same: bool) {
        proof {
            use_type_invariant(self);
            use_type_invariant(other);
            lemma_canonical(*self, *other);
        }
        if self.is_inline() {
            other.is_inline() && self.to_word().addr() == other.to_word().addr()
        } else if other.is_inline() {
            false
        } else {
            bytes_eq(self.decode_heap(), other.decode_heap())
        }
    }
}

impl PartialEqSpecImpl for ColdString {
    open spec fn obeys_eq_spec() -> bool {
        true
    }

    /// Strings are equal where their bytes are.
    open spec fn eq_spec(&self, other: &Self) -> bool {
        self.spec_bytes() == other.spec_bytes()
    }
}

impl Eq for ColdString {

}

impl PartialEq<str> for ColdString {
    /// A string equals a string slice with the same bytes.
    fn eq(&self, other: &str) -> (same: bool) {
        if self.is_inline() {
            bytes_eq(self.decode_inline(), other.as_bytes())
        } else {
            bytes_eq(self.decode_heap(), other.as_bytes())
        }
    }
}

impl PartialEqSpecImpl<str> for ColdString {
    open spec fn obeys_eq_spec() -> bool {
        true
    }

    open spec fn eq_spec(&self, other: &str) -> bool {
        self.spec_bytes() == other.spec_bytes()
    }
}

impl Default for ColdString {
    /// The empty string.
    fn default() -> (r: Self)
        ensures
            r.wf(),
            r.spec_bytes() == Seq::<u8>::empty(),
            r@ == Seq::<char>::empty(),
    {
        proof {
            reveal_strlit("");
            assert(""@ =~= Seq::<char>::empty());
        }
        Self::new_inline("")
    }
}

impl Hash for ColdString {
    /// Feeds the hasher what the string slice with the same bytes feeds it.
    fn hash<H: Hasher>(&self, state: &mut H) {
        hash_str(self.as_str(), state)
    }
}

/// Hashes a string slice with std's `Hash` for `str`.
#[verifier::external_body]
fn hash_str<H: Hasher>(s: &str, state: &mut H) {
    s.hash(state)
}

impl PartialEq<ColdString> for str {
    fn eq(&self, other: &ColdString) -> (same: bool) {
        other.eq(self)
    }
}

impl PartialEqSpecImpl<ColdString> for str {
    open spec fn obeys_eq_spec() -> bool {
        true
    }

    open spec fn eq_spec(&self, other: &ColdString) -> bool {
        self.spec_bytes() == other.spec_bytes()
    }
}

impl PartialEq<&str> for ColdString {
    fn eq(&self, other: &&str) -> (same: bool) {
        self.eq(*other)
    }
}

impl PartialEqSpecImpl<&str> for ColdString {
    open spec fn obeys_eq_spec() -> bool {
        true
    }

    open spec fn eq_spec(&self, other: &&str) -> bool {
        self.spec_bytes() == other.spec_bytes()
    }
}

impl PartialEq<ColdString> for &str {
    fn eq(&self, other: &ColdString) -> (same: bool) {
        other.eq(*self)
    }
}

impl PartialEqSpecImpl<ColdString> for &str {
    open spec fn obeys_eq_spec() -> bool {
        true
    }

    open spec fn eq_spec(&self, other: &ColdString) -> bool {
        self.spec_bytes() == other.spec_bytes()
    }
}

impl From<&str> for ColdString {
    fn from(s: &str) -> (r: Self)
        ensures
            r.wf(),
            r.spec_bytes() == s.spec_bytes(),
            r@ == s@,
    {
        Self::new(s)
    }
}

/// The word of a heap string holds an address, which is not known before
/// the block is allocated: the conversions state their results in their
/// own clauses.
impl FromSpecImpl<&str> for ColdString {
    open spec fn obeys_from_spec() -> bool {
        false
    }

    open spec fn from_spec(s: &str) -> Self {
        choose|r: ColdString| r.wf() && r.spec_bytes() == s.spec_bytes()
    }
}

impl FromSpecImpl<String> for ColdString {
    open spec fn obeys_from_spec() -> bool {
        false
    }

    open spec fn from_spec(s: String) -> Self {
        choose|r: ColdString| r.wf() && r@ == s@
    }
}

impl From<String> for ColdString {
    fn from(s: String) -> (r: Self)
        ensures
            r.wf(),
            r.spec_bytes() == encode_utf8(s@),
            r@ == s@,
    {
        Self::new(s.as_str())
    }
}

impl core::str::FromStr for ColdString {
    type Err = core::convert::Infallible;

    fn from_str(s: &str) -> (r: Result<ColdString, Self::Err>)
        ensures
            r is Ok,
            r->Ok_0.wf(),
            r->Ok_0.spec_bytes() == s.spec_bytes(),
            r->Ok_0@ == s@,
    {
        Ok(ColdString::new(s))
    }
}

impl core::ops::Deref for ColdString {
    type Target = str;

    fn deref(&self) -> (s: &str)
        ensures
            s@ == self@,
    {
        self.as_str()
    }
}

impl AsRef<str> for ColdString {
    fn as_ref(&self) -> (s: &str)
        ensures
            ({
                let t: &str = s;
                t@ == self@
            }),
    {
        self.as_str()
    }
}

impl AsRef<[u8]> for ColdString {
    fn as_ref(&self) -> (bytes: &[u8])
        ensures
            ({
                let b: &[u8] = bytes;
                b@ == self.spec_bytes()
            }),
    {
        self.as_bytes()
    }
}

impl core::borrow::Borrow<str> for ColdString {
    fn borrow(&self) -> (s: &str)
        ensures
            ({
                let t: &str = s;
                t@ == self@
            }),
    {
        self.as_str()
    }
}

impl ColdString {
    /// Holds the string of the characters of `chars`: they are gathered
    /// into a `String`, and that is held.
    pub fn from_iter(chars: Vec<char>) -> (r: Self)
        ensures
            r.wf(),
            r@ == chars@,
    {
        let s = collect_chars(chars);
        ColdString::new(s.as_str())
    }

    /// The string as a `String` of its own: what displaying it writes.
    pub fn to_string(&self) -> (s: String)
        ensures
            s@ == self@,
    {
        self.as_str().to_owned()
    }
}

} // verus!
