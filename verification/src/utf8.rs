//! What the string needs from std's strings: validation of raw bytes,
//! gathering characters, and the fact that a valid string never starts with
//! a byte that the word uses as a tag.

use crate::word::is_plain_lead;
use core::str::Utf8Error;
use vstd::prelude::*;
use vstd::string::StringSliceAdditionalSpecFns;
use vstd::utf8::valid_utf8;

verus! {

/// The error that std's UTF-8 validation reports.
#[verifier::external_type_specification]
#[verifier::external_body]
pub struct ExUtf8Error(Utf8Error);

/// The error that validation reports for `bytes` that are not valid UTF-8.
pub uninterp spec fn utf8_error(bytes: Seq<u8>) -> Utf8Error;

/// `core::str::from_utf8` accepts exactly the byte strings that are valid
/// UTF-8 and hands them back as a string slice over the same bytes; what
/// it reports otherwise depends on the bytes alone.
pub assume_specification[ core::str::from_utf8 ](v: &[u8]) -> (r: Result<&str, Utf8Error>)
    ensures
        r is Ok <==> valid_utf8(v@),
        r is Ok ==> r->Ok_0.spec_bytes() == v@,
        r is Err ==> r->Err_0 == utf8_error(v@),
;

/// The `String` of the characters of `chars`, in their order, as std's
/// `FromIterator<char>` for `String` gathers them.
#[verifier::external_body]
pub(crate) fn collect_chars(chars: Vec<char>) -> (s: String)
    ensures
        s@ == chars@,
{
    chars.into_iter().collect()
}

/// A valid string does not start with a continuation byte (`10xxxxxx`) nor
/// with `11111xxx`, so its first byte is never mistaken for a tag.
pub proof fn lemma_valid_lead(bytes: Seq<u8>)
    requires
        valid_utf8(bytes),
        bytes.len() > 0,
    ensures
        is_plain_lead(bytes[0]),
{
}

} // verus!
