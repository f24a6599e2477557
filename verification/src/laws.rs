//! What holds of every string, whatever it was made from.

use crate::string::ColdString;
use crate::vint::{decoding, encoding, header_len, lemma_round_trip, terminated, MAX_LEN};
use crate::word::{
    inline_word, le_value, lemma_le_round_trip, lemma_untag_aligned, lemma_value_tag, untagged,
    HEAP_ALIGN, WIDTH,
};
use vstd::prelude::*;
use vstd::std_specs::cmp::PartialEqSpec;
use vstd::string::StringSliceAdditionalSpecFns;
use vstd::utf8::{decode_utf8, encode_utf8};

verus! {

broadcast use {
    vstd::utf8::encode_utf8_valid_utf8,
    vstd::utf8::encode_utf8_decode_utf8,
    vstd::utf8::decode_utf8_encode_utf8,
};

/// A string gives back what it was made from: its characters are those
/// that the bytes spell, its bytes are their encoding, and its length is
/// their number.
pub proof fn lemma_round_trip_str(x: ColdString, s: &str)
    requires
        x.wf(),
        x.spec_bytes() == s.spec_bytes(),
    ensures
        x@ == s@,
        encode_utf8(x@) == s.spec_bytes(),
        x.spec_bytes().len() == s.spec_bytes().len(),
{
}

/// The form follows the length alone: a string is inline exactly where it
/// has at most `WIDTH` bytes.
pub proof fn lemma_form(x: ColdString)
    requires
        x.wf(),
    ensures
        !x.is_heap() <==> x.spec_bytes().len() <= WIDTH,
        !x.is_heap() ==> x.word() == inline_word(x.spec_bytes()) && x.block().len() == 0,
{
}

/// Two strings have the same characters exactly where they have the same
/// bytes.
pub proof fn lemma_same_chars_same_bytes(x: ColdString, y: ColdString)
    requires
        x.wf(),
        y.wf(),
    ensures
        x@ == y@ <==> x.spec_bytes() == y.spec_bytes(),
{
    if x@ == y@ {
        assert(encode_utf8(x@) == x.spec_bytes());
        assert(encode_utf8(y@) == y.spec_bytes());
    }
}

/// Each string has one encoding. Equal strings have the same form; two
/// inline strings are equal exactly where their words are, which is where
/// the values of their words are; and an inline string never equals a heap
/// string.
pub proof fn lemma_canonical(x: ColdString, y: ColdString)
    requires
        x.wf(),
        y.wf(),
    ensures
        x.spec_bytes() == y.spec_bytes() ==> x.is_heap() == y.is_heap(),
        !x.is_heap() && !y.is_heap() ==> (x.spec_bytes() == y.spec_bytes() <==> x.word()
            == y.word()),
        x.word() == y.word() <==> le_value(x.word()) == le_value(y.word()),
{
    lemma_le_round_trip(0, x.word());
    lemma_le_round_trip(0, y.word());
}

/// Strings made from `a` and from `b` are equal exactly where `a` and `b`
/// are, and each equals the slice it was made from, from either side.
pub proof fn lemma_pairwise_equality(x: ColdString, y: ColdString, a: &str, b: &str)
    requires
        x.wf(),
        y.wf(),
        x.spec_bytes() == a.spec_bytes(),
        y.spec_bytes() == b.spec_bytes(),
    ensures
        x.eq_spec(&y) <==> a@ == b@,
        x.eq_spec(a),
        a.eq_spec(&x),
        x.eq_spec(b) <==> a@ == b@,
{
    if x.spec_bytes() == y.spec_bytes() {
        assert(decode_utf8(encode_utf8(a@)) == decode_utf8(encode_utf8(b@)));
    }
}

/// A copy of a string equals it.
pub proof fn lemma_clone_identity(x: ColdString, copy: ColdString)
    requires
        x.wf(),
        copy.wf(),
        copy.spec_bytes() == x.spec_bytes(),
    ensures
        copy.eq_spec(&x),
        x.eq_spec(&copy),
        copy@ == x@,
        copy.is_heap() == x.is_heap(),
{
}

/// The heap block of a heap string starts with the encoding of the
/// string's length, which is what a reader reads back from it, and the
/// address in the word is a multiple of `HEAP_ALIGN`.
pub proof fn lemma_heap_invariants(x: ColdString)
    requires
        x.wf(),
        x.is_heap(),
    ensures
        terminated(x.block()),
        1 <= header_len(x.block()) <= MAX_LEN,
        header_len(x.block()) == encoding(x.spec_bytes().len()).len(),
        decoding(x.block().take(header_len(x.block()) as int)) == x.spec_bytes().len(),
        x.block().len() == header_len(x.block()) + x.spec_bytes().len(),
        untagged(le_value(x.word())) % HEAP_ALIGN == 0,
{
    lemma_round_trip(x.spec_bytes().len() as u64, x.spec_bytes());
    lemma_value_tag(x.word());
    lemma_untag_aligned(le_value(x.word()));
}

} // verus!
