//! The string itself: one encoded word, and for long strings the heap
//! block that the word stands for.

use crate::utf8::{lemma_valid_lead, utf8_error};
use crate::vint::{encoding, header_len, lemma_round_trip, VarInt};
use crate::word::{
    fits_inline, inline_bytes, inline_len, inline_word, is_heap_tag, le_bytes, le_value,
    lemma_inline_round_trip, tagged, untagged, EncodedWord, HEAP_ALIGN, INLINE_TAG, WIDTH,
};
use core::str::Utf8Error;
use vstd::prelude::*;
use vstd::slice::slice_subrange;
use vstd::string::StringSliceAdditionalSpecFns;
use vstd::utf8::{decode_utf8, encode_utf8, valid_utf8};

verus! {

broadcast use {
    vstd::utf8::encode_utf8_valid_utf8,
    vstd::utf8::encode_utf8_decode_utf8,
    vstd::utf8::decode_utf8_encode_utf8,
};

/// An immutable UTF-8 string. Up to `WIDTH` bytes are held in the encoded
/// word itself; a longer string is held in a heap block, behind its length
/// as a variable-length integer, and the word holds the block's tagged
/// address.
#[derive(Debug)]
pub struct ColdString {
    encoded: EncodedWord,
    heap: Vec<u8>,
}

impl View for ColdString {
    type V = Seq<char>;

    /// The characters of the string.
    open spec fn view(&self) -> Seq<char> {
        decode_utf8(self.spec_bytes())
    }
}

/// The word of a short string before its bytes are copied in: the
/// discriminant with the length, then zeros. For a string that fills the
/// word, all zeros.
pub open spec fn blank_word(len: nat) -> Seq<u8> {
    Seq::new(
        WIDTH as nat,
        |i: int|
            if i == 0 && len < WIDTH {
                (0xF8 + len) as u8
            } else {
                0u8
            },
    )
}

/// The address of the buffer that holds `block`, as `sptr::Strict::addr`
/// gives it for the pointer from `Vec::as_ptr`. It depends on the
/// allocator, so nothing is claimed of it.
#[verifier::external_body]
fn block_addr(block: &Vec<u8>) -> u64 {
    sptr::Strict::addr(block.as_ptr()) as u64
}

impl ColdString {
    /// The encoded word, byte by byte.
    pub closed spec fn word(&self) -> Seq<u8> {
        self.encoded@
    }

    /// The heap block; empty for an inline string.
    pub closed spec fn block(&self) -> Seq<u8> {
        self.heap@
    }

    /// Whether the word's discriminant says heap.
    pub open spec fn is_heap(&self) -> bool {
        is_heap_tag(self.word()[0])
    }

    /// The bytes of the string: those inside the word, or those behind the
    /// length header of the heap block.
    pub open spec fn spec_bytes(&self) -> Seq<u8> {
        if self.is_heap() {
            self.block().skip(header_len(self.block()) as int)
        } else {
            inline_bytes(self.word())
        }
    }

    /// What holds of every string: its bytes are valid UTF-8; up to `WIDTH`
    /// bytes are inline, in the one word that stands for them, and own no
    /// heap block; more are on the heap, in a block that is exactly the
    /// encoding of their number followed by themselves.
    pub open spec fn wf(&self) -> bool {
        &&& self.word().len() == WIDTH
        &&& valid_utf8(self.spec_bytes())
        &&& if self.is_heap() {
            &&& self.spec_bytes().len() > WIDTH
            &&& self.spec_bytes().len() <= usize::MAX
            &&& self.block() == encoding(self.spec_bytes().len()) + self.spec_bytes()
        } else {
            &&& self.block().len() == 0
            &&& fits_inline(self.spec_bytes())
            &&& self.word() == inline_word(self.spec_bytes())
        }
    }

    #[verifier::type_invariant]
    pub(crate) open spec fn inv(&self) -> bool {
        self.wf()
    }

    /// The zeroed word for `s`, with the discriminant set where `s` is
    /// shorter than the word.
    pub fn inline_buf(s: &str) -> (buf: [u8; WIDTH])
        requires
            s.spec_bytes().len() <= WIDTH,
        ensures
            buf@ == blank_word(s.spec_bytes().len()),
    {
        let len = s.len();
        let mut buf = [0u8; WIDTH];
        if len < WIDTH {
            let bits = INLINE_TAG | len as u64;
            assert(bits == 0xF8 + len) by {
                let l = len as u64;
                assert(l < 8 ==> (0xF8u64 | l) == 0xF8 + l) by (bit_vector);
            }
            let tag = bits as u8;
            buf[0] = tag;
        }
        assert(buf@ =~= blank_word(s.spec_bytes().len()));
        buf
    }

    /// Where the bytes of an inline string of length `l` start in the word.
    pub fn utf8_start(l: usize) -> (start: usize)
        ensures
            start == (if l < WIDTH { 1int } else { 0int }),
    {
        if l < WIDTH {
            1
        } else {
            0
        }
    }

    /// Makes the string out of its finished inline word.
    fn from_inline_buf(b: [u8; WIDTH]) -> (r: Self)
        requires
            !is_heap_tag(b[0]),
            valid_utf8(inline_bytes(b@)),
            fits_inline(inline_bytes(b@)),
            b@ == inline_word(inline_bytes(b@)),
        ensures
            r.wf(),
            r.word() == b@,
    {
        Self { encoded: EncodedWord::from_bytes(b), heap: Vec::new() }
    }

    /// Holds `s` inline.
    pub fn new_inline(s: &str) -> (r: Self)
        requires
            s.spec_bytes().len() <= WIDTH,
        ensures
            r.wf(),
            !r.is_heap(),
            r.word() == inline_word(s.spec_bytes()),
            r.spec_bytes() == s.spec_bytes(),
            r@ == s@,
    {
        let mut buf = Self::inline_buf(s);
        let bytes = s.as_bytes();
        let start = Self::utf8_start(bytes.len());
        let mut i: usize = 0;
        while i < bytes.len()
            invariant
                i <= bytes.len() <= WIDTH,
                start == (if bytes.len() < WIDTH { 1int } else { 0int }),
                forall|j: int| 0 <= j < i ==> buf[start + j] == bytes[j],
                forall|j: int|
                    0 <= j < WIDTH && !(start <= j < start + i) ==> buf[j] == blank_word(
                        bytes@.len(),
                    )[j],
            decreases bytes.len() - i,
        {
            buf[i + start] = bytes[i];
            i += 1;
        }
        proof {
            if bytes@.len() > 0 {
                lemma_valid_lead(bytes@);
            }
            lemma_inline_round_trip(bytes@);
            assert(buf@ =~= inline_word(bytes@));
        }
        Self::from_inline_buf(buf)
    }

    /// Holds `s`, which must fit, inline. Written for strings that are known
    /// where the program is written.
    pub fn new_inline_const(s: &str) -> (r: Self)
        requires
            s.spec_bytes().len() <= WIDTH,
        ensures
            r.wf(),
            !r.is_heap(),
            r.word() == inline_word(s.spec_bytes()),
            r.spec_bytes() == s.spec_bytes(),
            r@ == s@,
    {
        Self::new_inline(s)
    }

    /// Holds `s` on the heap: a block of the encoded length followed by the
    /// bytes, and in the word the block's address with the heap tag. The
    /// address is brought down to a multiple of `HEAP_ALIGN` before it is
    /// tagged, which changes nothing where the allocator aligns its blocks.
    pub fn new_heap(s: &str) -> (r: Self)
        requires
            s.spec_bytes().len() > WIDTH,
        ensures
            r.wf(),
            r.is_heap(),
            r.block() == encoding(s.spec_bytes().len()) + s.spec_bytes(),
            r.spec_bytes() == s.spec_bytes(),
            r@ == s@,
    {
        let bytes = s.as_bytes();
        let len = bytes.len();
        let mut len_buf = [0u8; 10];
        let vint_len = VarInt::write(len as u64, &mut len_buf);
        let total = vint_len.saturating_add(len);
        let mut heap: Vec<u8> = Vec::with_capacity(total);
        heap.extend_from_slice(slice_subrange(len_buf.as_slice(), 0, vint_len));
        heap.extend_from_slice(bytes);
        let addr = block_addr(&heap);
        let encoded = EncodedWord::from_addr(addr - addr % HEAP_ALIGN);
        proof {
            assert(heap@ =~= encoding(len as nat) + bytes@);
            lemma_round_trip(len as u64, bytes@);
            assert(heap@.skip(header_len(heap@) as int) =~= bytes@);
        }
        Self { encoded, heap }
    }

    /// Holds `s`: inline where it has at most `WIDTH` bytes, on the heap
    /// where it has more.
    pub fn new(s: &str) -> (r: Self)
        ensures
            r.wf(),
            r.spec_bytes() == s.spec_bytes(),
            r@ == s@,
            r.is_heap() == (s.spec_bytes().len() > WIDTH),
            !r.is_heap() ==> r.word() == inline_word(s.spec_bytes()),
            r.is_heap() ==> r.block() == encoding(s.spec_bytes().len()) + s.spec_bytes(),
    {
        if s.as_bytes().len() <= WIDTH {
            Self::new_inline(s)
        } else {
            Self::new_heap(s)
        }
    }

    /// Holds the string that `v` spells, where `v` is valid UTF-8; reports
    /// the validation error where it is not.
    pub fn from_utf8(v: &[u8]) -> (r: Result<Self, Utf8Error>)
        ensures
            r is Ok <==> valid_utf8(v@),
            r is Ok ==> r->Ok_0.wf() && r->Ok_0.spec_bytes() == v@ && r->Ok_0@ == decode_utf8(v@),
            r is Err ==> r->Err_0 == utf8_error(v@),
    {
        match core::str::from_utf8(v) {
            Ok(s) => Ok(Self::new(s)),
            Err(e) => Err(e),
        }
    }

    /// Holds the string that `v` spells. The caller vouches that `v` is
    /// valid UTF-8.
    pub fn from_utf8_unchecked(v: &[u8]) -> (r: Self)
        requires
            valid_utf8(v@),
        ensures
            r.wf(),
            r.spec_bytes() == v@,
            r@ == decode_utf8(v@),
    {
        match core::str::from_utf8(v) {
            Ok(s) => Self::new(s),
            Err(_) => vstd::pervasive::unreached(),
        }
    }

    /// The encoded word.
    pub fn to_word(&self) -> (w: EncodedWord)
        ensures
            w@ == self.word(),
    {
        self.encoded
    }

    /// Whether the bytes are held inside the word. That is so exactly for
    /// strings of at most `WIDTH` bytes.
    pub fn is_inline(&self) -> (b: bool)
        ensures
            b == !self.is_heap(),
            b == (self.spec_bytes().len() <= WIDTH),
    {
        proof {
            use_type_invariant(self);
        }
        self.encoded.is_inline()
    }

    /// The address of the heap block, as the word holds it: a multiple of
    /// `HEAP_ALIGN`.
    pub fn heap_addr(&self) -> (addr: u64)
        requires
            self.is_heap(),
        ensures
            addr == untagged(le_value(self.word())),
            addr % HEAP_ALIGN == 0,
            le_bytes(tagged(addr)) == self.word(),
    {
        self.encoded.heap_addr()
    }

    /// The length that the word holds, read as an inline word. For an
    /// inline string it is the string's length.
    pub fn inline_len(&self) -> (len: usize)
        ensures
            len == inline_len(self.word()),
            !self.is_heap() ==> len == self.spec_bytes().len(),
    {
        proof {
            use_type_invariant(self);
            if !self.is_heap() {
                lemma_inline_round_trip(self.spec_bytes());
            }
        }
        self.encoded.inline_len()
    }

    /// The length of the string in bytes.
    pub fn len(&self) -> (len: usize)
        ensures
            len == self.spec_bytes().len(),
    {
        if self.is_inline() {
            self.inline_len()
        } else {
            proof {
                use_type_invariant(self);
                lemma_round_trip(self.spec_bytes().len() as u64, self.spec_bytes());
            }
            let (len, _) = VarInt::read(self.heap.as_slice());
            len as usize
        }
    }

    /// The size of the heap block that the string owns and gives back when it
    /// is dropped: the length header and the bytes, or nothing for an inline
    /// string.
    pub fn heap_size(&self) -> (total: usize)
        ensures
            total == self.block().len(),
            !self.is_heap() ==> total == 0,
            self.is_heap() ==> total == encoding(self.spec_bytes().len()).len()
                + self.spec_bytes().len(),
    {
        if self.is_inline() {
            proof {
                use_type_invariant(self);
            }
            0
        } else {
            proof {
                use_type_invariant(self);
                lemma_round_trip(self.spec_bytes().len() as u64, self.spec_bytes());
            }
            let (len, header) = VarInt::read(self.heap.as_slice());
            header + len as usize
        }
    }

    /// The bytes that the word holds, read as an inline word, as a view
    /// into the word. For an inline string they are the string's bytes.
    pub fn decode_inline(&self) -> (bytes: &[u8])
        ensures
            bytes@ == inline_bytes(self.word()),
            !self.is_heap() ==> bytes@ == self.spec_bytes(),
    {
        self.encoded.decode_inline()
    }

    /// The bytes of a heap string, as a view into the block behind its
    /// length header.
    pub fn decode_heap(&self) -> (bytes: &[u8])
        requires
            self.is_heap(),
        ensures
            bytes@ == self.spec_bytes(),
    {
        proof {
            use_type_invariant(self);
            lemma_round_trip(self.spec_bytes().len() as u64, self.spec_bytes());
        }
        let block = self.heap.as_slice();
        let (len, header) = VarInt::read(block);
        let bytes = slice_subrange(block, header, header + len as usize);
        assert(bytes@ =~= self.spec_bytes());
        bytes
    }

    /// The bytes of the string.
    pub fn as_bytes(&self) -> (bytes: &[u8])
        ensures
            bytes@ == self.spec_bytes(),
    {
        if self.is_inline() {
            self.decode_inline()
        } else {
            self.decode_heap()
        }
    }

    /// The string as a string slice.
    pub fn as_str(&self) -> (s: &str)
        ensures
            s.spec_bytes() == self.spec_bytes(),
            s@ == self@,
    {
        proof {
            use_type_invariant(self);
        }
        match core::str::from_utf8(self.as_bytes()) {
            Ok(s) => s,
            Err(_) => vstd::pervasive::unreached(),
        }
    }

    /// Whether the string has no bytes.
    pub fn is_empty(&self) -> (b: bool)
        ensures
            b == (self.spec_bytes().len() == 0),
            b == (self@.len() == 0),
    {
        proof {
            use_type_invariant(self);
            if self@.len() == 0 {
                assert(encode_utf8(self@) =~= Seq::<u8>::empty());
            }
        }
        self.len() == 0
    }
}

impl Clone for ColdString {
    /// A string of its own with the same bytes. An inline word is copied as
    /// it is; a heap string gets a fresh block.
    fn clone(&self) -> (r: Self)
        ensures
            r.wf(),
            r.spec_bytes() == self.spec_bytes(),
            r@ == self@,
            r.is_heap() == self.is_heap(),
            !self.is_heap() ==> r.word() == self.word(),
            r.block() == self.block(),
    {
        proof {
            use_type_invariant(self);
        }
        if self.is_inline() {
            let r = Self { encoded: self.encoded, heap: Vec::new() };
            assert(r.block() =~= self.block());
            r
        } else {
            Self::new_heap(self.as_str())
        }
    }
}

} // verus!
