//! The one-word encoding: which byte patterns mean which form, how a short
//! string sits inside the word, and how a heap address is folded into it.
//!
//! The word is eight bytes wide and is taken byte by byte, least significant
//! byte first, so the discriminant always is the byte at index 0.

use vstd::prelude::*;

verus! {

/// Bytes in the word.
pub const WIDTH: usize = 8;

/// Every heap address is a multiple of this, which keeps its two low bits
/// free for the tag.
pub const HEAP_ALIGN: u64 = 4;

/// The two bits of the discriminant that tell heap from inline.
pub const TAG_MASK: u64 = 0b1100_0000;

/// The discriminant of a short inline string of length zero.
pub const INLINE_TAG: u64 = 0b1111_1000;

/// The tag bits of a heap word.
pub const PTR_TAG: u64 = 0b1000_0000;

/// The bits of a short inline discriminant that hold the length.
pub const LEN_MASK: u64 = 0b0000_0111;

/// `10xxxxxx`: the word holds a heap address.
pub open spec fn is_heap_tag(b: u8) -> bool {
    0x80 <= b < 0xC0
}

/// `11111xxx`: the word holds fewer than `WIDTH` bytes, and `xxx` is how many.
pub open spec fn is_short_tag(b: u8) -> bool {
    0xF8 <= b
}

/// Whether `b` can stand first in a string that fills the whole word: it is
/// neither of the two tags.
pub open spec fn is_plain_lead(b: u8) -> bool {
    !is_heap_tag(b) && !is_short_tag(b)
}

/// Whether `bytes` can be held inline: they fit, and where they fill the
/// word their first byte is no tag.
pub open spec fn fits_inline(bytes: Seq<u8>) -> bool {
    bytes.len() <= WIDTH && (bytes.len() == WIDTH ==> is_plain_lead(bytes[0]))
}

/// The word that holds `bytes` inline. Fewer than `WIDTH` bytes follow a
/// discriminant that carries their number, with zeros behind them; exactly
/// `WIDTH` bytes are the word.
pub open spec fn inline_word(bytes: Seq<u8>) -> Seq<u8>
    recommends
        bytes.len() <= WIDTH,
{
    if bytes.len() < WIDTH {
        seq![(0xF8 + bytes.len()) as u8] + bytes + Seq::new(
            (WIDTH - 1 - bytes.len()) as nat,
            |i: int| 0u8,
        )
    } else {
        bytes
    }
}

/// Where the string starts in an inline word: behind the discriminant of a
/// short one, at the very front of a full one.
pub open spec fn inline_start(word: Seq<u8>) -> int {
    if is_short_tag(word[0]) {
        1
    } else {
        0
    }
}

/// How many bytes an inline word holds.
pub open spec fn inline_len(word: Seq<u8>) -> int {
    if is_short_tag(word[0]) {
        word[0] - 0xF8
    } else {
        WIDTH as int
    }
}

/// The string that an inline word holds.
pub open spec fn inline_bytes(word: Seq<u8>) -> Seq<u8> {
    word.subrange(inline_start(word), inline_start(word) + inline_len(word))
}

/// Reading an inline word gives back the bytes it was made from, and its
/// discriminant never reads as a heap tag.
pub proof fn lemma_inline_round_trip(bytes: Seq<u8>)
    requires
        fits_inline(bytes),
    ensures
        inline_word(bytes).len() == WIDTH,
        !is_heap_tag(inline_word(bytes)[0]),
        inline_len(inline_word(bytes)) == bytes.len(),
        inline_start(inline_word(bytes)) == (if bytes.len() < WIDTH { 1int } else { 0int }),
        inline_bytes(inline_word(bytes)) == bytes,
{
    let w = inline_word(bytes);
    assert(inline_bytes(w) =~= bytes);
}

/// Two strings with the same inline word are the same string.
pub proof fn lemma_inline_word_injective(a: Seq<u8>, b: Seq<u8>)
    requires
        fits_inline(a),
        fits_inline(b),
        inline_word(a) == inline_word(b),
    ensures
        a == b,
{
    lemma_inline_round_trip(a);
    lemma_inline_round_trip(b);
}

/// The address `addr` with the heap tag: turned left by six bits, so that
/// its two free low bits come to lie on the tag bits, which are then set
/// to `10`.
pub open spec fn tagged(addr: u64) -> u64 {
    ((addr << 6) | (addr >> 58)) | PTR_TAG
}

/// The address in a heap word: the tag taken out and the turn undone.
pub open spec fn untagged(value: u64) -> u64 {
    ((value ^ PTR_TAG) >> 6) | ((value ^ PTR_TAG) << 58)
}

/// The eight bytes of `value`, least significant first.
pub open spec fn le_bytes(value: u64) -> Seq<u8> {
    seq![
        (value & 0xff) as u8,
        ((value >> 8) & 0xff) as u8,
        ((value >> 16) & 0xff) as u8,
        ((value >> 24) & 0xff) as u8,
        ((value >> 32) & 0xff) as u8,
        ((value >> 40) & 0xff) as u8,
        ((value >> 48) & 0xff) as u8,
        ((value >> 56) & 0xff) as u8,
    ]
}

/// The number whose eight bytes, least significant first, are `word`.
pub open spec fn le_value(word: Seq<u8>) -> u64 {
    (word[0] as u64) | (word[1] as u64) << 8 | (word[2] as u64) << 16 | (word[3] as u64)
        << 24 | (word[4] as u64) << 32 | (word[5] as u64) << 40 | (word[6] as u64) << 48 | (
    word[7] as u64) << 56
}


/// The discriminant is the low byte of the word's value, so the value's
/// low bits tell the form and the short length as the byte does.
pub proof fn lemma_value_tag(word: Seq<u8>)
    requires
        word.len() == WIDTH,
    ensures
        is_heap_tag(word[0]) <==> le_value(word) & TAG_MASK == PTR_TAG,
        is_short_tag(word[0]) <==> le_value(word) & INLINE_TAG == INLINE_TAG,
        is_short_tag(word[0]) ==> le_value(word) & LEN_MASK == word[0] - 0xF8,
        le_value(word) & LEN_MASK <= 7,
{
    let (b0, b1, b2, b3) = (word[0], word[1], word[2], word[3]);
    let (b4, b5, b6, b7) = (word[4], word[5], word[6], word[7]);
    let v = le_value(word);
    assert(v & 0xff == b0 as u64) by (bit_vector)
        requires
            v == (b0 as u64) | (b1 as u64) << 8 | (b2 as u64) << 16 | (b3 as u64) << 24 | (
            b4 as u64) << 32 | (b5 as u64) << 40 | (b6 as u64) << 48 | (b7 as u64) << 56,
    ;
    assert((0x80 <= b0 < 0xC0 <==> v & 0xC0 == 0x80) && (0xF8 <= b0 <==> v & 0xF8 == 0xF8) && (0xF8
        <= b0 ==> v & 0x07 == b0 - 0xF8) && v & 0x07 <= 7) by (bit_vector)
        requires
            v & 0xff == b0 as u64,
    ;
}

/// Splitting a value into bytes and joining them again changes nothing,
/// either way round.
pub proof fn lemma_le_round_trip(value: u64, word: Seq<u8>)
    requires
        word.len() == WIDTH,
    ensures
        le_bytes(value).len() == WIDTH,
        le_value(le_bytes(value)) == value,
        le_bytes(le_value(word)) == word,
{
    let (b0, b1, b2, b3) = (word[0], word[1], word[2], word[3]);
    let (b4, b5, b6, b7) = (word[4], word[5], word[6], word[7]);
    let v = le_value(word);
    assert((v & 0xff) as u8 == b0 && ((v >> 8) & 0xff) as u8 == b1 && ((v >> 16) & 0xff) as u8 == b2
        && ((v >> 24) & 0xff) as u8 == b3 && ((v >> 32) & 0xff) as u8 == b4 && ((v >> 40)
        & 0xff) as u8 == b5 && ((v >> 48) & 0xff) as u8 == b6 && ((v >> 56) & 0xff) as u8 == b7)
        by (bit_vector)
        requires
            v == (b0 as u64) | (b1 as u64) << 8 | (b2 as u64) << 16 | (b3 as u64) << 24 | (
            b4 as u64) << 32 | (b5 as u64) << 40 | (b6 as u64) << 48 | (b7 as u64) << 56,
    ;
    assert(le_bytes(v) =~= word);
    assert(value == (((value & 0xff) as u8) as u64) | (((value >> 8) & 0xff) as u8 as u64) << 8 | (((
    value >> 16) & 0xff) as u8 as u64) << 16 | (((value >> 24) & 0xff) as u8 as u64) << 24 | (((
    value >> 32) & 0xff) as u8 as u64) << 32 | (((value >> 40) & 0xff) as u8 as u64) << 40 | (((
    value >> 48) & 0xff) as u8 as u64) << 48 | (((value >> 56) & 0xff) as u8 as u64) << 56)
        by (bit_vector);
}

/// Tagging an aligned address loses nothing: the tag reads `10`, and
/// untagging gives the address back.
pub proof fn lemma_tag_round_trip(addr: u64)
    requires
        addr % HEAP_ALIGN == 0,
    ensures
        tagged(addr) & TAG_MASK == PTR_TAG,
        untagged(tagged(addr)) == addr,
{
    assert(addr % 4 == 0 ==> (((addr << 6) | (addr >> 58)) | 0x80) & 0xC0 == 0x80 && ((((addr << 6)
        | (addr >> 58)) | 0x80) ^ 0x80) >> 6 | ((((addr << 6) | (addr >> 58)) | 0x80) ^ 0x80) << 58
        == addr) by (bit_vector);
}

/// Whatever value carries the heap tag holds an aligned address, and
/// tagging that address gives the value back.
pub proof fn lemma_untag_aligned(value: u64)
    requires
        value & TAG_MASK == PTR_TAG,
    ensures
        untagged(value) % HEAP_ALIGN == 0,
        tagged(untagged(value)) == value,
{
    assert(value & 0xC0 == 0x80 ==> (((value ^ 0x80) >> 6) | ((value ^ 0x80) << 58)) % 4 == 0 && ((((
    (value ^ 0x80) >> 6) | ((value ^ 0x80) << 58)) << 6) | ((((value ^ 0x80) >> 6) | ((value ^ 0x80)
        << 58)) >> 58)) | 0x80 == value) by (bit_vector);
}

/// Folds an aligned heap address into a word value.
pub fn tag_addr(addr: u64) -> (value: u64)
    requires
        addr % HEAP_ALIGN == 0,
    ensures
        value == tagged(addr),
        value & TAG_MASK == PTR_TAG,
        untagged(value) == addr,
{
    proof {
        lemma_tag_round_trip(addr);
    }
    ((addr << 6) | (addr >> 58)) | PTR_TAG
}

/// Recovers the heap address from a word value that carries the heap tag.
pub fn untag_addr(value: u64) -> (addr: u64)
    requires
        value & TAG_MASK == PTR_TAG,
    ensures
        addr == untagged(value),
        addr % HEAP_ALIGN == 0,
        tagged(addr) == value,
{
    proof {
        lemma_untag_aligned(value);
    }
    let bare = value ^ PTR_TAG;
    (bare >> 6) | (bare << 58)
}

/// Splits a word value into its bytes, least significant first.
pub fn to_le(value: u64) -> (word: [u8; WIDTH])
    ensures
        word@ == le_bytes(value),
{
    let mut word = [0u8; WIDTH];
    word[0] = (value & 0xff) as u8;
    word[1] = ((value >> 8) & 0xff) as u8;
    word[2] = ((value >> 16) & 0xff) as u8;
    word[3] = ((value >> 24) & 0xff) as u8;
    word[4] = ((value >> 32) & 0xff) as u8;
    word[5] = ((value >> 40) & 0xff) as u8;
    word[6] = ((value >> 48) & 0xff) as u8;
    word[7] = ((value >> 56) & 0xff) as u8;
    assert(word@ =~= le_bytes(value));
    word
}

/// Joins the bytes of a word, least significant first, into its value.
pub fn from_le(word: &[u8; WIDTH]) -> (value: u64)
    ensures
        value == le_value(word@),
{
    (word[0] as u64) | (word[1] as u64) << 8 | (word[2] as u64) << 16 | (word[3] as u64) << 24 | (
    word[4] as u64) << 32 | (word[5] as u64) << 40 | (word[6] as u64) << 48 | (word[7] as u64) << 56
}

/// The encoded word: `WIDTH` bytes with no alignment of their own, so that
/// a record that embeds it pays no padding. It holds a short string whole,
/// or stands for a heap block by that block's tagged address.
#[derive(Clone, Copy, Debug)]
pub struct EncodedWord {
    bytes: [u8; WIDTH],
}

impl View for EncodedWord {
    type V = Seq<u8>;

    /// The bytes of the word, the discriminant first.
    closed spec fn view(&self) -> Seq<u8> {
        self.bytes@
    }
}

impl EncodedWord {
    /// Every word has `WIDTH` bytes.
    pub proof fn lemma_width(self)
        ensures
            self@.len() == WIDTH,
    {
    }

    /// The word made of `bytes`.
    pub fn from_bytes(bytes: [u8; WIDTH]) -> (word: Self)
        ensures
            word@ == bytes@,
    {
        Self { bytes }
    }

    /// The bytes of the word.
    pub fn to_bytes(&self) -> (bytes: [u8; WIDTH])
        ensures
            bytes@ == self@,
    {
        self.bytes
    }

    /// The word that stands for the heap block at `addr`.
    pub fn from_addr(addr: u64) -> (word: Self)
        requires
            addr % HEAP_ALIGN == 0,
        ensures
            word@ == le_bytes(tagged(addr)),
            is_heap_tag(word@[0]),
            untagged(le_value(word@)) == addr,
    {
        let value = tag_addr(addr);
        let bytes = to_le(value);
        proof {
            lemma_le_round_trip(value, bytes@);
            lemma_value_tag(bytes@);
        }
        Self { bytes }
    }

    /// The value of the word, its first byte lowest.
    pub fn addr(&self) -> (value: u64)
        ensures
            value == le_value(self@),
    {
        from_le(&self.bytes)
    }

    /// The two tag bits of the discriminant.
    pub fn tag(&self) -> (t: u64)
        ensures
            t == le_value(self@) & TAG_MASK,
            (t == PTR_TAG) == is_heap_tag(self@[0]),
    {
        proof {
            lemma_value_tag(self@);
        }
        self.addr() & TAG_MASK
    }

    /// Whether the word holds its string itself: the discriminant is not
    /// of the form `10xxxxxx`.
    pub fn is_inline(&self) -> (b: bool)
        ensures
            b == !is_heap_tag(self@[0]),
    {
        self.tag() != PTR_TAG
    }

    /// The address in a heap word. It is a multiple of `HEAP_ALIGN`, and the
    /// word is that address tagged.
    pub fn heap_addr(&self) -> (addr: u64)
        requires
            is_heap_tag(self@[0]),
        ensures
            addr == untagged(le_value(self@)),
            addr % HEAP_ALIGN == 0,
            le_bytes(tagged(addr)) == self@,
    {
        proof {
            lemma_value_tag(self@);
            lemma_le_round_trip(0, self@);
        }
        untag_addr(self.addr())
    }

    /// The length that the word holds, read as an inline word: the count
    /// in a short discriminant, and `WIDTH` under any other.
    pub fn inline_len(&self) -> (len: usize)
        ensures
            len == inline_len(self@),
    {
        proof {
            lemma_value_tag(self@);
        }
        let addr = self.addr();
        if addr & INLINE_TAG == INLINE_TAG {
            (addr & LEN_MASK) as usize
        } else {
            WIDTH
        }
    }

    /// The bytes of the string in an inline word, as a view into the word.
    pub fn decode_inline(&self) -> (bytes: &[u8])
        ensures
            bytes@ == inline_bytes(self@),
    {
        let len = self.inline_len();
        let start: usize = if len < WIDTH {
            1
        } else {
            0
        };
        vstd::slice::slice_subrange(self.bytes.as_slice(), start, start + len)
    }
}

} // verus!
