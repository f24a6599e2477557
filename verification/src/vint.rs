//! Variable-length integers: seven value bits per byte, least significant
//! group first, with the top bit of a byte set while more bytes follow.

use vstd::arithmetic::power2::{lemma2_to64, lemma2_to64_rest, lemma_pow2_adds, pow2};
use vstd::bits::lemma_u64_shl_is_mul;
use vstd::prelude::*;

verus! {

/// The most bytes any 64-bit value takes.
pub const MAX_LEN: usize = 10;

/// The codec's namespace.
pub struct VarInt;

/// The bytes that stand for `value`.
pub open spec fn encoding(value: nat) -> Seq<u8>
    decreases value,
{
    if value < 128 {
        seq![value as u8]
    } else {
        seq![(value % 128 + 128) as u8] + encoding(value / 128)
    }
}

/// The number that the seven low bits of each byte of `bytes` spell,
/// least significant group first.
pub open spec fn decoding(bytes: Seq<u8>) -> nat
    decreases bytes.len(),
{
    if bytes.len() == 0 {
        0
    } else {
        (bytes[0] % 128) as nat + 128 * decoding(bytes.drop_first())
    }
}

/// How many bytes a reader takes from the front of `bytes`: up to and
/// including the first byte whose top bit is clear, or all of them where
/// there is no such byte.
pub open spec fn header_len(bytes: Seq<u8>) -> nat
    decreases bytes.len(),
{
    if bytes.len() == 0 {
        0
    } else if bytes[0] < 128 {
        1
    } else {
        1 + header_len(bytes.drop_first())
    }
}

/// Whether a byte with a clear top bit stands among the first `MAX_LEN`
/// bytes of `bytes`.
pub open spec fn terminated(bytes: Seq<u8>) -> bool {
    exists|k: int| 0 <= k < bytes.len() && k < MAX_LEN && #[trigger] bytes[k] < 128
}


/// Taking a byte off the front of a sequence that a byte was put in front of
/// gives the sequence back.
proof fn lemma_drop_first_of_prepend(b: u8, rest: Seq<u8>)
    ensures
        (seq![b] + rest).drop_first() == rest,
        (seq![b] + rest)[0] == b,
        (seq![b] + rest).len() == rest.len() + 1,
{
    assert((seq![b] + rest).drop_first() =~= rest);
}

/// A further group of seven bits goes in above those already read.
proof fn lemma_decoding_push(bytes: Seq<u8>, b: u8)
    ensures
        decoding(bytes.push(b)) == decoding(bytes) + (b % 128) * pow2(7 * bytes.len()),
    decreases bytes.len(),
{
    lemma2_to64();
    let pushed = bytes.push(b);
    if bytes.len() == 0 {
        assert(pushed.drop_first() =~= Seq::<u8>::empty());
        assert(decoding(pushed.drop_first()) == 0);
        assert(pushed[0] == b);
        assert(decoding(pushed) == (b % 128) as nat + 128 * decoding(pushed.drop_first()));
        assert(decoding(bytes) == 0);
    } else {
        let rest = bytes.drop_first();
        let p = pow2(7 * rest.len());
        let c = (b % 128) as int;
        assert(pushed.drop_first() =~= rest.push(b));
        assert(pushed[0] == bytes[0]);
        lemma_decoding_push(rest, b);
        lemma_pow2_adds(7, 7 * rest.len());
        assert(7 + 7 * rest.len() == 7 * bytes.len());
        assert(pow2(7 * bytes.len()) == 128 * p);
        assert(128 * (c * p) == c * (128 * p)) by (nonlinear_arith);
        assert(decoding(pushed) == (bytes[0] % 128) as nat + 128 * decoding(rest.push(b)));
        assert(decoding(rest.push(b)) == decoding(rest) + c * p);
        assert(decoding(bytes) == (bytes[0] % 128) as nat + 128 * decoding(rest));
    }
}

/// What `n` bytes spell lies below two to the power of seven times `n`.
proof fn lemma_decoding_bound(bytes: Seq<u8>)
    ensures
        decoding(bytes) < pow2(7 * bytes.len()),
    decreases bytes.len(),
{
    lemma2_to64();
    if bytes.len() > 0 {
        let rest = bytes.drop_first();
        lemma_decoding_bound(rest);
        lemma_pow2_adds(7, 7 * rest.len());
        assert(7 + 7 * rest.len() == 7 * bytes.len());
    }
}

/// A value below two to the power of seven times `n` takes at most `n` bytes.
proof fn lemma_encoding_len(value: nat, n: nat)
    requires
        n >= 1,
        value < pow2(7 * n),
    ensures
        1 <= encoding(value).len() <= n,
    decreases n,
{
    lemma2_to64();
    if value >= 128 {
        lemma_pow2_adds(7, (7 * (n - 1)) as nat);
        assert(7 + 7 * (n - 1) == 7 * n);
        if n == 1 {
            assert(pow2(7) == 128);
        } else {
            lemma_encoding_len(value / 128, (n - 1) as nat);
        }
    }
}

/// The encoding ends where a reader stops: every byte but the last carries
/// the continuation bit, and the last does not. Whatever follows it is not
/// taken.
pub proof fn lemma_encoding_is_header(value: nat, tail: Seq<u8>)
    ensures
        header_len(encoding(value) + tail) == encoding(value).len(),
        encoding(value).len() >= 1,
        encoding(value).last() < 128,
        forall|j: int| 0 <= j < encoding(value).len() - 1 ==> #[trigger] encoding(value)[j] >= 128,
    decreases value,
{
    let e = encoding(value);
    if value < 128 {
        assert((e + tail)[0] == e[0]);
    } else {
        let b = (value % 128 + 128) as u8;
        let rest = encoding(value / 128);
        lemma_encoding_is_header(value / 128, tail);
        lemma_drop_first_of_prepend(b, rest);
        assert((e + tail).drop_first() =~= rest + tail);
        assert((e + tail)[0] == b);
        assert forall|j: int| 0 <= j < e.len() - 1 implies #[trigger] e[j] >= 128 by {
            if j > 0 {
                assert(e[j] == rest[j - 1]);
            }
        }
        assert(e.last() == rest.last());
    }
}

/// Decoding undoes encoding.
pub proof fn lemma_decoding_of_encoding(value: nat)
    ensures
        decoding(encoding(value)) == value,
    decreases value,
{
    if value < 128 {
        assert(encoding(value).drop_first() =~= Seq::<u8>::empty());
        assert(decoding(encoding(value).drop_first()) == 0);
    } else {
        let b = (value % 128 + 128) as u8;
        lemma_decoding_of_encoding(value / 128);
        lemma_drop_first_of_prepend(b, encoding(value / 128));
    }
}

/// Every 64-bit value round-trips: its encoding has between one and ten
/// bytes, a reader stops exactly at its end whatever follows, and what it
/// reads back is the value.
pub proof fn lemma_round_trip(value: u64, tail: Seq<u8>)
    ensures
        1 <= encoding(value as nat).len() <= MAX_LEN,
        terminated(encoding(value as nat) + tail),
        header_len(encoding(value as nat) + tail) == encoding(value as nat).len(),
        (encoding(value as nat) + tail).take(encoding(value as nat).len() as int) == encoding(
            value as nat,
        ),
        decoding(encoding(value as nat)) == value,
{
    let e = encoding(value as nat);
    lemma2_to64_rest();
    lemma_pow2_adds(64, 6);
    lemma2_to64();
    assert(pow2(70) == pow2(64) * 64);
    lemma_encoding_len(value as nat, 10);
    lemma_encoding_is_header(value as nat, tail);
    lemma_decoding_of_encoding(value as nat);
    let k = e.len() - 1;
    assert((e + tail)[k] == e.last());
    assert((e + tail).take(e.len() as int) =~= e);
}

impl VarInt {
    /// Writes the encoding of `value` to the front of `buf` and returns how
    /// many bytes it took. The bytes behind it stay as they were.
    pub fn write(value: u64, buf: &mut [u8; 10]) -> (written: usize)
        ensures
            1 <= written <= MAX_LEN,
            written == encoding(value as nat).len(),
            final(buf)@.take(written as int) == encoding(value as nat),
            forall|j: int| written <= j < MAX_LEN ==> final(buf)[j] == old(buf)[j],
    {
        let ghost before = *buf;
        let mut value = value;
        let ghost whole = value;
        let mut i: usize = 0;
        assert(u64::MAX >> 0u64 == u64::MAX) by (bit_vector);
        loop
            invariant_except_break
                i <= 9,
                value <= u64::MAX >> ((7 * i) as u64),
                buf@.take(i as int) + encoding(value as nat) == encoding(whole as nat),
                forall|j: int| i <= j < MAX_LEN ==> buf[j] == before[j],
            ensures
                1 <= i <= MAX_LEN,
                buf@.take(i as int) == encoding(whole as nat),
                forall|j: int| i <= j < MAX_LEN ==> buf[j] == before[j],
            decreases 10 - i,
        {
            let ghost prev = value;
            let ghost taken = buf@.take(i as int);
            let ghost s: u64 = (7 * i) as u64;
            assert((value & 0x7F) < 128) by (bit_vector);
            let mut byte: u8 = (value & 0x7F) as u8;
            value >>= 7;
            assert(byte == prev % 128 && value == prev / 128 && (value != 0 <==> prev >= 128)) by {
                assert((prev & 0x7F) == prev % 128 && (prev & 0x7F) < 128 && prev >> 7 == prev
                    / 128) by (bit_vector);
            }
            assert(value != 0 ==> s <= 56 && value <= u64::MAX >> ((s + 7) as u64)) by {
                assert(prev <= u64::MAX >> s && s <= 63 && s % 7 == 0 && prev >> 7 != 0 ==> s <= 56
                    && prev >> 7 <= u64::MAX >> ((s + 7) as u64)) by (bit_vector);
            }
            if value != 0 {
                let ghost low = byte;
                byte |= 0x80;
                assert(byte == low + 128) by {
                    assert(low < 128 ==> low | 0x80 == low + 128) by (bit_vector);
                }
            }
            buf[i] = byte;
            i += 1;
            proof {
                assert(buf@.take(i as int) =~= taken.push(byte));
                assert(taken.push(byte) + encoding(value as nat) =~= taken + (seq![byte]
                    + encoding(value as nat)));
                if value == 0 {
                    assert(encoding(prev as nat) =~= seq![byte]);
                    assert(taken.push(byte) =~= taken + seq![byte]);
                }
            }
            if value == 0 {
                break ;
            }
        }
        i
    }

    /// Reads one encoded value from the front of `buf`: the value, and how
    /// many bytes it took. A tenth byte contributes its lowest bit only, the
    /// rest of it lying beyond 64 bits.
    pub fn read(buf: &[u8]) -> (r: (u64, usize))
        requires
            terminated(buf@),
        ensures
            1 <= r.1 <= MAX_LEN,
            r.1 <= buf.len(),
            r.1 == header_len(buf@),
            r.0 == decoding(buf@.take(r.1 as int)) % 0x1_0000_0000_0000_0000,
    {
        let mut result: u64 = 0;
        let mut shift: u32 = 0;
        let mut i: usize = 0;
        let ghost stop: int = choose|k: int| 0 <= k < buf.len() && k < MAX_LEN && #[trigger] buf@[k] < 128;
        proof {
            lemma2_to64();
            assert(buf@.skip(0) =~= buf@);
            assert(buf@.take(0) =~= Seq::<u8>::empty());
        }
        loop
            invariant_except_break
                0 <= stop < buf.len(),
                stop < MAX_LEN,
                buf@[stop] < 128,
                i <= stop,
                shift == 7 * i,
                forall|j: int| 0 <= j < i ==> #[trigger] buf@[j] >= 128,
                header_len(buf@) == i + header_len(buf@.skip(i as int)),
                result == decoding(buf@.take(i as int)),
            ensures
                1 <= i <= MAX_LEN,
                i <= buf.len(),
                i == header_len(buf@),
                result == decoding(buf@.take(i as int)) % 0x1_0000_0000_0000_0000,
            decreases 10 - i,
        {
            let byte = buf[i];
            let ghost prev = result;
            let ghost taken = buf@.take(i as int);
            let chunk: u64 = (byte & 0x7F) as u64;
            result |= chunk << shift;
            proof {
                let s: u64 = shift as u64;
                assert(chunk == byte % 128) by {
                    assert((byte & 0x7F) == byte % 128) by (bit_vector);
                }
                lemma_decoding_bound(taken);
                lemma_decoding_push(taken, byte);
                assert(buf@.take(i + 1) =~= taken.push(byte));
                lemma2_to64();
                lemma2_to64_rest();
                assert(pow2(s as nat) <= pow2(63)) by {
                    if s < 63 {
                        vstd::arithmetic::power2::lemma_pow2_strictly_increases(s as nat, 63);
                    }
                }
                lemma_u64_shl_is_mul(1, s);
                let unit: u64 = 1u64 << s;
                assert(unit == pow2(s as nat));
                assert((prev | (chunk << s)) == (prev + chunk * unit) % 0x1_0000_0000_0000_0000)
                    by (bit_vector)
                    requires
                        s <= 63,
                        unit == 1u64 << s,
                        prev < unit,
                        chunk < 128,
                ;
                assert(buf@.skip(i as int).drop_first() =~= buf@.skip(i + 1));
                assert(buf@.skip(i as int)[0] == byte);
                if byte >= 128 {
                    assert(i < stop);
                    assert(s <= 56);
                    vstd::arithmetic::power2::lemma_pow2_adds(s as nat, 7);
                    assert(chunk * unit <= 127 * unit) by (nonlinear_arith)
                        requires
                            chunk <= 127,
                            unit >= 0,
                    ;
                    assert(pow2((s + 7) as nat) <= pow2(63)) by {
                        if s + 7 < 63 {
                            vstd::arithmetic::power2::lemma_pow2_strictly_increases(
                                (s + 7) as nat,
                                63,
                            );
                        }
                    }
                }
            }
            shift += 7;
            i += 1;
            if byte & 0x80 == 0 {
                proof {
                    assert(byte & 0x80 == 0 ==> byte < 128) by (bit_vector);
                }
                break ;
            }
            proof {
                assert(byte & 0x80 != 0 ==> byte >= 128) by (bit_vector);
            }
        }
        (result, i)
    }
}

} // verus!
