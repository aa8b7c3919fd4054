//! Bit-level reading of primitive scalars: how a run of raw bytes becomes an
//! unsigned or signed number, a boolean or a character.

use vstd::arithmetic::power2::{lemma2_to64, lemma2_to64_rest, lemma_pow2_adds, lemma_pow2_pos, pow2};
use vstd::prelude::*;

verus! {

/// The natural number that a little-endian byte string denotes: the first
/// byte is the least significant one.
pub open spec fn le_value(bytes: Seq<u8>) -> nat
    decreases bytes.len(),
{
    if bytes.len() == 0 {
        0
    } else {
        bytes[0] as nat + 256 * le_value(bytes.drop_first())
    }
}

/// Two's complement reading of `raw` as a signed number of `bits` bits.
pub open spec fn signed_value(raw: nat, bits: nat) -> int
    recommends
        raw < pow2(bits),
{
    if bits > 0 && raw >= pow2((bits - 1) as nat) {
        raw - pow2(bits)
    } else {
        raw as int
    }
}

/// The low 64 bits of a number.
pub open spec fn low64(n: nat) -> nat {
    n % 0x1_0000_0000_0000_0000
}

/// A byte string of `n` bytes denotes a number below `2^(8n)`.
pub proof fn lemma_le_value_bound(bytes: Seq<u8>)
    ensures
        le_value(bytes) < pow2(8 * bytes.len()),
    decreases bytes.len(),
{
    lemma2_to64();
    if bytes.len() == 0 {
    } else {
        let rest = bytes.drop_first();
        lemma_le_value_bound(rest);
        lemma_pow2_adds(8, 8 * rest.len());
        assert(8 * bytes.len() == 8 + 8 * rest.len());
        let hi = le_value(rest);
        let p = pow2(8 * rest.len());
        assert(256 * hi + 256 <= 256 * p) by (nonlinear_arith)
            requires
                hi < p,
        ;
    }
}

/// Appending bytes adds their value, shifted past the bytes before them.
pub proof fn lemma_le_value_concat(low: Seq<u8>, high: Seq<u8>)
    ensures
        le_value(low + high) == le_value(low) + pow2(8 * low.len()) * le_value(high),
    decreases low.len(),
{
    lemma2_to64();
    let h = le_value(high);
    if low.len() == 0 {
        assert(low + high =~= high);
        assert(pow2(8 * low.len()) == 1);
        assert(1 * h == h);
    } else {
        let rest = low.drop_first();
        lemma_le_value_concat(rest, high);
        assert((low + high).drop_first() =~= rest + high);
        assert((low + high)[0] == low[0]);
        lemma_pow2_adds(8, 8 * rest.len());
        assert(8 * low.len() == 8 + 8 * rest.len());
        let p = pow2(8 * rest.len());
        let r = le_value(rest);
        assert(pow2(8 * low.len()) == 256 * p);
        assert(256 * (r + p * h) == 256 * r + (256 * p) * h) by (nonlinear_arith);
    }
}

/// The first eight bytes of a longer little-endian number hold its low 64 bits.
pub proof fn lemma_le_value_low64(bytes: Seq<u8>)
    requires
        bytes.len() >= 8,
    ensures
        le_value(bytes.subrange(0, 8)) == low64(le_value(bytes)),
{
    let low = bytes.subrange(0, 8);
    let high = bytes.subrange(8, bytes.len() as int);
    assert(bytes =~= low + high);
    lemma_le_value_concat(low, high);
    lemma_le_value_bound(low);
    lemma2_to64();
    lemma2_to64_rest();
    let l = le_value(low);
    let h = le_value(high);
    assert(pow2(64) == 0x1_0000_0000_0000_0000);
    assert((l + 0x1_0000_0000_0000_0000 * h) % 0x1_0000_0000_0000_0000 == l) by (nonlinear_arith)
        requires
            0 <= l < 0x1_0000_0000_0000_0000,
            0 <= h,
    ;
}

/// Reads the bytes from `start` up to `end`, at most eight of them, as a
/// little-endian unsigned number.
pub fn uint_from_le(bytes: &Vec<u8>, start: usize, end: usize) -> (value: u64)
    requires
        start <= end <= bytes.len(),
        end - start <= 8,
    ensures
        value == le_value(bytes@.subrange(start as int, end as int)),
{
    let mut value: u64 = 0;
    let mut i: usize = end;
    proof {
        assert(bytes@.subrange(i as int, end as int) =~= Seq::<u8>::empty());
    }
    while i > start
        invariant
            start <= i <= end <= bytes.len(),
            end - start <= 8,
            value == le_value(bytes@.subrange(i as int, end as int)),
        decreases i,
    {
        let ghost tail = bytes@.subrange(i as int, end as int);
        i = i - 1;
        proof {
            let next = bytes@.subrange(i as int, end as int);
            assert(next.drop_first() =~= tail);
            lemma_le_value_bound(tail);
            lemma2_to64();
            lemma2_to64_rest();
            assert(tail.len() <= 7);
            assert(pow2(8 * tail.len()) <= pow2(56)) by {
                if 8 * tail.len() < 56 {
                    vstd::arithmetic::power2::lemma_pow2_strictly_increases(8 * tail.len(), 56);
                }
            }
        }
        value = value * 256 + bytes[i] as u64;
    }
    value
}

/// Reads `raw`, a pattern of `width` bytes, as a two's complement number.
pub fn sign_extend(raw: u64, width: usize) -> (value: i64)
    requires
        1 <= width <= 8,
        raw < pow2(8 * width as nat),
    ensures
        value == signed_value(raw as nat, 8 * width as nat),
{
    proof {
        lemma2_to64();
        lemma2_to64_rest();
    }
    if width == 8 {
        if raw >= 0x8000_0000_0000_0000 {
            let low: u64 = raw - 0x8000_0000_0000_0000;
            (low as i64) + i64::MIN
        } else {
            raw as i64
        }
    } else {
        let half: u64 = if width == 1 {
            0x80
        } else if width == 2 {
            0x8000
        } else if width == 3 {
            0x80_0000
        } else if width == 4 {
            0x8000_0000
        } else if width == 5 {
            0x80_0000_0000
        } else if width == 6 {
            0x8000_0000_0000
        } else {
            0x80_0000_0000_0000
        };
        if raw >= half {
            (raw as i64) - (half as i64) - (half as i64)
        } else {
            raw as i64
        }
    }
}

/// The unsigned number that the bytes of an integer hold, cut to its low 64
/// bits where the integer is wider.
pub open spec fn uint_of(bytes: Seq<u8>) -> u64 {
    low64(le_value(bytes)) as u64
}

/// The signed number that the bytes of an integer hold, in two's complement;
/// of an integer wider than 64 bits, its low 64 bits.
pub open spec fn int_of(bytes: Seq<u8>) -> i64 {
    signed_value(
        low64(le_value(bytes)),
        if bytes.len() >= 8 {
            64
        } else {
            8 * bytes.len()
        },
    ) as i64
}

/// A number below `2^64` is its own low 64 bits.
pub proof fn lemma_short_value(bytes: Seq<u8>)
    requires
        bytes.len() <= 8,
    ensures
        le_value(bytes) < pow2(8 * bytes.len()) <= 0x1_0000_0000_0000_0000,
        low64(le_value(bytes)) == le_value(bytes),
{
    lemma_le_value_bound(bytes);
    lemma2_to64();
    lemma2_to64_rest();
    if 8 * bytes.len() < 64 {
        vstd::arithmetic::power2::lemma_pow2_strictly_increases(8 * bytes.len(), 64);
    }
}

/// Reads the bytes of an unsigned integer.
pub fn read_uint(bytes: &Vec<u8>) -> (value: u64)
    ensures
        value == uint_of(bytes@),
{
    if bytes.len() <= 8 {
        proof {
            lemma_short_value(bytes@);
            assert(bytes@.subrange(0, bytes.len() as int) =~= bytes@);
        }
        uint_from_le(bytes, 0, bytes.len())
    } else {
        proof {
            lemma_le_value_low64(bytes@);
        }
        uint_from_le(bytes, 0, 8)
    }
}

/// Reads the bytes of a signed integer.
pub fn read_int(bytes: &Vec<u8>) -> (value: i64)
    ensures
        value == int_of(bytes@),
{
    let raw = read_uint(bytes);
    proof {
        lemma2_to64();
        lemma2_to64_rest();
        if bytes.len() <= 8 {
            lemma_short_value(bytes@);
        }
    }
    if bytes.len() == 0 {
        0
    } else if bytes.len() >= 8 {
        sign_extend(raw, 8)
    } else {
        sign_extend(raw, bytes.len())
    }
}

/// Whether `code` is a Unicode scalar value: a code point that is no surrogate.
pub open spec fn is_scalar_value(code: u32) -> bool {
    code <= 0xD7FF || (0xE000 <= code <= 0x10FFFF)
}

/// `char::from_u32` of std: the character with the given number, where the
/// number is a Unicode scalar value, and nothing where it is not.
#[verifier::external_body]
pub(crate) fn char_from_u32(code: u32) -> (c: Option<char>)
    ensures
        c == (if is_scalar_value(code) {
            Some(code as char)
        } else {
            None
        }),
{
    char::from_u32(code)
}

/// `char::to_string` of std: the text that holds the one character.
#[verifier::external_body]
pub(crate) fn char_to_string(c: char) -> (text: String)
    ensures
        text@ == seq![c],
{
    c.to_string()
}

/// `String::from_utf8` of std: the text that the bytes encode, where they
/// are valid UTF-8, and nothing where they are not.
#[verifier::external_body]
pub(crate) fn string_from_utf8(bytes: Vec<u8>) -> (text: Option<String>)
    ensures
        match text {
            Some(t) => vstd::utf8::valid_utf8(bytes@) && t@ == vstd::utf8::decode_utf8(bytes@),
            None => !vstd::utf8::valid_utf8(bytes@),
        },
{
    String::from_utf8(bytes).ok()
}

/// Sign bit of a single-precision bit pattern.
pub open spec fn f32_sign(bits: u32) -> nat {
    (bits / 0x8000_0000) as nat
}

/// Biased exponent of a single-precision bit pattern.
pub open spec fn f32_exponent(bits: u32) -> nat {
    ((bits / 0x80_0000) % 0x100) as nat
}

/// Fraction field of a single-precision bit pattern.
pub open spec fn f32_fraction(bits: u32) -> nat {
    (bits % 0x80_0000) as nat
}

/// Sign bit of a double-precision bit pattern.
pub open spec fn f64_sign(bits: u64) -> nat {
    (bits / 0x8000_0000_0000_0000) as nat
}

/// Biased exponent of a double-precision bit pattern.
pub open spec fn f64_exponent(bits: u64) -> nat {
    ((bits / 0x10_0000_0000_0000) % 0x800) as nat
}

/// Fraction field of a double-precision bit pattern.
pub open spec fn f64_fraction(bits: u64) -> nat {
    (bits % 0x10_0000_0000_0000) as nat
}

/// The double-precision bit pattern with the given fields.
pub open spec fn f64_pack(sign: nat, exponent: nat, fraction: nat) -> nat {
    sign * 0x8000_0000_0000_0000 + exponent * 0x10_0000_0000_0000 + fraction
}

/// Position of the highest bit that is set in `n`, counted from 0.
pub open spec fn top_bit(n: nat) -> nat
    decreases n,
{
    if n <= 1 {
        0
    } else {
        1 + top_bit(n / 2)
    }
}

/// The double-precision pattern of the number that a single-precision
/// pattern denotes. Zeros and infinities keep their sign; a subnormal single
/// becomes a normal double; a NaN becomes a quiet NaN that keeps sign and
/// payload.
pub open spec fn widen_f32_spec(bits: u32) -> nat {
    let sign = f32_sign(bits);
    let exponent = f32_exponent(bits);
    let fraction = f32_fraction(bits);
    if exponent == 0xff {
        if fraction == 0 || fraction >= 0x40_0000 {
            f64_pack(sign, 0x7ff, fraction * 0x2000_0000)
        } else {
            f64_pack(sign, 0x7ff, fraction * 0x2000_0000 + 0x8_0000_0000_0000)
        }
    } else if exponent == 0 {
        if fraction == 0 {
            f64_pack(sign, 0, 0)
        } else {
            let p = top_bit(fraction);
            f64_pack(sign, p + 874, ((fraction - pow2(p)) * pow2((52 - p) as nat)) as nat)
        }
    } else {
        f64_pack(sign, exponent + 896, fraction * 0x2000_0000)
    }
}

/// The highest set bit of a positive number brackets it between two
/// neighbouring powers of two.
pub proof fn lemma_top_bit_bounds(n: nat)
    requires
        n >= 1,
    ensures
        pow2(top_bit(n)) <= n < pow2(top_bit(n) + 1),
    decreases n,
{
    lemma2_to64();
    if n > 1 {
        lemma_top_bit_bounds(n / 2);
        let p = top_bit(n / 2);
        vstd::arithmetic::power2::lemma_pow2_unfold(p + 1);
        vstd::arithmetic::power2::lemma_pow2_unfold(p + 2);
    }
}

/// Only one power of two brackets a number from below.
pub proof fn lemma_top_bit_unique(n: nat, p: nat)
    requires
        pow2(p) <= n < pow2(p + 1),
    ensures
        top_bit(n) == p,
{
    lemma_pow2_pos(p);
    lemma_top_bit_bounds(n);
    let q = top_bit(n);
    if q < p {
        if q + 1 < p {
            vstd::arithmetic::power2::lemma_pow2_strictly_increases(q + 1, p);
        }
    } else if p < q {
        if p + 1 < q {
            vstd::arithmetic::power2::lemma_pow2_strictly_increases(p + 1, q);
        }
    }
}

/// Widens a single-precision bit pattern to the double-precision pattern of
/// the same number.
pub fn widen_f32(bits: u32) -> (wide: u64)
    ensures
        wide == widen_f32_spec(bits),
{
    let sign: u64 = (bits / 0x8000_0000) as u64;
    let exponent: u64 = ((bits / 0x80_0000) % 0x100) as u64;
    let fraction: u64 = (bits % 0x80_0000) as u64;
    let high: u64 = sign * 0x8000_0000_0000_0000;
    if exponent == 0xff {
        if fraction == 0 || fraction >= 0x40_0000 {
            high + 0x7ff * 0x10_0000_0000_0000 + fraction * 0x2000_0000
        } else {
            high + 0x7ff * 0x10_0000_0000_0000 + fraction * 0x2000_0000 + 0x8_0000_0000_0000
        }
    } else if exponent == 0 {
        if fraction == 0 {
            high
        } else {
            let mut scaled: u64 = fraction;
            let mut biased: u64 = 897;
            let ghost mut shift: nat = 0;
            proof {
                lemma2_to64();
            }
            while scaled < 0x80_0000
                invariant
                    1 <= fraction < 0x80_0000,
                    shift <= 23,
                    scaled == fraction * pow2(shift),
                    1 <= scaled < 0x100_0000,
                    biased == 897 - shift,
                decreases 23 - shift,
            {
                proof {
                    lemma2_to64();
                    vstd::arithmetic::power2::lemma_pow2_unfold(shift + 1);
                    assert(fraction * pow2(shift + 1) == 2 * (fraction * pow2(shift)))
                        by (nonlinear_arith)
                        requires
                            pow2(shift + 1) == 2 * pow2(shift),
                    ;
                    if shift == 23 {
                        assert(fraction * pow2(23) >= pow2(23)) by (nonlinear_arith)
                            requires
                                fraction >= 1,
                        ;
                    }
                    shift = shift + 1;
                }
                scaled = scaled * 2;
                biased = biased - 1;
            }
            proof {
                let p = top_bit(fraction as nat);
                lemma_top_bit_bounds(fraction as nat);
                lemma_pow2_adds(p, shift);
                lemma_pow2_adds(p + 1, shift);
                let k = pow2(shift);
                lemma_pow2_pos(shift);
                assert(pow2(p) * k <= fraction * k < pow2(p + 1) * k) by (nonlinear_arith)
                    requires
                        pow2(p) <= fraction < pow2(p + 1),
                        k > 0,
                ;
                assert(pow2(p + shift) <= scaled < pow2(p + shift + 1));
                lemma_top_bit_unique(scaled as nat, p + shift);
                lemma_top_bit_unique(scaled as nat, 23);
                assert(p + shift == 23);
                // (fraction - 2^p) * 2^(52 - p) == (scaled - 2^23) * 2^29
                lemma_pow2_adds(shift, 29);
                assert(pow2((52 - p) as nat) == k * 0x2000_0000);
                assert(pow2(p) * k == 0x80_0000);
                assert((fraction - pow2(p)) * (k * 0x2000_0000) == (fraction * k - pow2(p) * k)
                    * 0x2000_0000) by (nonlinear_arith);
            }
            high + biased * 0x10_0000_0000_0000 + (scaled - 0x80_0000) * 0x2000_0000
        }
    } else {
        high + (exponent + 896) * 0x10_0000_0000_0000 + fraction * 0x2000_0000
    }
}

/// Significand of the number that a finite single-precision pattern denotes:
/// the number is `significand * 2^scale`, negated where the sign bit is set.
pub open spec fn f32_significand(bits: u32) -> nat {
    if f32_exponent(bits) == 0 {
        f32_fraction(bits)
    } else {
        0x80_0000 + f32_fraction(bits)
    }
}

/// Power of two by which the significand of a finite single is scaled.
pub open spec fn f32_scale(bits: u32) -> int {
    if f32_exponent(bits) == 0 {
        -149
    } else {
        f32_exponent(bits) - 150
    }
}

/// Significand of the number that a finite double-precision pattern denotes.
pub open spec fn f64_significand(bits: u64) -> nat {
    if f64_exponent(bits) == 0 {
        f64_fraction(bits)
    } else {
        0x10_0000_0000_0000 + f64_fraction(bits)
    }
}

/// Power of two by which the significand of a finite double is scaled.
pub open spec fn f64_scale(bits: u64) -> int {
    if f64_exponent(bits) == 0 {
        -1074
    } else {
        f64_exponent(bits) - 1075
    }
}

/// The fields of a packed double are the ones it was packed from.
pub proof fn lemma_f64_pack_fields(sign: nat, exponent: nat, fraction: nat)
    requires
        sign <= 1,
        exponent < 0x800,
        fraction < 0x10_0000_0000_0000,
    ensures
        f64_pack(sign, exponent, fraction) <= u64::MAX,
        f64_sign(f64_pack(sign, exponent, fraction) as u64) == sign,
        f64_exponent(f64_pack(sign, exponent, fraction) as u64) == exponent,
        f64_fraction(f64_pack(sign, exponent, fraction) as u64) == fraction,
{
}

/// Widening keeps the number: the sign bit stays, a zero stays a zero, an
/// infinity stays an infinity, a NaN stays a NaN, and a finite single and its
/// widened double denote the same multiple of a power of two.
pub proof fn lemma_widen_f32_keeps_value(bits: u32)
    ensures
        widen_f32_spec(bits) <= u64::MAX,
        f64_sign(widen_f32_spec(bits) as u64) == f32_sign(bits),
        f32_exponent(bits) == 0xff <==> f64_exponent(widen_f32_spec(bits) as u64) == 0x7ff,
        f32_exponent(bits) == 0xff ==> (f32_fraction(bits) == 0 <==> f64_fraction(
            widen_f32_spec(bits) as u64,
        ) == 0),
        f32_exponent(bits) != 0xff ==> {
            let wide = widen_f32_spec(bits) as u64;
            &&& f64_scale(wide) <= f32_scale(bits)
            &&& f64_significand(wide) == f32_significand(bits) * pow2(
                (f32_scale(bits) - f64_scale(wide)) as nat,
            )
        },
{
    let sign = f32_sign(bits);
    let exponent = f32_exponent(bits);
    let fraction = f32_fraction(bits);
    lemma2_to64();
    lemma2_to64_rest();
    if exponent == 0xff {
        if fraction == 0 || fraction >= 0x40_0000 {
            lemma_f64_pack_fields(sign, 0x7ff, fraction * 0x2000_0000);
        } else {
            lemma_f64_pack_fields(sign, 0x7ff, fraction * 0x2000_0000 + 0x8_0000_0000_0000);
        }
    } else if exponent == 0 {
        if fraction == 0 {
            lemma_f64_pack_fields(sign, 0, 0);
            assert(0 * pow2(925) == 0);
        } else {
            let p = top_bit(fraction);
            lemma_top_bit_bounds(fraction);
            if p >= 23 {
                if p > 23 {
                    vstd::arithmetic::power2::lemma_pow2_strictly_increases(23, p);
                }
            }
            assert(p <= 22);
            let up = pow2((52 - p) as nat);
            lemma_pow2_adds(p, (52 - p) as nat);
            lemma_pow2_adds(p + 1, (52 - p) as nat);
            lemma_pow2_pos((52 - p) as nat);
            assert(pow2(p + 1) * up == 2 * (pow2(p) * up)) by {
                vstd::arithmetic::power2::lemma_pow2_unfold(p + 1);
                assert((2 * pow2(p)) * up == 2 * (pow2(p) * up)) by (nonlinear_arith);
            }
            let low = ((fraction - pow2(p)) * up) as nat;
            assert(0 <= (fraction - pow2(p)) * up < pow2(p) * up) by (nonlinear_arith)
                requires
                    pow2(p) <= fraction < pow2(p + 1),
                    pow2(p + 1) * up == 2 * (pow2(p) * up),
                    up > 0,
            ;
            lemma_f64_pack_fields(sign, p + 874, low);
            assert((fraction - pow2(p)) * up == fraction * up - pow2(p) * up)
                by (nonlinear_arith);
            let wide = widen_f32_spec(bits) as u64;
            assert(wide == f64_pack(sign, p + 874, low));
            assert(f64_scale(wide) == p - 201);
            assert(f32_scale(bits) - f64_scale(wide) == 52 - p);
            assert(pow2(p) * up == 0x10_0000_0000_0000);
            assert(f64_significand(wide) == fraction * up);
        }
    } else {
        lemma_f64_pack_fields(sign, exponent + 896, fraction * 0x2000_0000);
        let wide = widen_f32_spec(bits) as u64;
        assert(wide == f64_pack(sign, exponent + 896, fraction * 0x2000_0000));
        assert(f64_scale(wide) == exponent - 179);
        assert(f32_scale(bits) - f64_scale(wide) == 29);
        assert(pow2(29) == 0x2000_0000);
        assert(f64_significand(wide) == (0x80_0000 + fraction) * 0x2000_0000);
    }
}

/// The `count` little-endian bytes that hold the number `value`.
pub open spec fn le_bytes(value: nat, count: nat) -> Seq<u8>
    decreases count,
{
    if count == 0 {
        Seq::empty()
    } else {
        seq![(value % 256) as u8] + le_bytes(value / 256, (count - 1) as nat)
    }
}

/// The bit pattern of `bits` bits that holds the signed number `value` in
/// two's complement.
pub open spec fn twos_complement(value: int, bits: nat) -> nat {
    if value < 0 {
        (value + pow2(bits)) as nat
    } else {
        value as nat
    }
}

/// Bytes written from a number that fits them read back as that number.
pub proof fn lemma_le_bytes_read_back(value: nat, count: nat)
    requires
        value < pow2(8 * count),
    ensures
        le_bytes(value, count).len() == count,
        le_value(le_bytes(value, count)) == value,
    decreases count,
{
    lemma2_to64();
    if count > 0 {
        let rest = (count - 1) as nat;
        lemma_pow2_adds(8, 8 * rest);
        assert(8 * count == 8 + 8 * rest);
        let p = pow2(8 * rest);
        assert(value / 256 < p) by (nonlinear_arith)
            requires
                value < 256 * p,
        ;
        lemma_le_bytes_read_back(value / 256, rest);
        let bytes = le_bytes(value, count);
        assert(bytes.drop_first() =~= le_bytes(value / 256, rest));
        assert(bytes[0] == (value % 256) as u8);
    }
}

/// A signed number in the range of its width reads back from its two's
/// complement pattern.
pub proof fn lemma_twos_complement_read_back(value: int, bits: nat)
    requires
        0 < bits,
        -pow2((bits - 1) as nat) <= value < pow2((bits - 1) as nat),
    ensures
        twos_complement(value, bits) < pow2(bits),
        signed_value(twos_complement(value, bits), bits) == value,
{
    vstd::arithmetic::power2::lemma_pow2_unfold(bits);
}

} // verus!
