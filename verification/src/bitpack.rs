//! Bit-field packing on 64-bit words.
//!
//! A field is named by a width and the position of its least-significant
//! bit (bit 0 is the least significant of the word).  Values are read and
//! written as the `width`-bit unsigned or two's-complement signed number
//! stored at that position; all contracts speak of fields through
//! `bit_field`, the quotient-remainder model of such a slice of a word.

use vstd::arithmetic::power2::{
    pow2, lemma_pow2_adds, lemma_pow2_pos, lemma_pow2_strictly_increases, lemma2_to64,
    lemma2_to64_rest,
};
use vstd::bits::{
    low_bits_mask, lemma_u64_shr_is_div, lemma_u64_shl_is_mul, lemma_u64_low_bits_mask_is_mod,
    lemma_u64_pow2_no_overflow,
};
use vstd::arithmetic::div_mod::{
    lemma_small_mod, lemma_mod_bound, lemma_fundamental_div_mod, lemma_basic_div,
    lemma_multiply_divide_lt, lemma_div_multiples_vanish_fancy, lemma_mod_multiples_vanish,
};
use vstd::arithmetic::mul::lemma_mul_is_commutative;
use vstd::prelude::*;

verus! {

/// The unsigned value of the `width`-bit field of `word` whose least
/// significant bit sits at position `lsb`.
pub open spec fn bit_field(word: u64, width: u64, lsb: u64) -> nat {
    (word as nat / pow2(lsb as nat)) % pow2(width as nat)
}

/// Whether `n` is representable as a `width`-bit unsigned number.
/// A zero-width field holds nothing.
pub open spec fn fits_unsigned(n: u64, width: u64) -> bool {
    width > 0 && (n as nat) < pow2(width as nat)
}

/// Whether `n` is representable as a `width`-bit two's-complement number.
/// A zero-width field holds nothing.
pub open spec fn fits_signed(n: i64, width: u64) -> bool {
    width > 0 && -(pow2((width - 1) as nat) as int) <= n < pow2((width - 1) as nat)
}

/// The word obtained from `word` by replacing its `width`-bit field at
/// position `lsb` with `value`: the part above the field, then the new
/// field, then the part below, recombined by place value.
pub open spec fn packed_field(word: u64, width: u64, lsb: u64, value: u64) -> nat {
    (word as nat / pow2((width + lsb) as nat)) * pow2((width + lsb) as nat)
        + (value as nat) * pow2(lsb as nat)
        + (word as nat) % pow2(lsb as nat)
}

/// The signed reading of the `width`-bit field of `word` at position
/// `lsb`: its unsigned value, shifted down by one field's worth when the
/// sign bit is set.
pub open spec fn signed_bit_field(word: u64, width: u64, lsb: u64) -> int {
    let f = bit_field(word, width, lsb);
    if f < pow2((width - 1) as nat) {
        f as int
    } else {
        f - pow2(width as nat)
    }
}

/// Returns true if the signed value `n` fits into `width` signed bits.
pub fn fitss(n: i64, width: u64) -> (r: bool)
    requires
        width <= 64,
    ensures
        r == fits_signed(n, width),
{
    if width == 0 {
        false
    } else if width == 64 {
        proof {
            lemma2_to64_rest();
        }
        true
    } else {
        let bound = 1u64 << (width - 1);
        proof {
            lemma_u64_pow2_no_overflow((width - 1) as nat);
            lemma_u64_shl_is_mul(1u64, (width - 1) as u64);
            lemma_pow2_strictly_increases((width - 1) as nat, 63);
            lemma2_to64_rest();
        }
        -(bound as i64) <= n && n < bound as i64
    }
}

/// Returns true if the unsigned value `n` fits into `width` unsigned bits.
pub fn fitsu(n: u64, width: u64) -> (r: bool)
    requires
        width <= 64,
    ensures
        r == fits_unsigned(n, width),
{
    if width == 0 {
        false
    } else if width == 64 {
        proof {
            lemma2_to64_rest();
        }
        true
    } else {
        let bound = 1u64 << width;
        proof {
            lemma_u64_pow2_no_overflow(width as nat);
            lemma_u64_shl_is_mul(1u64, width);
        }
        n < bound
    }
}

/// Retrieve the unsigned value of the `width`-bit field of `word` at bit
/// position `lsb`.
pub fn getu(word: u64, width: u64, lsb: u64) -> (r: Option<u64>)
    requires
        1 <= width,
        width + lsb <= 64,
    ensures
        r matches Some(v) && v as nat == bit_field(word, width, lsb),
{
    let shifted = word >> lsb;
    proof {
        lemma_u64_shr_is_div(word, lsb);
    }
    if width == 64 {
        proof {
            lemma2_to64_rest();
            lemma_small_mod(shifted as nat, pow2(64));
        }
        Some(shifted)
    } else {
        proof {
            lemma_u64_pow2_no_overflow(width as nat);
            lemma_u64_shl_is_mul(1u64, width);
        }
        let mask = (1u64 << width) - 1;
        proof {
            lemma_u64_low_bits_mask_is_mod(shifted, width as nat);
        }
        Some(shifted & mask)
    }
}

/// Retrieve the signed value of the `width`-bit field of `word` at bit
/// position `lsb`, or `None` when the field does not lie within the word.
pub fn gets(word: u64, width: u64, lsb: u64) -> (r: Option<i64>)
    requires
        !(width == 64 && lsb == 0),
    ensures
        r is None <==> (width == 0 || width > 64 || lsb > 63 || width + lsb > 64),
        r matches Some(s) ==> s == signed_bit_field(word, width, lsb),
{
    if width == 0 || width > 64 || lsb > 63 || width + lsb > 64 {
        return None;
    }
    let shifted = word >> lsb;
    proof {
        lemma_u64_shr_is_div(word, lsb);
        lemma_u64_pow2_no_overflow(width as nat);
        lemma_u64_shl_is_mul(1u64, width);
    }
    let mask = (1u64 << width) - 1;
    let f = shifted & mask;
    proof {
        lemma_u64_low_bits_mask_is_mod(shifted, width as nat);
        lemma_u64_pow2_no_overflow((width - 1) as nat);
        lemma_u64_shl_is_mul(1u64, (width - 1) as u64);
        lemma_pow2_adds((width - 1) as nat, 1);
        lemma2_to64();
        lemma_mod_bound(shifted as int, pow2(width as nat) as int);
    }
    let half = 1u64 << (width - 1);
    if f >= half {
        Some((f - half) as i64 - half as i64)
    } else {
        Some(f as i64)
    }
}

/// Write the unsigned `value` into the `width`-bit field of `word` at bit
/// position `lsb`; `None` exactly when the value does not fit the field.
pub fn newu(word: u64, width: u64, lsb: u64, value: u64) -> (r: Option<u64>)
    requires
        width + lsb <= 64,
    ensures
        r is Some <==> fits_unsigned(value, width),
        r matches Some(w2) ==> w2 as nat == packed_field(word, width, lsb, value),
{
    if !fitsu(value, width) {
        return None;
    }
    proof {
        lemma_u64_pow2_no_overflow(lsb as nat);
        lemma_u64_shl_is_mul(1u64, lsb);
    }
    let p_low = 1u64 << lsb;
    let low = word % p_low;
    let ghost s = (width + lsb) as nat;
    let ghost ps = pow2(s);
    let mut high: u64 = 0;
    if width + lsb < 64 {
        proof {
            lemma_u64_pow2_no_overflow(s);
            lemma_u64_shl_is_mul(1u64, (width + lsb) as u64);
        }
        let p_all = 1u64 << (width + lsb);
        let q = word / p_all;
        proof {
            lemma_fundamental_div_mod(word as int, p_all as int);
            lemma_mod_bound(word as int, p_all as int);
            lemma_mul_is_commutative(p_all as int, q as int);
        }
        high = q * p_all;
        proof {
            assert(p_all as nat == ps);
            assert(q as nat == word as nat / ps);
            assert(high as nat == (q as nat) * (p_all as nat));
            assert(high as nat == (word as nat / ps) * ps) by (nonlinear_arith)
                requires
                    high as nat == (q as nat) * (p_all as nat),
                    p_all as nat == ps,
                    q as nat == word as nat / ps,
            ;
        }
    } else {
        proof {
            lemma2_to64_rest();
            assert(ps == pow2(64));
            assert((word as nat) < ps);
            lemma_basic_div(word as int, ps as int);
            assert(word as nat / ps == 0);
            assert(high as nat == (word as nat / ps) * ps);
        }
    }
    proof {
        lemma_pack_parts_bounded(word, width, lsb, value);
        assert(low as nat == word as nat % pow2(lsb as nat));
        assert(high as nat + (value as nat) * (p_low as nat) + (low as nat) == packed_field(
            word,
            width,
            lsb,
            value,
        ));
        lemma2_to64_rest();
    }
    let w2 = high + value * p_low + low;
    Some(w2)
}

/// Write the signed `value` into the `width`-bit field of `word` at bit
/// position `lsb`, in two's complement; `None` exactly when the value
/// does not fit the field.
pub fn news(word: u64, width: u64, lsb: u64, value: i64) -> (r: Option<u64>)
    requires
        width + lsb <= 64,
    ensures
        r is Some <==> fits_signed(value, width),
        r matches Some(w2) ==> w2 as nat == packed_field(
            word,
            width,
            lsb,
            (value as int % pow2(width as nat) as int) as u64,
        ),
{
    if !fitss(value, width) {
        return None;
    }
    let bits: u64 = if width == 64 {
        proof {
            lemma2_to64_rest();
            lemma_cast_mod_64(value);
        }
        value as u64
    } else {
        proof {
            lemma_u64_pow2_no_overflow(width as nat);
            lemma_u64_shl_is_mul(1u64, width);
            lemma_cast_then_mod(value, width);
        }
        (value as u64) % (1u64 << width)
    };
    proof {
        lemma_mod_bound(value as int, pow2(width as nat) as int);
        lemma_pow2_pos(width as nat);
    }
    newu(word, width, lsb, bits)
}

/// A field never reaches past its own width: whatever the word, the
/// unsigned value read from a `width`-bit field is below `pow2(width)`.
pub proof fn lemma_bit_field_bounded(word: u64, width: u64, lsb: u64)
    ensures
        bit_field(word, width, lsb) < pow2(width as nat),
{
    lemma_pow2_pos(width as nat);
    lemma_pow2_pos(lsb as nat);
    lemma_mod_bound((word as nat / pow2(lsb as nat)) as int, pow2(width as nat) as int);
}

/// A field of the full width of the word, at position zero, reads the
/// word back unchanged.
pub proof fn lemma_bit_field_full(word: u64)
    ensures
        bit_field(word, 64, 0) == word as nat,
{
    lemma2_to64();
    lemma2_to64_rest();
    lemma_small_mod(word as nat, pow2(64));
}

/// Round trip: writing `value` into a field and reading the same field
/// back yields `value`, whatever the word held before.
pub proof fn lemma_packed_then_field(word: u64, width: u64, lsb: u64, value: u64, w2: u64)
    requires
        1 <= width,
        width + lsb <= 64,
        fits_unsigned(value, width),
        w2 as nat == packed_field(word, width, lsb, value),
    ensures
        bit_field(w2, width, lsb) == value as nat,
{
    let pl = pow2(lsb as nat);
    let pw = pow2(width as nat);
    let ps = pow2((width + lsb) as nat);
    let h = word as nat / ps;
    let low = word as nat % pl;
    lemma_pow2_pos(lsb as nat);
    lemma_pow2_pos(width as nat);
    lemma_pow2_pos((width + lsb) as nat);
    lemma_pow2_adds(width as nat, lsb as nat);
    lemma_mod_bound(word as int, pl as int);
    assert(w2 as int == (h * pw + value) * pl + low) by (nonlinear_arith)
        requires
            w2 as nat == h * ps + (value as nat) * pl + low,
            ps == pw * pl,
    ;
    assert(w2 as int / pl as int == h * pw + value) by {
        lemma_div_multiples_vanish_fancy((h * pw + value) as int, low as int, pl as int);
        lemma_mul_is_commutative(pl as int, (h * pw + value) as int);
    }
    assert((h * pw + value) as int % pw as int == value as int % pw as int) by {
        lemma_mod_multiples_vanish(h as int, value as int, pw as int);
        lemma_mul_is_commutative(pw as int, h as int);
    }
    lemma_small_mod(value as nat, pw);
}

/// The three parts of a packed word sum to less than `pow2(64)`:
/// the rebuilt word fits a `u64` again.
proof fn lemma_pack_parts_bounded(word: u64, width: u64, lsb: u64, value: u64)
    requires
        1 <= width,
        width + lsb <= 64,
        fits_unsigned(value, width),
    ensures
        packed_field(word, width, lsb, value) < pow2(64),
{
    let pl = pow2(lsb as nat);
    let pw = pow2(width as nat);
    let ps = pow2((width + lsb) as nat);
    let h = word as nat / ps;
    let low = word as nat % pl;
    lemma_pow2_pos(lsb as nat);
    lemma_pow2_pos(width as nat);
    lemma_pow2_pos((width + lsb) as nat);
    lemma_pow2_adds(width as nat, lsb as nat);
    lemma_pow2_adds((64 - width - lsb) as nat, (width + lsb) as nat);
    lemma2_to64_rest();
    assert(word < pow2(64));
    assert(h < pow2((64 - width - lsb) as nat)) by {
        lemma_multiply_divide_lt(word as int, ps as int, pow2((64 - width - lsb) as nat) as int);
    }
    assert(h * ps <= pow2(64) - ps) by (nonlinear_arith)
        requires
            h + 1 <= pow2((64 - width - lsb) as nat),
            pow2((64 - width - lsb) as nat) * ps == pow2(64),
            0 < ps,
    ;
    assert((value as nat) * pl <= ps - pl) by (nonlinear_arith)
        requires
            value as nat + 1 <= pw,
            pw * pl == ps,
            0 < pl,
    ;
    lemma_mod_bound(word as int, pl as int);
}

/// Casting an `i64` to `u64` keeps its value modulo `pow2(64)`.
proof fn lemma_cast_mod_64(value: i64)
    ensures
        (value as u64) as int == value as int % pow2(64) as int,
{
    lemma2_to64_rest();
    if value >= 0 {
        lemma_small_mod(value as nat, pow2(64));
    } else {
        assert((value as u64) as int == value as int + 0x10000000000000000) by (bit_vector)
            requires
                value < 0,
        ;
        lemma_mod_multiples_vanish(1, value as int, pow2(64) as int);
        lemma_small_mod((value + pow2(64)) as nat, pow2(64));
    }
}

/// Reducing the `u64` cast of an `i64` modulo a smaller power of two
/// gives the value's own remainder by that power.
proof fn lemma_cast_then_mod(value: i64, width: u64)
    requires
        1 <= width < 64,
    ensures
        (value as u64) as int % pow2(width as nat) as int == value as int % pow2(
            width as nat,
        ) as int,
{
    let pw = pow2(width as nat) as int;
    lemma_pow2_pos(width as nat);
    if value < 0 {
        assert((value as u64) as int == value as int + 0x10000000000000000) by (bit_vector)
            requires
                value < 0,
        ;
        lemma_pow2_adds((64 - width) as nat, width as nat);
        lemma2_to64_rest();
        let k = pow2((64 - width) as nat) as int;
        assert((pw * k + value as int) % pw == value as int % pw) by {
            lemma_mod_multiples_vanish(k, value as int, pw);
        }
        assert(pw * k == 0x10000000000000000) by {
            lemma_mul_is_commutative(pw, k);
        }
    }
}

} // verus!
