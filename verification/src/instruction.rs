//! Instruction words: 32-bit field extraction and decoding.
//!
//! The top 4 bits of a word name its opcode.  Opcodes 0 through 12 use
//! the standard layout — register fields A, B and C of 3 bits each at
//! offsets 6, 3 and 0 — while opcode 13 carries a register field at
//! offset 25 and a 25-bit immediate at offset 0.  Opcodes 14 and 15 are
//! invalid.

use crate::bitpack::{bit_field, lemma_bit_field_bounded};
use vstd::arithmetic::power2::{pow2, lemma2_to64, lemma2_to64_rest};
use vstd::arithmetic::div_mod::lemma_small_mod;
use vstd::bits::{
    lemma_u32_shr_is_div, lemma_u32_shl_is_mul, lemma_u32_low_bits_mask_is_mod,
    lemma_u32_pow2_no_overflow,
};
use vstd::prelude::*;

verus! {

/// A named bit field of an instruction word: its width and the position
/// of its least significant bit.
pub struct Field {
    /// How many bits the field spans.
    pub width: u32,
    /// The position of the field's least significant bit.
    pub lsb: u32,
}

/// The value of the `width`-bit field of the 32-bit `word` at position
/// `lsb`, as a slice of the word's value by place: the same quotient and
/// remainder model as on 64-bit words.
pub open spec fn extracted(word: u32, width: u32, lsb: u32) -> nat {
    bit_field(word as u64, width as u64, lsb as u64)
}

/// A word with the low `bits` bits set.
pub fn mask(bits: u32) -> (r: u32)
    requires
        bits < 32,
    ensures
        r as nat == pow2(bits as nat) - 1,
{
    proof {
        lemma_u32_pow2_no_overflow(bits as nat);
        lemma_u32_shl_is_mul(1u32, bits);
    }
    (1u32 << bits) - 1
}

/// Extract `field` from `instruction`: the unsigned value of the field's
/// bits, every higher bit cleared.
pub fn get(field: &Field, instruction: u32) -> (r: u32)
    requires
        field.width + field.lsb <= 32,
        field.lsb < 32,
    ensures
        r as nat == extracted(instruction, field.width, field.lsb),
{
    proof {
        lemma_extract_is_32bit_field(instruction, field.width, field.lsb);
    }
    if field.width == 32 {
        instruction
    } else {
        let shifted = instruction >> field.lsb;
        proof {
            lemma_u32_shr_is_div(instruction, field.lsb);
            lemma_u32_pow2_no_overflow(field.width as nat);
            lemma_u32_shl_is_mul(1u32, field.width);
            lemma_u32_low_bits_mask_is_mod(shifted, field.width as nat);
        }
        shifted & mask(field.width)
    }
}

/// The 64-bit field model restricted to a 32-bit word agrees with the
/// 32-bit quotient-remainder reading, and a full-width field is the word
/// itself.
proof fn lemma_extract_is_32bit_field(word: u32, width: u32, lsb: u32)
    requires
        width + lsb <= 32,
    ensures
        extracted(word, width, lsb) == (word as nat / pow2(lsb as nat)) % pow2(width as nat),
        width == 32 ==> extracted(word, width, lsb) == word as nat,
{
    if width == 32 {
        lemma2_to64();
        lemma2_to64_rest();
        vstd::arithmetic::div_mod::lemma_div_basics(word as int);
        assert(word as nat / pow2(0) == word as nat);
        lemma_small_mod(word as nat, pow2(32));
    }
}

/// Extraction never sets a bit at or above the field's width: the value
/// read from a `width`-bit field is below `pow2(width)`.
pub proof fn lemma_extract_bounded(word: u32, width: u32, lsb: u32)
    ensures
        extracted(word, width, lsb) < pow2(width as nat),
{
    lemma_bit_field_bounded(word as u64, width as u64, lsb as u64);
}

/// Extracting the full 32-bit field at position 0 returns the word
/// unchanged.
pub proof fn lemma_extract_full(word: u32)
    ensures
        extracted(word, 32, 0) == word as nat,
{
    lemma_extract_is_32bit_field(word, 32, 0);
}

/// One decoded instruction word: the standard three-register layout, the
/// load-value layout of opcode 13, or an invalid word.
#[derive(Debug, Clone, Copy, PartialEq, Eq, Structural)]
pub enum Instruction {
    /// Opcodes 0 through 12: an opcode and the three register fields.
    Standard { op: u32, a: usize, b: usize, c: usize },
    /// Opcode 13: a destination register and a 25-bit immediate.
    LoadValue { reg: usize, value: u32 },
    /// Opcode 14 or 15.
    Invalid,
}

/// What a word decodes to, as a function of the word alone.
pub open spec fn spec_decode(word: u32) -> Instruction {
    let op = extracted(word, 4, 28);
    if op <= 12 {
        Instruction::Standard {
            op: op as u32,
            a: extracted(word, 3, 6) as usize,
            b: extracted(word, 3, 3) as usize,
            c: extracted(word, 3, 0) as usize,
        }
    } else if op == 13 {
        Instruction::LoadValue {
            reg: extracted(word, 3, 25) as usize,
            value: extracted(word, 25, 0) as u32,
        }
    } else {
        Instruction::Invalid
    }
}

/// Decode a word into one of the two operand layouts, or `Invalid` for
/// opcodes 14 and 15.  Pure: reads nothing but the word.
pub fn decode(word: u32) -> (r: Instruction)
    ensures
        r == spec_decode(word),
{
    proof {
        lemma2_to64();
        lemma_extract_bounded(word, 4, 28);
        lemma_extract_bounded(word, 3, 6);
        lemma_extract_bounded(word, 3, 3);
        lemma_extract_bounded(word, 3, 0);
        lemma_extract_bounded(word, 3, 25);
        lemma_extract_bounded(word, 25, 0);
    }
    let op = get(&Field { width: 4, lsb: 28 }, word);
    if op <= 12 {
        Instruction::Standard {
            op,
            a: get(&Field { width: 3, lsb: 6 }, word) as usize,
            b: get(&Field { width: 3, lsb: 3 }, word) as usize,
            c: get(&Field { width: 3, lsb: 0 }, word) as usize,
        }
    } else if op == 13 {
        Instruction::LoadValue {
            reg: get(&Field { width: 3, lsb: 25 }, word) as usize,
            value: get(&Field { width: 25, lsb: 0 }, word),
        }
    } else {
        Instruction::Invalid
    }
}

/// The register fields of a decoded instruction lie below 8, and a
/// load-value immediate below `pow2(25)`: no register index out of the
/// file's bounds is reachable from a decode.
pub proof fn lemma_decode_fields_bounded(word: u32)
    ensures
        spec_decode(word) matches Instruction::Standard { op, a, b, c } ==> op <= 12 && a < 8 && b
            < 8 && c < 8,
        spec_decode(word) matches Instruction::LoadValue { reg, value } ==> reg < 8 && value < pow2(
            25,
        ),
{
    lemma2_to64();
    lemma_extract_bounded(word, 4, 28);
    lemma_extract_bounded(word, 3, 6);
    lemma_extract_bounded(word, 3, 3);
    lemma_extract_bounded(word, 3, 0);
    lemma_extract_bounded(word, 3, 25);
    lemma_extract_bounded(word, 25, 0);
}

} // verus!
