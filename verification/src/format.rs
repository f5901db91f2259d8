//! Unpacking of 32-bit words that carry six packed bit fields: one
//! 9-bit unsigned, three 5-bit signed, and two 4-bit unsigned values,
//! read from big-endian bytes.

use crate::bitpack::{bit_field, gets, getu, signed_bit_field};
use crate::memory::be_word;
use vstd::prelude::*;

verus! {

/// The six fields carried by one packed word.
#[derive(Clone, Copy, Debug, PartialEq, Eq, Structural)]
pub struct PackedValues {
    /// The 9-bit unsigned field at bit 23.
    pub a: u64,
    /// The 5-bit signed field at bit 18.
    pub b: i64,
    /// The 5-bit signed field at bit 13.
    pub c: i64,
    /// The 5-bit signed field at bit 8.
    pub d: i64,
    /// The 4-bit unsigned field at bit 4.
    pub avg_pb: u64,
    /// The 4-bit unsigned field at bit 0.
    pub avg_pr: u64,
}

/// The fields packed in `word`.
pub open spec fn spec_unpacked(word: u32) -> PackedValues {
    PackedValues {
        a: bit_field(word as u64, 9, 23) as u64,
        b: signed_bit_field(word as u64, 5, 18) as i64,
        c: signed_bit_field(word as u64, 5, 13) as i64,
        d: signed_bit_field(word as u64, 5, 8) as i64,
        avg_pb: bit_field(word as u64, 4, 4) as u64,
        avg_pr: bit_field(word as u64, 4, 0) as u64,
    }
}

/// Unpack each four-byte group into its six fields, in order.
pub fn unpack_data(bytes: Vec<[u8; 4]>) -> (r: Vec<PackedValues>)
    ensures
        r@.len() == bytes@.len(),
        forall|i: int|
            0 <= i < bytes@.len() ==> r@[i] == spec_unpacked(
                be_word(bytes@[i][0], bytes@[i][1], bytes@[i][2], bytes@[i][3]),
            ),
{
    let mut r: Vec<PackedValues> = Vec::new();
    let mut n: usize = 0;
    while n < bytes.len()
        invariant
            n <= bytes@.len(),
            r@.len() == n,
            forall|i: int|
                0 <= i < n ==> r@[i] == spec_unpacked(
                    be_word(bytes@[i][0], bytes@[i][1], bytes@[i][2], bytes@[i][3]),
                ),
        decreases bytes@.len() - n,
    {
        let group = bytes[n];
        let word = (group[0] as u32) * 0x100_0000 + (group[1] as u32) * 0x1_0000 + (group[2] as u32)
            * 0x100 + (group[3] as u32);
        let a = match getu(word as u64, 9, 23) {
            Some(v) => v,
            None => {
                proof {
                    assert(false);
                }
                0
            },
        };
        let b = unpack_signed(word, 18);
        let c = unpack_signed(word, 13);
        let d = unpack_signed(word, 8);
        let avg_pb = match getu(word as u64, 4, 4) {
            Some(v) => v,
            None => {
                proof {
                    assert(false);
                }
                0
            },
        };
        let avg_pr = match getu(word as u64, 4, 0) {
            Some(v) => v,
            None => {
                proof {
                    assert(false);
                }
                0
            },
        };
        proof {
            crate::bitpack::lemma_bit_field_bounded(word as u64, 9, 23);
            crate::bitpack::lemma_bit_field_bounded(word as u64, 4, 4);
            crate::bitpack::lemma_bit_field_bounded(word as u64, 4, 0);
            vstd::arithmetic::power2::lemma2_to64();
        }
        r.push(PackedValues { a, b, c, d, avg_pb, avg_pr });
        n = n + 1;
    }
    r
}

/// One 5-bit signed field of `word`, read at bit position `lsb`.
fn unpack_signed(word: u32, lsb: u64) -> (r: i64)
    requires
        lsb <= 59,
    ensures
        r == signed_bit_field(word as u64, 5, lsb),
{
    match gets(word as u64, 5, lsb) {
        Some(v) => v,
        None => {
            proof {
                assert(false);
            }
            0
        },
    }
}

} // verus!
