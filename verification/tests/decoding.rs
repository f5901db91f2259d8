use um::format::{unpack_data, PackedValues};
use um::instruction::{decode, get, mask, Field, Instruction};

#[test]
fn mask_covers_the_low_bits() {
    assert_eq!(mask(0), 0);
    assert_eq!(mask(3), 7);
    assert_eq!(mask(25), 0x1FF_FFFF);
    assert_eq!(mask(31), 0x7FFF_FFFF);
}

#[test]
fn get_extracts_named_fields() {
    let word: u32 = 0xD2000003;
    assert_eq!(get(&Field { width: 4, lsb: 28 }, word), 13);
    assert_eq!(get(&Field { width: 3, lsb: 25 }, word), 1);
    assert_eq!(get(&Field { width: 25, lsb: 0 }, word), 3);
    assert_eq!(get(&Field { width: 32, lsb: 0 }, word), word);
}

#[test]
fn decode_standard_layout() {
    let word: u32 = (3 << 28) | (3 << 6) | (1 << 3) | 2;
    assert_eq!(decode(word), Instruction::Standard { op: 3, a: 3, b: 1, c: 2 });
}

#[test]
fn decode_load_value_layout() {
    let word: u32 = (13 << 28) | (5 << 25) | 1234;
    assert_eq!(decode(word), Instruction::LoadValue { reg: 5, value: 1234 });
}

#[test]
fn decode_rejects_high_opcodes() {
    assert_eq!(decode(0xE0000000), Instruction::Invalid);
    assert_eq!(decode(0xFFFFFFFF), Instruction::Invalid);
}

#[test]
fn unpack_reads_all_six_fields() {
    let mut word: u64 = 0;
    word = um::bitpack::newu(word, 9, 23, 300).unwrap();
    word = um::bitpack::news(word, 5, 18, -10).unwrap();
    word = um::bitpack::news(word, 5, 13, 5).unwrap();
    word = um::bitpack::news(word, 5, 8, -1).unwrap();
    word = um::bitpack::newu(word, 4, 4, 9).unwrap();
    word = um::bitpack::newu(word, 4, 0, 3).unwrap();
    let bytes = (word as u32).to_be_bytes();
    let unpacked = unpack_data(vec![bytes]);
    assert_eq!(
        unpacked,
        vec![PackedValues { a: 300, b: -10, c: 5, d: -1, avg_pb: 9, avg_pr: 3 }]
    );
}

#[test]
fn unpack_handles_many_words() {
    let zero = [0u8; 4];
    let unpacked = unpack_data(vec![zero, zero]);
    assert_eq!(unpacked.len(), 2);
    assert_eq!(
        unpacked[0],
        PackedValues { a: 0, b: 0, c: 0, d: 0, avg_pb: 0, avg_pr: 0 }
    );
}
