use um::engine::{instructs, RunResult};
use um::memory::{Fault, UmState};

const HALT: u32 = 0x7000_0000;

fn load_value(reg: u32, value: u32) -> u32 {
    (13 << 28) | (reg << 25) | value
}

fn standard(op: u32, a: u32, b: u32, c: u32) -> u32 {
    (op << 28) | (a << 6) | (b << 3) | c
}

#[test]
fn outputs_one_byte_and_halts() {
    let program = vec![load_value(0, 72), standard(10, 0, 0, 0), HALT];
    let (output, result) = instructs(program, Vec::new(), 1000);
    assert_eq!(output, vec![0x48]);
    assert_eq!(result, RunResult::Halted);
}

#[test]
fn stores_and_loads_through_a_mapped_segment() {
    let program = vec![
        load_value(1, 3),
        standard(8, 0, 2, 1),
        load_value(3, 10),
        load_value(4, 0),
        standard(2, 2, 4, 3),
        load_value(3, 20),
        load_value(4, 1),
        standard(2, 2, 4, 3),
        load_value(3, 30),
        load_value(4, 2),
        standard(2, 2, 4, 3),
        load_value(4, 1),
        standard(1, 5, 2, 4),
        standard(10, 0, 0, 5),
        HALT,
    ];
    let (output, result) = instructs(program, Vec::new(), 1000);
    assert_eq!(output, vec![20]);
    assert_eq!(result, RunResult::Halted);
}

#[test]
fn load_program_jumps_into_mapped_segment() {
    let program = vec![
        load_value(1, 1),
        standard(8, 0, 2, 1),
        load_value(3, 7),
        load_value(4, 16384),
        standard(4, 5, 4, 4),
        standard(4, 6, 3, 5),
        load_value(7, 0),
        standard(2, 2, 7, 6),
        standard(12, 0, 2, 7),
    ];
    let (output, result) = instructs(program, Vec::new(), 1000);
    assert_eq!(output, Vec::<u8>::new());
    assert_eq!(result, RunResult::Halted);
}

#[test]
fn input_at_end_of_stream_reads_all_ones() {
    // NAND twice against 255 masks the register down to its low byte.
    let program = vec![
        standard(11, 0, 0, 0),
        load_value(1, 255),
        standard(6, 2, 0, 1),
        standard(6, 3, 2, 2),
        standard(10, 0, 0, 3),
        HALT,
    ];
    let (output, result) = instructs(program, Vec::new(), 1000);
    assert_eq!(output, vec![0xFF]);
    assert_eq!(result, RunResult::Halted);
}

#[test]
fn input_reads_bytes_in_order() {
    let program = vec![
        standard(11, 0, 0, 0),
        standard(11, 0, 0, 1),
        standard(10, 0, 0, 1),
        standard(10, 0, 0, 0),
        HALT,
    ];
    let (output, result) = instructs(program, vec![7, 9], 1000);
    assert_eq!(output, vec![9, 7]);
    assert_eq!(result, RunResult::Halted);
}

#[test]
fn addition_wraps_around() {
    // NAND of zeros makes the all-ones word; adding 2 wraps to 1.
    let program = vec![
        standard(6, 1, 0, 0),
        load_value(2, 2),
        standard(3, 3, 1, 2),
        standard(10, 0, 0, 3),
        HALT,
    ];
    let (output, result) = instructs(program, Vec::new(), 1000);
    assert_eq!(output, vec![1]);
    assert_eq!(result, RunResult::Halted);
}

#[test]
fn multiplication_wraps_around() {
    let mut s = UmState::boot(Vec::new());
    um::machine::load_value(&mut s, 1, 4294967295);
    um::machine::load_value(&mut s, 2, 2);
    um::machine::mul(&mut s, 0, 1, 2);
    assert_eq!(s.registers[0], 4294967294);
    um::machine::mult(&mut s, 3, 1, 2);
    assert_eq!(s.registers[3], 4294967294);
    um::machine::add(&mut s, 4, 1, 2);
    assert_eq!(s.registers[4], 1);
}

#[test]
fn conditional_move_tests_register_c() {
    let mut s = UmState::boot(Vec::new());
    um::machine::load_value(&mut s, 1, 41);
    um::machine::cmov(&mut s, 0, 1, 2);
    assert_eq!(s.registers[0], 0);
    um::machine::load_value(&mut s, 2, 1);
    um::machine::cmov(&mut s, 0, 1, 2);
    assert_eq!(s.registers[0], 41);
}

#[test]
fn division_truncates() {
    let mut s = UmState::boot(Vec::new());
    um::machine::load_value(&mut s, 1, 7);
    um::machine::load_value(&mut s, 2, 2);
    um::machine::div(&mut s, 0, 1, 2);
    assert_eq!(s.registers[0], 3);
    um::machine::nand(&mut s, 3, 1, 2);
    assert_eq!(s.registers[3], !(7u32 & 2u32));
}

#[test]
fn divide_by_zero_is_fatal() {
    let program = vec![load_value(1, 5), standard(5, 0, 1, 2), HALT];
    let (output, result) = instructs(program, Vec::new(), 1000);
    assert_eq!(output, Vec::<u8>::new());
    assert_eq!(result, RunResult::Faulted(Fault::DivideByZero));
}

#[test]
fn unmapping_segment_zero_is_fatal() {
    let program = vec![standard(9, 0, 0, 0), HALT];
    let (_, result) = instructs(program, Vec::new(), 1000);
    assert_eq!(result, RunResult::Faulted(Fault::BadUnmap));
}

#[test]
fn unmapping_a_freed_id_is_fatal() {
    let program = vec![
        load_value(1, 1),
        standard(8, 0, 2, 1),
        standard(9, 0, 0, 2),
        standard(9, 0, 0, 2),
        HALT,
    ];
    let (_, result) = instructs(program, Vec::new(), 1000);
    assert_eq!(result, RunResult::Faulted(Fault::BadUnmap));
}

#[test]
fn reference_to_freed_segment_is_fatal() {
    let program = vec![
        load_value(1, 1),
        standard(8, 0, 2, 1),
        standard(9, 0, 0, 2),
        standard(1, 3, 2, 0),
        HALT,
    ];
    let (_, result) = instructs(program, Vec::new(), 1000);
    assert_eq!(result, RunResult::Faulted(Fault::OutOfBounds));
}

#[test]
fn invalid_opcode_is_fatal() {
    let (_, result) = instructs(vec![0xF000_0000], Vec::new(), 1000);
    assert_eq!(result, RunResult::Faulted(Fault::InvalidOpcode));
    let (_, result) = instructs(vec![0xE000_0000], Vec::new(), 1000);
    assert_eq!(result, RunResult::Faulted(Fault::InvalidOpcode));
}

#[test]
fn running_off_the_program_is_fatal() {
    let (_, result) = instructs(Vec::new(), Vec::new(), 1000);
    assert_eq!(result, RunResult::Faulted(Fault::PcOutOfBounds));
}

#[test]
fn output_above_a_byte_is_fatal() {
    let program = vec![load_value(1, 300), standard(10, 0, 0, 1), HALT];
    let (output, result) = instructs(program, Vec::new(), 1000);
    assert_eq!(output, Vec::<u8>::new());
    assert_eq!(result, RunResult::Faulted(Fault::OutputTooLarge));
}

#[test]
fn spin_runs_out_of_steps() {
    // Load-program with register b zero jumps without replacing segment 0.
    let program = vec![standard(12, 0, 0, 0)];
    let (_, result) = instructs(program, Vec::new(), 10);
    assert_eq!(result, RunResult::OutOfSteps);
}

#[test]
fn fresh_segment_reads_zero_and_ids_recycle() {
    let mut s = UmState::boot(vec![1, 2, 3]);
    let id = s.map(4).unwrap();
    assert_eq!(id, 1);
    for i in 0..4 {
        assert_eq!(s.load(id, i), Ok(0));
    }
    assert_eq!(s.load(id, 4), Err(Fault::OutOfBounds));
    s.store(id, 2, 99).unwrap();
    assert_eq!(s.load(id, 2), Ok(99));
    assert_eq!(s.unmap(id), Ok(()));
    assert_eq!(s.load(id, 0), Err(Fault::OutOfBounds));
    assert_eq!(s.store(id, 0, 1), Err(Fault::OutOfBounds));
    assert_eq!(s.unmap(id), Err(Fault::BadUnmap));
    let again = s.map(2).unwrap();
    assert_eq!(again, id);
    assert_eq!(s.load(again, 0), Ok(0));
}

#[test]
fn unmap_rejects_segment_zero_directly() {
    let mut s = UmState::boot(vec![HALT]);
    assert_eq!(s.unmap(0), Err(Fault::BadUnmap));
    assert_eq!(s.unmap(7), Err(Fault::BadUnmap));
}

#[test]
fn replace_segment_zero_copies_the_source() {
    let mut s = UmState::boot(vec![1, 2, 3]);
    let id = s.map(2).unwrap();
    s.store(id, 0, 10).unwrap();
    s.store(id, 1, 11).unwrap();
    s.replace_segment_zero(id).unwrap();
    assert_eq!(s.load(0, 0), Ok(10));
    assert_eq!(s.load(0, 1), Ok(11));
    assert_eq!(s.load(0, 2), Err(Fault::OutOfBounds));
    assert_eq!(s.load(id, 0), Ok(10));
}

#[test]
fn words_assemble_big_endian_and_drop_the_tail() {
    let words = um::memory::words_from_bytes(&vec![0x12, 0x34, 0x56, 0x78, 0x9A]);
    assert_eq!(words, vec![0x12345678]);
    let words = um::memory::words_from_bytes(&vec![0xD0, 0x00, 0x00, 0x48, 0x70, 0x00, 0x00, 0x00]);
    assert_eq!(words, vec![0xD0000048, 0x70000000]);
    assert_eq!(um::memory::words_from_bytes(&vec![1, 2, 3]), Vec::<u32>::new());
}
