//! A register-based universal machine: segmented memory, eight 32-bit
//! registers, a fixed 32-bit instruction encoding with fourteen opcodes,
//! and byte-stream input and output.
//!
//! The crate also carries the bit-field packing routines the machine's
//! instruction format rests on, a two-dimensional array container, and a
//! few small utilities built on them.

pub mod array2;
pub mod bitpack;
pub mod engine;
pub mod format;
pub mod instruction;
pub mod machine;
pub mod memory;
pub mod sudoku;
