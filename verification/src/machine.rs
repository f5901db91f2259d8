//! The fourteen opcode handlers.
//!
//! Each handler performs exactly one instruction's effect on the machine
//! state, reading all its operands from the state as it stood when the
//! instruction started.  None of them moves the program counter except
//! the load-program handler, whose effect includes the jump; advancing
//! the counter past an ordinary instruction is the engine's step.
//! Handlers require the conditions under which their instruction is not
//! fatal; the engine checks those conditions first and reports the fault
//! itself, so a handler is only ever entered on a sound state.

use crate::memory::{
    MemView, UmState, can_map, spec_map, spec_replace_zero, spec_store, spec_unmap,
};
use vstd::prelude::*;

verus! {

/// 32-bit addition, wrapping modulo `2^32`.
pub open spec fn wrap_add(x: u32, y: u32) -> u32 {
    ((x + y) % 0x1_0000_0000) as u32
}

/// 32-bit multiplication, wrapping modulo `2^32`.
pub open spec fn wrap_mul(x: u32, y: u32) -> u32 {
    ((x * y) % 0x1_0000_0000) as u32
}

/// The state with register `a` holding `v` and all else unchanged.
pub open spec fn with_reg(m: MemView, a: usize, v: u32) -> MemView {
    MemView { regs: m.regs.update(a as int, v), ..m }
}

/// Conditional move: if register `c` is nonzero, register `a` takes
/// register `b`'s value.
pub fn cmov(state: &mut UmState, rega: usize, regb: usize, regc: usize)
    requires
        old(state)@.wf(),
        rega < 8,
        regb < 8,
        regc < 8,
    ensures
        final(state)@.wf(),
        final(state)@ == if old(state)@.regs[regc as int] != 0 {
            with_reg(old(state)@, rega, old(state)@.regs[regb as int])
        } else {
            old(state)@
        },
{
    if state.registers[regc] != 0 {
        let v = state.registers[regb];
        state.registers[rega] = v;
        proof {
            assert(final(state)@ =~~= with_reg(old(state)@, rega, old(state)@.regs[regb as int]));
        }
    }
}

/// Segmented load: register `a` takes the word at offset register `c` of
/// segment register `b`.
pub fn sload(state: &mut UmState, rega: usize, regb: usize, regc: usize)
    requires
        old(state)@.wf(),
        rega < 8,
        regb < 8,
        regc < 8,
        old(state)@.live(old(state)@.regs[regb as int]),
        old(state)@.regs[regc as int] < old(state)@.seg(old(state)@.regs[regb as int]).len(),
    ensures
        final(state)@.wf(),
        final(state)@ == with_reg(
            old(state)@,
            rega,
            old(state)@.seg(old(state)@.regs[regb as int])[old(state)@.regs[regc as int] as int],
        ),
{
    let id = state.registers[regb];
    let offset = state.registers[regc];
    let v = match state.load(id, offset) {
        Ok(v) => v,
        Err(_) => {
            proof {
                assert(false);
            }
            0
        },
    };
    state.registers[rega] = v;
    proof {
        assert(final(state)@ =~~= with_reg(
            old(state)@,
            rega,
            old(state)@.seg(old(state)@.regs[regb as int])[old(state)@.regs[regc as int] as int],
        ));
    }
}

/// Segmented store: the word at offset register `b` of segment register
/// `a` takes register `c`'s value.
pub fn store(state: &mut UmState, rega: usize, regb: usize, regc: usize)
    requires
        old(state)@.wf(),
        rega < 8,
        regb < 8,
        regc < 8,
        old(state)@.live(old(state)@.regs[rega as int]),
        old(state)@.regs[regb as int] < old(state)@.seg(old(state)@.regs[rega as int]).len(),
    ensures
        final(state)@.wf(),
        final(state)@ == spec_store(
            old(state)@,
            old(state)@.regs[rega as int],
            old(state)@.regs[regb as int],
            old(state)@.regs[regc as int],
        ),
{
    let id = state.registers[rega];
    let offset = state.registers[regb];
    let value = state.registers[regc];
    match state.store(id, offset, value) {
        Ok(()) => (),
        Err(_) => {
            proof {
                assert(false);
            }
        },
    }
}

/// Addition: register `a` takes registers `b` plus `c`, modulo `2^32`,
/// never faulting on overflow.
pub fn add(state: &mut UmState, rega: usize, regb: usize, regc: usize)
    requires
        old(state)@.wf(),
        rega < 8,
        regb < 8,
        regc < 8,
    ensures
        final(state)@.wf(),
        final(state)@ == with_reg(
            old(state)@,
            rega,
            wrap_add(old(state)@.regs[regb as int], old(state)@.regs[regc as int]),
        ),
{
    let v = state.registers[regb].wrapping_add(state.registers[regc]);
    state.registers[rega] = v;
    proof {
        assert(final(state)@ =~~= with_reg(
            old(state)@,
            rega,
            wrap_add(old(state)@.regs[regb as int], old(state)@.regs[regc as int]),
        ));
    }
}

/// Multiplication: register `a` takes registers `b` times `c`, modulo
/// `2^32`, never faulting on overflow.
pub fn mul(state: &mut UmState, rega: usize, regb: usize, regc: usize)
    requires
        old(state)@.wf(),
        rega < 8,
        regb < 8,
        regc < 8,
    ensures
        final(state)@.wf(),
        final(state)@ == with_reg(
            old(state)@,
            rega,
            wrap_mul(old(state)@.regs[regb as int], old(state)@.regs[regc as int]),
        ),
{
    let v = state.registers[regb].wrapping_mul(state.registers[regc]);
    state.registers[rega] = v;
    proof {
        assert(final(state)@ =~~= with_reg(
            old(state)@,
            rega,
            wrap_mul(old(state)@.regs[regb as int], old(state)@.regs[regc as int]),
        ));
    }
}

/// Multiplication under its other name.
pub fn mult(state: &mut UmState, rega: usize, regb: usize, regc: usize)
    requires
        old(state)@.wf(),
        rega < 8,
        regb < 8,
        regc < 8,
    ensures
        final(state)@.wf(),
        final(state)@ == with_reg(
            old(state)@,
            rega,
            wrap_mul(old(state)@.regs[regb as int], old(state)@.regs[regc as int]),
        ),
{
    crate::machine::mul(state, rega, regb, regc);
}

/// Unsigned division: register `a` takes register `b` over register `c`.
/// A zero divisor is fatal and is excluded here; the engine reports it.
pub fn div(state: &mut UmState, rega: usize, regb: usize, regc: usize)
    requires
        old(state)@.wf(),
        rega < 8,
        regb < 8,
        regc < 8,
        old(state)@.regs[regc as int] != 0,
    ensures
        final(state)@.wf(),
        final(state)@ == with_reg(
            old(state)@,
            rega,
            (old(state)@.regs[regb as int] / old(state)@.regs[regc as int]) as u32,
        ),
{
    let v = state.registers[regb] / state.registers[regc];
    state.registers[rega] = v;
    proof {
        assert(final(state)@ =~~= with_reg(
            old(state)@,
            rega,
            (old(state)@.regs[regb as int] / old(state)@.regs[regc as int]) as u32,
        ));
    }
}

/// Bitwise NAND: register `a` takes the complement of registers `b` and
/// `c` conjoined.
pub fn nand(state: &mut UmState, rega: usize, regb: usize, regc: usize)
    requires
        old(state)@.wf(),
        rega < 8,
        regb < 8,
        regc < 8,
    ensures
        final(state)@.wf(),
        final(state)@ == with_reg(
            old(state)@,
            rega,
            !(old(state)@.regs[regb as int] & old(state)@.regs[regc as int]),
        ),
{
    let v = !(state.registers[regb] & state.registers[regc]);
    state.registers[rega] = v;
    proof {
        assert(final(state)@ =~~= with_reg(
            old(state)@,
            rega,
            !(old(state)@.regs[regb as int] & old(state)@.regs[regc as int]),
        ));
    }
}

/// Map segment: a zero-filled segment of register `c` words is mapped and
/// register `b` takes its id.  Running out of 32-bit ids is fatal and is
/// excluded here.
pub fn map_seg(state: &mut UmState, regb: usize, regc: usize)
    requires
        old(state)@.wf(),
        regb < 8,
        regc < 8,
        can_map(old(state)@),
    ensures
        final(state)@.wf(),
        final(state)@ == ({
            let (m2, id) = spec_map(old(state)@, old(state)@.regs[regc as int]);
            with_reg(m2, regb, id)
        }),
{
    let size = state.registers[regc];
    let id = match state.map(size) {
        Ok(id) => id,
        Err(_) => {
            proof {
                assert(false);
            }
            0
        },
    };
    state.registers[regb] = id;
    proof {
        assert(final(state)@ =~~= ({
            let (m2, id) = spec_map(old(state)@, old(state)@.regs[regc as int]);
            with_reg(m2, regb, id)
        }));
    }
}

/// Unmap segment: the segment register `c` names is freed for reuse.
/// Unmapping segment 0 or a dead index is fatal and is excluded here.
pub fn unmap_seg(state: &mut UmState, regc: usize)
    requires
        old(state)@.wf(),
        regc < 8,
        old(state)@.regs[regc as int] != 0,
        old(state)@.live(old(state)@.regs[regc as int]),
    ensures
        final(state)@.wf(),
        final(state)@ == spec_unmap(old(state)@, old(state)@.regs[regc as int]),
{
    let id = state.registers[regc];
    match state.unmap(id) {
        Ok(()) => (),
        Err(_) => {
            proof {
                assert(false);
            }
        },
    }
}

/// Load program: the counter jumps to register `c`, and when register
/// `b` is nonzero the segment it names replaces segment 0.  Register `b`
/// naming a dead segment is fatal and is excluded here; the counter may
/// land anywhere, the next fetch checks it.
pub fn load_program(state: &mut UmState, regb: usize, regc: usize)
    requires
        old(state)@.wf(),
        regb < 8,
        regc < 8,
        old(state)@.regs[regb as int] == 0 || old(state)@.live(old(state)@.regs[regb as int]),
    ensures
        final(state)@.wf(),
        final(state)@ == ({
            let m = old(state)@;
            let jumped = if m.regs[regb as int] == 0 {
                m
            } else {
                spec_replace_zero(m, m.regs[regb as int])
            };
            MemView { pc: m.regs[regc as int] as nat, ..jumped }
        }),
{
    let target = state.registers[regc];
    let source = state.registers[regb];
    match state.replace_segment_zero(source) {
        Ok(()) => (),
        Err(_) => {
            proof {
                assert(false);
            }
        },
    }
    state.pc = target as usize;
    proof {
        assert(final(state)@ =~~= ({
            let m = old(state)@;
            let jumped = if m.regs[regb as int] == 0 {
                m
            } else {
                spec_replace_zero(m, m.regs[regb as int])
            };
            MemView { pc: m.regs[regc as int] as nat, ..jumped }
        }));
    }
}

/// Load value: the decoded destination register takes the 25-bit
/// immediate, zero-extended.
pub fn load_value(state: &mut UmState, rega: usize, value: u32)
    requires
        old(state)@.wf(),
        rega < 8,
    ensures
        final(state)@.wf(),
        final(state)@ == with_reg(old(state)@, rega, value),
{
    state.registers[rega] = value;
    proof {
        assert(final(state)@ =~~= with_reg(old(state)@, rega, value));
    }
}

/// The value an input instruction leaves in its destination register: the
/// byte read, or every bit set at end of stream.
pub fn input_register_value(byte: Option<u8>) -> (r: u32)
    ensures
        r == match byte {
            Some(b) => b as u32,
            None => u32::MAX,
        },
{
    match byte {
        Some(b) => b as u32,
        None => u32::MAX,
    }
}

/// Addition wraps without fault: the largest word plus anything comes
/// back around, so a register holding `2^32 - 1` added to one holding 2
/// yields 1.
pub proof fn lemma_add_wraps(x: u32, y: u32)
    ensures
        wrap_add(x, y) == if x + y <= u32::MAX {
            (x + y) as u32
        } else {
            ((x + y) - 0x1_0000_0000) as u32
        },
        wrap_add(4294967295u32, 2u32) == 1u32,
{
    assert(wrap_add(4294967295u32, 2u32) == 1u32);
    if x + y <= u32::MAX {
        vstd::arithmetic::div_mod::lemma_small_mod((x + y) as nat, 0x1_0000_0000);
    } else {
        vstd::arithmetic::div_mod::lemma_mod_add_multiples_vanish(
            (x + y) - 0x1_0000_0000,
            0x1_0000_0000,
        );
        vstd::arithmetic::div_mod::lemma_small_mod(
            ((x + y) - 0x1_0000_0000) as nat,
            0x1_0000_0000,
        );
    }
}

/// Multiplication wraps without fault: the product is reduced modulo
/// `2^32`, so a register holding `2^32 - 1` times one holding 2 yields
/// `2^32 - 2`.
pub proof fn lemma_mul_wraps(x: u32, y: u32)
    ensures
        wrap_mul(x, y) == (x * y) % 0x1_0000_0000,
        wrap_mul(4294967295u32, 2u32) == 4294967294u32,
{
    assert(wrap_mul(4294967295u32, 2u32) == 4294967294u32);
}

} // verus!
