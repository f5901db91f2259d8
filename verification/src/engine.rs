//! The fetch-decode-execute engine.
//!
//! A whole machine — state, the bytes still waiting on its input, the
//! bytes it has emitted, and whether it still runs — is pictured by a
//! `VmView`, and `step_spec` is the machine's small-step semantics: one
//! instruction's worth of change, or the fault that stops it.  The
//! executable `step` performs exactly one `step_spec` transition, and
//! `instructs` runs steps from the booted state until the program halts,
//! faults, or a caller-given step budget runs out.

use crate::instruction::{Instruction, decode, lemma_decode_fields_bounded, spec_decode};
use crate::machine;
use crate::machine::{with_reg, wrap_add, wrap_mul};
use crate::memory::{
    Fault, MemView, UmState, can_map, spec_map, spec_replace_zero, spec_store, spec_unmap,
    zero_seq,
};
use vstd::prelude::*;

verus! {

/// Whether the machine still runs, has halted cleanly, or has stopped on
/// a fault.
pub ghost enum Status {
    Running,
    Halted,
    Faulted(Fault),
}

/// The whole picture of a machine in flight: its state, the input bytes
/// not yet read, the output bytes emitted so far, and its status.
#[verifier::ext_equal]
pub ghost struct VmView {
    pub mem: MemView,
    pub input: Seq<u8>,
    pub output: Seq<u8>,
    pub status: Status,
}

/// The view stopped by fault `f`, everything else as it stood.
pub open spec fn faulted(v: VmView, f: Fault) -> VmView {
    VmView { status: Status::Faulted(f), ..v }
}

/// One instruction's worth of the machine's semantics: fetch at the
/// counter, decode, dispatch — or the fault that stops it.  A machine no
/// longer running does not move.
pub open spec fn step_spec(v: VmView) -> VmView {
    if !(v.status is Running) {
        v
    } else {
        let prog = v.mem.segs[0]->Some_0;
        if v.mem.pc >= prog.len() {
            faulted(v, Fault::PcOutOfBounds)
        } else {
            let word = prog[v.mem.pc as int];
            let next = MemView { pc: (v.mem.pc + 1) as nat, ..v.mem };
            match spec_decode(word) {
                Instruction::Invalid => faulted(v, Fault::InvalidOpcode),
                Instruction::LoadValue { reg, value } => VmView {
                    mem: with_reg(next, reg, value),
                    ..v
                },
                Instruction::Standard { op, a, b, c } => {
                    let ra = next.regs[a as int];
                    let rb = next.regs[b as int];
                    let rc = next.regs[c as int];
                    if op == 0 {
                        VmView {
                            mem: if rc != 0 {
                                with_reg(next, a, rb)
                            } else {
                                next
                            },
                            ..v
                        }
                    } else if op == 1 {
                        if next.live(rb) && rc < next.seg(rb).len() {
                            VmView { mem: with_reg(next, a, next.seg(rb)[rc as int]), ..v }
                        } else {
                            faulted(v, Fault::OutOfBounds)
                        }
                    } else if op == 2 {
                        if next.live(ra) && rb < next.seg(ra).len() {
                            VmView { mem: spec_store(next, ra, rb, rc), ..v }
                        } else {
                            faulted(v, Fault::OutOfBounds)
                        }
                    } else if op == 3 {
                        VmView { mem: with_reg(next, a, wrap_add(rb, rc)), ..v }
                    } else if op == 4 {
                        VmView { mem: with_reg(next, a, wrap_mul(rb, rc)), ..v }
                    } else if op == 5 {
                        if rc == 0 {
                            faulted(v, Fault::DivideByZero)
                        } else {
                            VmView { mem: with_reg(next, a, (rb / rc) as u32), ..v }
                        }
                    } else if op == 6 {
                        VmView { mem: with_reg(next, a, !(rb & rc)), ..v }
                    } else if op == 7 {
                        VmView { status: Status::Halted, ..v }
                    } else if op == 8 {
                        if can_map(next) {
                            VmView {
                                mem: with_reg(spec_map(next, rc).0, b, spec_map(next, rc).1),
                                ..v
                            }
                        } else {
                            faulted(v, Fault::OutOfBounds)
                        }
                    } else if op == 9 {
                        if rc != 0 && next.live(rc) {
                            VmView { mem: spec_unmap(next, rc), ..v }
                        } else {
                            faulted(v, Fault::BadUnmap)
                        }
                    } else if op == 10 {
                        if rc <= 255 {
                            VmView { mem: next, output: v.output.push(rc as u8), ..v }
                        } else {
                            faulted(v, Fault::OutputTooLarge)
                        }
                    } else if op == 11 {
                        if v.input.len() > 0 {
                            VmView {
                                mem: with_reg(next, c, v.input[0] as u32),
                                input: v.input.drop_first(),
                                ..v
                            }
                        } else {
                            VmView { mem: with_reg(next, c, u32::MAX), ..v }
                        }
                    } else {
                        if rb == 0 {
                            VmView { mem: MemView { pc: rc as nat, ..next }, ..v }
                        } else if next.live(rb) {
                            VmView {
                                mem: MemView { pc: rc as nat, ..spec_replace_zero(next, rb) },
                                ..v
                            }
                        } else {
                            faulted(v, Fault::OutOfBounds)
                        }
                    }
                },
            }
        }
    }
}

/// The view after `n` steps from `v`.
pub open spec fn run_n(v: VmView, n: nat) -> VmView
    decreases n,
{
    if n == 0 {
        v
    } else {
        step_spec(run_n(v, (n - 1) as nat))
    }
}

/// The machine about to run `program` on `input`: registers zeroed,
/// segment 0 holding the program, the counter at 0, nothing read or
/// emitted yet.
pub open spec fn boot_view(program: Seq<u32>, input: Seq<u8>) -> VmView {
    VmView {
        mem: MemView {
            regs: zero_seq(8),
            segs: seq![Some(program)],
            free: Seq::empty(),
            pc: 0,
        },
        input,
        output: Seq::empty(),
        status: Status::Running,
    }
}

/// How a run of the machine ended: a clean halt, the first fault met, or
/// the caller's step budget spent with the program still running.
#[derive(Debug, Clone, Copy, PartialEq, Eq, Structural)]
pub enum RunResult {
    /// The program executed a halt instruction.
    Halted,
    /// The program met the named fatal condition.
    Faulted(Fault),
    /// The step budget ran out first.
    OutOfSteps,
}

/// Perform exactly one `step_spec` transition on the running machine.
/// `Ok(true)` continues, `Ok(false)` is a clean halt, and `Err(f)` is the
/// fault that `step_spec` assigns the same view; the state, the input
/// cursor and the output buffer land exactly where the spec says.
pub fn step(state: &mut UmState, input: &Vec<u8>, cursor: &mut usize, output: &mut Vec<u8>) -> (r:
    Result<bool, Fault>)
    requires
        old(state)@.wf(),
        *old(cursor) <= input@.len(),
    ensures
        final(state)@.wf(),
        *final(cursor) <= input@.len(),
        ({
            let pre = VmView {
                mem: old(state)@,
                input: input@.skip(*old(cursor) as int),
                output: old(output)@,
                status: Status::Running,
            };
            let post = step_spec(pre);
            &&& post.mem == final(state)@
            &&& post.input == input@.skip(*final(cursor) as int)
            &&& post.output == final(output)@
            &&& post.status == (match r {
                Ok(true) => Status::Running,
                Ok(false) => Status::Halted,
                Err(f) => Status::Faulted(f),
            })
        }),
{
    let ghost pre = VmView {
        mem: old(state)@,
        input: input@.skip(*old(cursor) as int),
        output: old(output)@,
        status: Status::Running,
    };
    let pc = state.pc;
    let word = match &state.segments[0] {
        Some(prog) => {
            if pc >= prog.len() {
                return Err(Fault::PcOutOfBounds);
            }
            prog[pc]
        },
        None => {
            proof {
                assert(false);
            }
            0
        },
    };
    proof {
        lemma_decode_fields_bounded(word);
    }
    match decode(word) {
        Instruction::Invalid => Err(Fault::InvalidOpcode),
        Instruction::LoadValue { reg, value } => {
            state.pc = pc + 1;
            machine::load_value(state, reg, value);
            Ok(true)
        },
        Instruction::Standard { op, a, b, c } => {
            let ra = state.registers[a];
            let rb = state.registers[b];
            let rc = state.registers[c];
            if op == 0 {
                state.pc = pc + 1;
                machine::cmov(state, a, b, c);
                Ok(true)
            } else if op == 1 {
                match state.seg_len(rb) {
                    Some(n) => {
                        if (rc as usize) < n {
                            state.pc = pc + 1;
                            machine::sload(state, a, b, c);
                            Ok(true)
                        } else {
                            Err(Fault::OutOfBounds)
                        }
                    },
                    None => Err(Fault::OutOfBounds),
                }
            } else if op == 2 {
                match state.seg_len(ra) {
                    Some(n) => {
                        if (rb as usize) < n {
                            state.pc = pc + 1;
                            machine::store(state, a, b, c);
                            Ok(true)
                        } else {
                            Err(Fault::OutOfBounds)
                        }
                    },
                    None => Err(Fault::OutOfBounds),
                }
            } else if op == 3 {
                state.pc = pc + 1;
                machine::add(state, a, b, c);
                Ok(true)
            } else if op == 4 {
                state.pc = pc + 1;
                machine::mul(state, a, b, c);
                Ok(true)
            } else if op == 5 {
                if rc == 0 {
                    Err(Fault::DivideByZero)
                } else {
                    state.pc = pc + 1;
                    machine::div(state, a, b, c);
                    Ok(true)
                }
            } else if op == 6 {
                state.pc = pc + 1;
                machine::nand(state, a, b, c);
                Ok(true)
            } else if op == 7 {
                Ok(false)
            } else if op == 8 {
                if state.free.len() > 0 || state.segments.len() <= (u32::MAX as usize) {
                    state.pc = pc + 1;
                    machine::map_seg(state, b, c);
                    Ok(true)
                } else {
                    Err(Fault::OutOfBounds)
                }
            } else if op == 9 {
                if rc != 0 && state.is_live(rc) {
                    state.pc = pc + 1;
                    machine::unmap_seg(state, c);
                    Ok(true)
                } else {
                    Err(Fault::BadUnmap)
                }
            } else if op == 10 {
                if rc <= 255 {
                    state.pc = pc + 1;
                    output.push(rc as u8);
                    Ok(true)
                } else {
                    Err(Fault::OutputTooLarge)
                }
            } else if op == 11 {
                state.pc = pc + 1;
                let byte = if *cursor < input.len() {
                    let b = input[*cursor];
                    *cursor = *cursor + 1;
                    Some(b)
                } else {
                    None
                };
                let v = machine::input_register_value(byte);
                machine::load_value(state, c, v);
                proof {
                    if pre.input.len() > 0 {
                        assert(input@.skip(*final(cursor) as int) =~= pre.input.drop_first());
                    }
                }
                Ok(true)
            } else {
                if rb == 0 || state.is_live(rb) {
                    state.pc = pc + 1;
                    machine::load_program(state, b, c);
                    Ok(true)
                } else {
                    Err(Fault::OutOfBounds)
                }
            }
        },
    }
}

/// Run `instructions` from a fresh boot, reading input bytes from
/// `input`, for at most `max_steps` instructions.  The bytes emitted and
/// the way the run ended are exactly those of the spec-level machine run
/// step by step from the booted view: some number of steps within the
/// budget, all but the last still running.  Output emitted before a
/// fault stands.
#[verifier::rlimit(100)]
pub fn instructs(instructions: Vec<u32>, input: Vec<u8>, max_steps: u64) -> (r: (
    Vec<u8>,
    RunResult,
))
    ensures
        exists|n: nat|
            {
                let fin = #[trigger] run_n(boot_view(instructions@, input@), n);
                &&& n <= max_steps
                &&& r.0@ == fin.output
                &&& match r.1 {
                    RunResult::Halted => fin.status is Halted,
                    RunResult::Faulted(f) => fin.status == Status::Faulted(f),
                    RunResult::OutOfSteps => fin.status is Running && n == max_steps,
                }
                &&& forall|m: nat|
                    m < n ==> (#[trigger] run_n(
                        boot_view(instructions@, input@),
                        m,
                    )).status is Running
            },
{
    let ghost init = boot_view(instructions@, input@);
    let mut state = UmState::boot(instructions);
    let mut cursor: usize = 0;
    let mut output: Vec<u8> = Vec::new();
    let mut steps: u64 = 0;
    proof {
        assert(state@ =~~= init.mem);
        assert(input@.skip(0) =~= input@);
    }
    while steps < max_steps
        invariant
            init == boot_view(instructions@, input@),
            state@.wf(),
            cursor <= input@.len(),
            steps <= max_steps,
            run_n(init, steps as nat).status is Running,
            run_n(init, steps as nat).mem == state@,
            run_n(init, steps as nat).input == input@.skip(cursor as int),
            run_n(init, steps as nat).output == output@,
            forall|m: nat| m < steps ==> (#[trigger] run_n(init, m)).status is Running,
        decreases max_steps - steps,
    {
        let ghost pre = VmView {
            mem: state@,
            input: input@.skip(cursor as int),
            output: output@,
            status: Status::Running,
        };
        proof {
            assert(pre =~~= run_n(init, steps as nat));
        }
        match step(&mut state, &input, &mut cursor, &mut output) {
            Ok(true) => {
                proof {
                    assert(run_n(init, (steps + 1) as nat) == step_spec(run_n(init, steps as nat)));
                }
                steps = steps + 1;
            },
            Ok(false) => {
                proof {
                    assert(run_n(init, (steps + 1) as nat) == step_spec(run_n(init, steps as nat)));
                    assert(run_n(init, (steps + 1) as nat).status is Halted);
                    assert forall|m: nat| m < steps + 1 implies (#[trigger] run_n(
                        init,
                        m,
                    )).status is Running by {
                        if m < steps {
                        } else {
                            assert(run_n(init, m) == run_n(init, steps as nat));
                        }
                    }
                }
                return (output, RunResult::Halted);
            },
            Err(f) => {
                proof {
                    assert(run_n(init, (steps + 1) as nat) == step_spec(run_n(init, steps as nat)));
                    assert(run_n(init, (steps + 1) as nat).status == Status::Faulted(f));
                    assert forall|m: nat| m < steps + 1 implies (#[trigger] run_n(
                        init,
                        m,
                    )).status is Running by {
                        if m < steps {
                        } else {
                            assert(run_n(init, m) == run_n(init, steps as nat));
                        }
                    }
                }
                return (output, RunResult::Faulted(f));
            },
        }
    }
    (output, RunResult::OutOfSteps)
}

} // verus!
