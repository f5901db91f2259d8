//! The machine's state: eight registers, segmented memory with free-list
//! index reuse, and the program counter.
//!
//! Segments are held in an arena of optional slots.  A slot holding
//! `Some` is live; unmapping turns it to `None` and stacks its index on
//! the free list for the next `map` to reuse.  Segment 0 holds the
//! running program; it always exists and is never recycled.  The
//! spec-level picture of a state is a `MemView`, and every operation's
//! contract names its exact transition on that view.

use vstd::prelude::*;

verus! {

/// One fatal condition of the machine.  Each reflects a defect in the
/// emulated program; none is recoverable, and the engine stops on the
/// first of them it meets.
#[derive(Debug, Clone, Copy, PartialEq, Eq, Structural)]
pub enum Fault {
    /// The program counter left segment 0.
    PcOutOfBounds,
    /// The fetched word's opcode is 14 or 15.
    InvalidOpcode,
    /// A segment reference named an unmapped segment or an offset past a
    /// segment's end, or no unused 32-bit segment index was left to map.
    OutOfBounds,
    /// An unmap named segment 0, an unmapped index, or one past the arena.
    BadUnmap,
    /// A divide instruction met a zero divisor.
    DivideByZero,
    /// An output instruction met a register value above 255.
    OutputTooLarge,
}

/// The mathematical picture of a machine state: register contents, the
/// arena of segments (`None` marks an unmapped slot), the free list, and
/// the program counter.
#[verifier::ext_equal]
pub ghost struct MemView {
    pub regs: Seq<u32>,
    pub segs: Seq<Option<Seq<u32>>>,
    pub free: Seq<u32>,
    pub pc: nat,
}

impl MemView {
    /// Well-formedness: eight registers, a live segment 0, every free
    /// index naming a distinct unmapped slot of the arena, and no more
    /// slots than 32-bit ids can name.
    pub open spec fn wf(self) -> bool {
        &&& self.regs.len() == 8
        &&& 1 <= self.segs.len() <= 0x1_0000_0000
        &&& self.segs[0] is Some
        &&& forall|i: int|
            0 <= i < self.free.len() ==> {
                &&& 1 <= #[trigger] self.free[i] < self.segs.len()
                &&& self.segs[self.free[i] as int] is None
            }
        &&& forall|i: int, j: int|
            0 <= i < j < self.free.len() ==> self.free[i] != self.free[j]
    }

    /// Whether `id` names a currently mapped segment.
    pub open spec fn live(self, id: u32) -> bool {
        id < self.segs.len() && self.segs[id as int] is Some
    }

    /// The words of the live segment `id`.
    pub open spec fn seg(self, id: u32) -> Seq<u32> {
        self.segs[id as int]->Some_0
    }
}

/// A segment of `n` words, all zero.
pub open spec fn zero_seq(n: nat) -> Seq<u32> {
    Seq::new(n, |i: int| 0u32)
}

/// Whether a fresh segment can be mapped at all: either an index waits on
/// the free list, or a new 32-bit index is still available.
pub open spec fn can_map(m: MemView) -> bool {
    m.free.len() > 0 || m.segs.len() <= u32::MAX
}

/// The state after mapping a zero-filled segment of `size` words, and the
/// index given out: the most recently freed index when one exists, else
/// the next fresh one.
pub open spec fn spec_map(m: MemView, size: u32) -> (MemView, u32) {
    if m.free.len() > 0 {
        let id = m.free.last();
        (
            MemView {
                segs: m.segs.update(id as int, Some(zero_seq(size as nat))),
                free: m.free.drop_last(),
                ..m
            },
            id,
        )
    } else {
        (MemView { segs: m.segs.push(Some(zero_seq(size as nat))), ..m }, m.segs.len() as u32)
    }
}

/// The state after unmapping the live, nonzero segment `id`: its slot is
/// cleared and its index stacked for reuse.
pub open spec fn spec_unmap(m: MemView, id: u32) -> MemView {
    MemView { segs: m.segs.update(id as int, None), free: m.free.push(id), ..m }
}

/// The state after storing `value` at `offset` of the live segment `id`.
pub open spec fn spec_store(m: MemView, id: u32, offset: u32, value: u32) -> MemView {
    MemView { segs: m.segs.update(id as int, Some(m.seg(id).update(offset as int, value))), ..m }
}

/// The state after copying the live segment `id` over segment 0.
pub open spec fn spec_replace_zero(m: MemView, id: u32) -> MemView {
    MemView { segs: m.segs.update(0, m.segs[id as int]), ..m }
}

/// The machine state: registers, the segment arena, the free list of
/// reusable indices, and the program counter.
pub struct UmState {
    /// The eight general registers.
    pub registers: Vec<u32>,
    /// The arena of segments; `None` is an unmapped slot.
    pub segments: Vec<Option<Vec<u32>>>,
    /// Unmapped indices waiting for reuse, most recently freed last.
    pub free: Vec<u32>,
    /// The index into segment 0 of the next instruction.
    pub pc: usize,
}

impl View for UmState {
    type V = MemView;

    open spec fn view(&self) -> MemView {
        MemView {
            regs: self.registers@,
            segs: Seq::new(
                self.segments@.len(),
                |i: int|
                    match self.segments@[i] {
                        Some(words) => Some(words@),
                        None => None,
                    },
            ),
            free: self.free@,
            pc: self.pc as nat,
        }
    }
}

/// A zero-filled vector of `size` words: the contents of a fresh segment.
pub fn zero_segment(size: u32) -> (v: Vec<u32>)
    ensures
        v@ == zero_seq(size as nat),
{
    let mut v: Vec<u32> = Vec::new();
    let mut n: u32 = 0;
    while n < size
        invariant
            n <= size,
            v@.len() == n,
            forall|i: int| 0 <= i < n ==> v@[i] == 0u32,
        decreases size - n,
    {
        v.push(0);
        n = n + 1;
    }
    proof {
        assert(v@ =~= zero_seq(size as nat));
    }
    v
}

impl UmState {
    /// A machine about to run `program`: registers zeroed, segment 0
    /// holding the program, nothing on the free list, the counter at 0.
    pub fn boot(program: Vec<u32>) -> (s: UmState)
        ensures
            s@.wf(),
            s@.regs == zero_seq(8),
            s@.segs == seq![Some(program@)],
            s@.free == Seq::<u32>::empty(),
            s@.pc == 0,
    {
        let registers = zero_segment(8);
        let mut segments: Vec<Option<Vec<u32>>> = Vec::new();
        segments.push(Some(program));
        let s = UmState { registers, segments, free: Vec::new(), pc: 0 };
        proof {
            assert(s@.segs =~= seq![Some(program@)]);
        }
        s
    }

    /// Map a zero-filled segment of `size` words, reusing the most
    /// recently freed index when one exists.  The id handed back is never
    /// 0 and never that of a segment still live.  Fails only when every
    /// 32-bit index is taken.
    pub fn map(&mut self, size: u32) -> (r: Result<u32, Fault>)
        requires
            old(self)@.wf(),
        ensures
            final(self)@.wf(),
            r is Err <==> !can_map(old(self)@),
            r matches Err(f) ==> f == Fault::OutOfBounds && final(self)@ == old(self)@,
            r matches Ok(id) ==> {
                &&& final(self)@ == spec_map(old(self)@, size).0
                &&& id == spec_map(old(self)@, size).1
                &&& id != 0
                &&& !old(self)@.live(id)
                &&& final(self)@.live(id)
            },
    {
        let words = zero_segment(size);
        if self.free.len() > 0 {
            let id = self.free.pop().unwrap_or(0);
            self.segments[id as usize] = Some(words);
            proof {
                assert(final(self)@.segs =~~= spec_map(old(self)@, size).0.segs);
                assert(final(self)@ =~~= spec_map(old(self)@, size).0);
                let m2 = final(self)@;
                assert forall|i: int| 0 <= i < m2.free.len() implies {
                    &&& 1 <= #[trigger] m2.free[i] < m2.segs.len()
                    &&& m2.segs[m2.free[i] as int] is None
                } by {
                    assert(old(self)@.free[i] == m2.free[i]);
                    assert(m2.free[i] != id);
                }
            }
            Ok(id)
        } else if self.segments.len() <= (u32::MAX as usize) {
            let id = self.segments.len() as u32;
            self.segments.push(Some(words));
            proof {
                assert(final(self)@.segs =~~= spec_map(old(self)@, size).0.segs);
                assert(final(self)@ =~~= spec_map(old(self)@, size).0);
            }
            Ok(id)
        } else {
            Err(Fault::OutOfBounds)
        }
    }

    /// Unmap segment `id`, stacking its index for reuse.  Fails exactly
    /// on segment 0 and on indices not currently live.
    pub fn unmap(&mut self, id: u32) -> (r: Result<(), Fault>)
        requires
            old(self)@.wf(),
        ensures
            final(self)@.wf(),
            r is Err <==> (id == 0 || !old(self)@.live(id)),
            r matches Err(f) ==> f == Fault::BadUnmap && final(self)@ == old(self)@,
            r is Ok ==> final(self)@ == spec_unmap(old(self)@, id) && !final(self)@.live(id),
    {
        if id == 0 || (id as usize) >= self.segments.len() {
            return Err(Fault::BadUnmap);
        }
        if self.segments[id as usize].is_none() {
            return Err(Fault::BadUnmap);
        }
        self.segments[id as usize] = None;
        self.free.push(id);
        proof {
            assert(final(self)@.segs =~~= spec_unmap(old(self)@, id).segs);
            assert(final(self)@ =~~= spec_unmap(old(self)@, id));
            let m2 = final(self)@;
            assert forall|i: int, j: int| 0 <= i < j < m2.free.len() implies m2.free[i]
                != m2.free[j] by {
                if j == m2.free.len() - 1 {
                    assert(old(self)@.segs[old(self)@.free[i] as int] is None);
                }
            }
        }
        Ok(())
    }

    /// Read the word at `offset` of segment `id`.  Fails exactly on a
    /// reference to an unmapped segment or an offset past its end.
    pub fn load(&self, id: u32, offset: u32) -> (r: Result<u32, Fault>)
        requires
            self@.wf(),
        ensures
            r is Err <==> (!self@.live(id) || offset >= self@.seg(id).len()),
            r matches Err(f) ==> f == Fault::OutOfBounds,
            r matches Ok(v) ==> v == self@.seg(id)[offset as int],
    {
        if (id as usize) >= self.segments.len() {
            return Err(Fault::OutOfBounds);
        }
        match &self.segments[id as usize] {
            Some(words) => {
                if (offset as usize) < words.len() {
                    Ok(words[offset as usize])
                } else {
                    Err(Fault::OutOfBounds)
                }
            },
            None => Err(Fault::OutOfBounds),
        }
    }

    /// Write `value` at `offset` of segment `id`.  Fails exactly on a
    /// reference to an unmapped segment or an offset past its end.
    pub fn store(&mut self, id: u32, offset: u32, value: u32) -> (r: Result<(), Fault>)
        requires
            old(self)@.wf(),
        ensures
            final(self)@.wf(),
            r is Err <==> (!old(self)@.live(id) || offset >= old(self)@.seg(id).len()),
            r matches Err(f) ==> f == Fault::OutOfBounds && final(self)@ == old(self)@,
            r is Ok ==> final(self)@ == spec_store(old(self)@, id, offset, value),
    {
        if (id as usize) >= self.segments.len() {
            return Err(Fault::OutOfBounds);
        }
        match &mut self.segments[id as usize] {
            Some(words) => {
                if (offset as usize) < words.len() {
                    words[offset as usize] = value;
                    proof {
                        assert(final(self)@.segs =~~= spec_store(
                            old(self)@,
                            id,
                            offset,
                            value,
                        ).segs);
                        assert(final(self)@ =~~= spec_store(old(self)@, id, offset, value));
                    }
                    Ok(())
                } else {
                    Err(Fault::OutOfBounds)
                }
            },
            None => Err(Fault::OutOfBounds),
        }
    }

    /// Whether `id` names a currently mapped segment.
    pub fn is_live(&self, id: u32) -> (r: bool)
        ensures
            r == self@.live(id),
    {
        (id as usize) < self.segments.len() && self.segments[id as usize].is_some()
    }

    /// The length of segment `id`, or `None` when `id` is not live.
    pub fn seg_len(&self, id: u32) -> (r: Option<usize>)
        ensures
            r is Some <==> self@.live(id),
            r matches Some(n) ==> n == self@.seg(id).len(),
    {
        if (id as usize) < self.segments.len() {
            match &self.segments[id as usize] {
                Some(words) => Some(words.len()),
                None => None,
            }
        } else {
            None
        }
    }

    /// Copy the full contents of segment `id` into segment 0; a no-op
    /// when `id` is 0.  Fails exactly when `id` is not live.
    pub fn replace_segment_zero(&mut self, id: u32) -> (r: Result<(), Fault>)
        requires
            old(self)@.wf(),
        ensures
            final(self)@.wf(),
            r is Err <==> !old(self)@.live(id),
            r matches Err(f) ==> f == Fault::OutOfBounds && final(self)@ == old(self)@,
            r is Ok ==> final(self)@ == if id == 0 {
                old(self)@
            } else {
                spec_replace_zero(old(self)@, id)
            },
    {
        if (id as usize) >= self.segments.len() {
            return Err(Fault::OutOfBounds);
        }
        if self.segments[id as usize].is_none() {
            return Err(Fault::OutOfBounds);
        }
        if id == 0 {
            return Ok(());
        }
        let copied = clone_words(&self.segments, id as usize);
        self.segments[0] = Some(copied);
        proof {
            assert(final(self)@.segs =~~= spec_replace_zero(old(self)@, id).segs);
            assert(final(self)@ =~~= spec_replace_zero(old(self)@, id));
        }
        Ok(())
    }
}

/// A copy of the words of the live segment at `idx` of the arena.
fn clone_words(segments: &Vec<Option<Vec<u32>>>, idx: usize) -> (v: Vec<u32>)
    requires
        idx < segments@.len(),
        segments@[idx as int] is Some,
    ensures
        v@ == segments@[idx as int]->Some_0@,
{
    let mut v: Vec<u32> = Vec::new();
    match &segments[idx] {
        Some(words) => {
            let mut n: usize = 0;
            while n < words.len()
                invariant
                    n <= words@.len(),
                    v@.len() == n,
                    forall|i: int| 0 <= i < n ==> v@[i] == words@[i],
                decreases words@.len() - n,
            {
                v.push(words[n]);
                n = n + 1;
            }
            proof {
                assert(v@ =~= words@);
            }
        },
        None => {
            proof {
                assert(false);
            }
        },
    }
    v
}

/// The 32-bit word the four bytes spell in big-endian order.
pub open spec fn be_word(b0: u8, b1: u8, b2: u8, b3: u8) -> u32 {
    (b0 * 0x100_0000 + b1 * 0x1_0000 + b2 * 0x100 + b3) as u32
}

/// Assemble a program image: each run of four bytes becomes one word in
/// big-endian order.  A trailing chunk shorter than four bytes is not
/// part of any word and is dropped.
pub fn words_from_bytes(bytes: &Vec<u8>) -> (words: Vec<u32>)
    ensures
        words@.len() == bytes@.len() / 4,
        forall|i: int|
            0 <= i < words@.len() ==> words@[i] == be_word(
                bytes@[4 * i],
                bytes@[4 * i + 1],
                bytes@[4 * i + 2],
                bytes@[4 * i + 3],
            ),
{
    let mut words: Vec<u32> = Vec::new();
    let mut n: usize = 0;
    let count = bytes.len() / 4;
    while n < count
        invariant
            n <= count,
            count == bytes@.len() / 4,
            bytes@.len() <= usize::MAX,
            words@.len() == n,
            forall|i: int|
                0 <= i < n ==> words@[i] == be_word(
                    bytes@[4 * i],
                    bytes@[4 * i + 1],
                    bytes@[4 * i + 2],
                    bytes@[4 * i + 3],
                ),
        decreases count - n,
    {
        proof {
            vstd::arithmetic::div_mod::lemma_fundamental_div_mod(bytes@.len() as int, 4);
            assert(4 * (n as int) + 3 < bytes@.len());
        }
        let b0 = bytes[4 * n];
        let b1 = bytes[4 * n + 1];
        let b2 = bytes[4 * n + 2];
        let b3 = bytes[4 * n + 3];
        let word = (b0 as u32) * 0x100_0000 + (b1 as u32) * 0x1_0000 + (b2 as u32) * 0x100
            + (b3 as u32);
        words.push(word);
        n = n + 1;
    }
    words
}

/// Every word of a freshly mapped segment reads zero: after a map of
/// `size` words hands out id `k`, position `i` of `k` holds 0 for every
/// `i` below `size`.
pub proof fn lemma_fresh_segment_reads_zero(m: MemView, size: u32, i: int)
    requires
        m.wf(),
        can_map(m),
        0 <= i < size,
    ensures
        ({
            let (m2, k) = spec_map(m, size);
            &&& m2.live(k)
            &&& m2.seg(k).len() == size
            &&& m2.seg(k)[i] == 0
        }),
{
}

/// Unmapping makes an id dead — any load or store of it fails until it
/// is mapped again — and the very next map hands the same id out again,
/// live once more.
pub proof fn lemma_unmap_then_map_reuses(m: MemView, id: u32, size: u32)
    requires
        m.wf(),
        id != 0,
        m.live(id),
    ensures
        ({
            let m2 = spec_unmap(m, id);
            &&& !m2.live(id)
            &&& spec_map(m2, size).1 == id
            &&& spec_map(m2, size).0.live(id)
        }),
{
}

} // verus!
