//! Cache maintenance.
//!
//! The CPU reads and writes memory through a write-back cache that other bus
//! masters do not see.  A region is handed over by cleaning it (dirty lines
//! are written back) and taken back by invalidating it (cached lines are
//! discarded).  Both work on whole lines, so a region that does not start or
//! end on a line boundary shares its outer lines with its neighbours.
//!
//! [`plan_invalidate`] and [`plan_clean`] say, step by step, what an
//! operation takes; carrying the steps out on the machine is left to the
//! caller.  [`Memory`] is a model of memory with two sides that carries them
//! out too, and on which [`invalidate_cache`] and [`cleanup_cache`] are shown
//! to do what they are for.

use vstd::prelude::*;

verus! {

/// Bytes in a cache line.
pub const LINE_SIZE: usize = 64;

/// Address of the line that holds `addr`.
pub open spec fn line_of(addr: int) -> int {
    addr - addr % 64
}

/// A run of consecutive cache lines, given by the addresses of its first and
/// its last line.
#[derive(Clone, Copy, Debug, PartialEq, Eq, Structural)]
pub struct Lines {
    pub first: usize,
    pub last: usize,
}

impl Lines {
    /// Whether the byte at `addr` lies in one of the lines.
    pub open spec fn holds(self, addr: int) -> bool {
        self.first <= addr < self.last + 64
    }

    /// The lines lie on line boundaries, and the first is not behind the
    /// last.
    pub open spec fn wf(self) -> bool {
        self.first % 64 == 0 && self.last % 64 == 0 && self.first <= self.last
    }
}

/// The lines that hold the bytes `start .. start + size`.
pub open spec fn cover(start: int, size: int) -> Lines {
    Lines { first: line_of(start) as usize, last: line_of(start + size - 1) as usize }
}

/// One of the two copies that are kept of the outer lines of a region.
#[derive(Clone, Copy, Debug, PartialEq, Eq, Structural)]
pub enum Slot {
    /// The copy of the line that the region starts in.
    First,
    /// The copy of the line that the region ends in.
    Last,
}

/// One thing to do to the cache, or around it.
#[derive(Clone, Copy, Debug, PartialEq, Eq, Structural)]
pub enum Step {
    /// Keep a copy of the line at `line` in `slot`.
    Save { slot: Slot, line: usize },
    /// Issue a release barrier.
    Release,
    /// Discard the cached copy of each of the lines.
    Invalidate(Lines),
    /// Write each of the lines back.
    Clean(Lines),
    /// Issue an acquire barrier.
    Acquire,
    /// Write the bytes `from .. from + count` of the copy in `slot` back to
    /// the line that the copy was taken from.
    Restore { slot: Slot, from: usize, count: usize },
}

/// What invalidating the region `start .. start + size` takes.  Discarding a
/// line discards all of it, so what the outer lines hold around the region
/// is kept aside first and put back afterwards.
pub open spec fn invalidation(start: int, size: int) -> Seq<Step> {
    if size == 0 {
        Seq::empty()
    } else {
        let lines = cover(start, size);
        let end = start + size;
        seq![
            Step::Save { slot: Slot::First, line: lines.first },
            Step::Save { slot: Slot::Last, line: lines.last },
            Step::Release,
            Step::Invalidate(lines),
            Step::Acquire,
            Step::Restore { slot: Slot::First, from: 0, count: (start - lines.first) as usize },
            Step::Restore {
                slot: Slot::Last,
                from: (end - lines.last) as usize,
                count: (lines.last + 64 - end) as usize,
            },
        ]
    }
}

/// What cleaning the region `start .. start + size` takes.  Writing a line
/// back destroys nothing, so the outer lines are written back whole.
pub open spec fn cleaning(start: int, size: int) -> Seq<Step> {
    if size == 0 {
        Seq::empty()
    } else {
        seq![Step::Release, Step::Clean(cover(start, size))]
    }
}

proof fn lemma_line_of(addr: usize)
    ensures
        addr & !63usize == line_of(addr as int),
        0 <= line_of(addr as int) <= addr < line_of(addr as int) + 64,
        line_of(addr as int) % 64 == 0,
        line_of(addr as int) + 63 <= usize::MAX,
{
    assert(addr & !63usize == addr - addr % 64) by (bit_vector);
    assert(usize::MAX == 0xffff_ffff || usize::MAX == 0xffff_ffff_ffff_ffff);
}

/// The lines that hold the bytes `start .. start + size`.
fn lines_over(start: usize, size: usize) -> (lines: Lines)
    requires
        size > 0,
        start + size <= usize::MAX,
    ensures
        lines == cover(start as int, size as int),
        lines.wf(),
        lines.first <= start,
        start + size <= lines.last + 64,
{
    let end: usize = start + (size - 1);
    proof {
        lemma_line_of(start);
        lemma_line_of(end);
        assert(start & !63usize <= end & !63usize) by (bit_vector)
            requires
                start <= end,
        ;
    }
    Lines { first: start & !63, last: end & !63 }
}

/// The steps that clean the region `start .. start + size`: none for an
/// empty region.
pub fn plan_clean(start: usize, size: usize) -> (steps: Vec<Step>)
    requires
        start + size <= usize::MAX,
    ensures
        steps@ == cleaning(start as int, size as int),
{
    let mut steps: Vec<Step> = Vec::new();
    if size > 0 {
        steps.push(Step::Release);
        steps.push(Step::Clean(lines_over(start, size)));
    }
    assert(steps@ =~= cleaning(start as int, size as int));
    steps
}

/// The steps that invalidate the region `start .. start + size`: none for
/// an empty region.
pub fn plan_invalidate(start: usize, size: usize) -> (steps: Vec<Step>)
    requires
        start + size <= usize::MAX,
    ensures
        steps@ == invalidation(start as int, size as int),
{
    let mut steps: Vec<Step> = Vec::new();
    if size > 0 {
        let lines = lines_over(start, size);
        let end: usize = start + size;
        steps.push(Step::Save { slot: Slot::First, line: lines.first });
        steps.push(Step::Save { slot: Slot::Last, line: lines.last });
        steps.push(Step::Release);
        steps.push(Step::Invalidate(lines));
        steps.push(Step::Acquire);
        steps.push(Step::Restore { slot: Slot::First, from: 0, count: start - lines.first });
        steps.push(
            Step::Restore {
                slot: Slot::Last,
                from: end - lines.last,
                count: 64 - (end - lines.last),
            },
        );
    }
    assert(steps@ =~= invalidation(start as int, size as int));
    steps
}

/// A copy of a line: where it was taken from, and its 64 bytes.
pub struct Kept {
    pub line: int,
    pub bytes: Seq<u8>,
}

/// Memory as its two sides see it.
///
/// The CPU goes through its cache, other bus masters go to the memory behind
/// it.  Where a line is cached and dirty the two sides differ until the line
/// is cleaned or invalidated; the model lets them differ anywhere, as if any
/// line could be cached at any time.  Barriers do nothing to it, since it
/// does one thing after the other anyway.  Addresses count from the start of
/// the model, which holds whole lines.
pub struct Memory {
    cpu: Vec<u8>,
    ram: Vec<u8>,
    first: Vec<u8>,
    first_line: usize,
    last: Vec<u8>,
    last_line: usize,
}

impl Memory {
    /// The bytes as the CPU reads them.
    pub closed spec fn cpu(self) -> Seq<u8> {
        self.cpu@
    }

    /// The bytes as other bus masters read them.
    pub closed spec fn ram(self) -> Seq<u8> {
        self.ram@
    }

    /// The copy that is kept in `slot`, if any.
    pub closed spec fn kept(self, slot: Slot) -> Option<Kept> {
        match slot {
            Slot::First => if self.first.len() == 64 {
                Some(Kept { line: self.first_line as int, bytes: self.first@ })
            } else {
                None
            },
            Slot::Last => if self.last.len() == 64 {
                Some(Kept { line: self.last_line as int, bytes: self.last@ })
            } else {
                None
            },
        }
    }

    /// Number of bytes.
    pub open spec fn size(self) -> nat {
        self.cpu().len()
    }

    /// The two sides hold equally many bytes, in whole lines, and the copies
    /// are of lines of this memory.  Every function here that makes or
    /// changes a `Memory` sees to that.
    pub open spec fn wf(self) -> bool {
        &&& self.cpu().len() == self.ram().len()
        &&& self.size() % 64 == 0
        &&& self.kept(Slot::First) matches Some(copy) ==> self.holds_line(copy)
        &&& self.kept(Slot::Last) matches Some(copy) ==> self.holds_line(copy)
    }

    /// Whether `copy` is of a line of this memory.
    pub open spec fn holds_line(self, copy: Kept) -> bool {
        &&& copy.bytes.len() == 64
        &&& 0 <= copy.line
        &&& copy.line % 64 == 0
        &&& copy.line + 64 <= self.size()
    }

    /// Whether `step` can be taken: its lines are lines of this memory, and
    /// what it puts back has been kept.
    pub open spec fn admits(self, step: Step) -> bool {
        match step {
            Step::Save { slot, line } => line % 64 == 0 && line + 64 <= self.size(),
            Step::Invalidate(lines) => lines.wf() && lines.last + 64 <= self.size(),
            Step::Clean(lines) => lines.wf() && lines.last + 64 <= self.size(),
            Step::Restore { slot, from, count } => self.kept(slot) is Some && from + count <= 64,
            Step::Release => true,
            Step::Acquire => true,
        }
    }

    /// What this memory is once `before` has taken `step`.
    pub open spec fn follows(self, before: Memory, step: Step) -> bool {
        &&& self.size() == before.size()
        &&& match step {
            Step::Save { slot, line } => {
                &&& self.cpu() == before.cpu()
                &&& self.ram() == before.ram()
                &&& self.kept(slot) == Some(
                    Kept {
                        line: line as int,
                        bytes: before.cpu().subrange(line as int, line + 64),
                    },
                )
                &&& forall|other: Slot| other != slot ==> self.kept(other) == before.kept(other)
            },
            Step::Invalidate(lines) => {
                &&& self.ram() == before.ram()
                &&& forall|slot: Slot| self.kept(slot) == before.kept(slot)
                &&& forall|i: int|
                    #![trigger self.cpu()[i]]
                    0 <= i < self.size() ==> self.cpu()[i] == if lines.holds(i) {
                        before.ram()[i]
                    } else {
                        before.cpu()[i]
                    }
            },
            Step::Clean(lines) => {
                &&& self.cpu() == before.cpu()
                &&& forall|slot: Slot| self.kept(slot) == before.kept(slot)
                &&& forall|i: int|
                    #![trigger self.ram()[i]]
                    0 <= i < self.size() ==> self.ram()[i] == if lines.holds(i) {
                        before.cpu()[i]
                    } else {
                        before.ram()[i]
                    }
            },
            Step::Restore { slot, from, count } => {
                let copy = before.kept(slot)->Some_0;
                &&& self.ram() == before.ram()
                &&& forall|slot: Slot| self.kept(slot) == before.kept(slot)
                &&& forall|i: int|
                    #![trigger self.cpu()[i]]
                    0 <= i < self.size() ==> self.cpu()[i] == if copy.line + from <= i < copy.line
                        + from + count {
                        copy.bytes[i - copy.line]
                    } else {
                        before.cpu()[i]
                    }
            },
            Step::Release | Step::Acquire => {
                &&& self.cpu() == before.cpu()
                &&& self.ram() == before.ram()
                &&& forall|slot: Slot| self.kept(slot) == before.kept(slot)
            },
        }
    }

    /// `lines` cache lines of zeroes, the same on both sides, and no copy
    /// kept.
    pub fn new(lines: usize) -> (mem: Memory)
        requires
            lines * 64 <= usize::MAX,
        ensures
            mem.wf(),
            mem.size() == lines * 64,
            mem.cpu() == Seq::new(mem.size(), |i: int| 0u8),
            mem.ram() == mem.cpu(),
            mem.kept(Slot::First) is None,
            mem.kept(Slot::Last) is None,
    {
        let mut cpu: Vec<u8> = Vec::new();
        let mut ram: Vec<u8> = Vec::new();
        let mut n: usize = 0;
        while n < lines
            invariant
                n <= lines,
                lines * 64 <= usize::MAX,
                cpu.len() == n * 64,
                ram.len() == n * 64,
                forall|i: int| 0 <= i < cpu.len() ==> cpu[i] == 0,
                forall|i: int| 0 <= i < ram.len() ==> ram[i] == 0,
            decreases lines - n,
        {
            let mut k: usize = 0;
            while k < 64
                invariant
                    k <= 64,
                    n < lines,
                    lines * 64 <= usize::MAX,
                    cpu.len() == n * 64 + k,
                    ram.len() == n * 64 + k,
                    forall|i: int| 0 <= i < cpu.len() ==> cpu[i] == 0,
                    forall|i: int| 0 <= i < ram.len() ==> ram[i] == 0,
                decreases 64 - k,
            {
                cpu.push(0);
                ram.push(0);
                k += 1;
            }
            n += 1;
        }
        let mem = Memory {
            cpu,
            ram,
            first: Vec::new(),
            first_line: 0,
            last: Vec::new(),
            last_line: 0,
        };
        assert(mem.cpu() =~= Seq::new(mem.size(), |i: int| 0u8));
        assert(mem.ram() =~= mem.cpu());
        mem
    }

    /// Number of bytes.
    pub fn len(&self) -> (n: usize)
        ensures
            n == self.size(),
    {
        self.cpu.len()
    }

    /// The CPU reads the byte at `addr`.
    pub fn load(&self, addr: usize) -> (byte: u8)
        requires
            addr < self.size(),
        ensures
            byte == self.cpu()[addr as int],
    {
        self.cpu[addr]
    }

    /// The CPU writes `byte` at `addr`.  The write stays in the cache.
    pub fn store(&mut self, addr: usize, byte: u8)
        requires
            old(self).wf(),
            addr < old(self).size(),
        ensures
            final(self).wf(),
            final(self).cpu() == old(self).cpu().update(addr as int, byte),
            final(self).ram() == old(self).ram(),
            forall|slot: Slot| final(self).kept(slot) == old(self).kept(slot),
    {
        self.cpu.set(addr, byte);
    }

    /// Another bus master reads the byte at `addr`.
    pub fn device_load(&self, addr: usize) -> (byte: u8)
        requires
            self.wf(),
            addr < self.size(),
        ensures
            byte == self.ram()[addr as int],
    {
        self.ram[addr]
    }

    /// Another bus master writes `byte` at `addr`.  The cache does not
    /// notice.
    pub fn device_store(&mut self, addr: usize, byte: u8)
        requires
            old(self).wf(),
            addr < old(self).size(),
        ensures
            final(self).wf(),
            final(self).ram() == old(self).ram().update(addr as int, byte),
            final(self).cpu() == old(self).cpu(),
            forall|slot: Slot| final(self).kept(slot) == old(self).kept(slot),
    {
        self.ram.set(addr, byte);
    }

    /// Takes one step.
    pub fn apply(&mut self, step: Step)
        requires
            old(self).wf(),
            old(self).admits(step),
        ensures
            final(self).wf(),
            final(self).follows(*old(self), step),
    {
        match step {
            Step::Save { slot, line } => {
                let copy = self.copy_line(line);
                match slot {
                    Slot::First => {
                        self.first = copy;
                        self.first_line = line;
                    },
                    Slot::Last => {
                        self.last = copy;
                        self.last_line = line;
                    },
                }
                assert forall|other: Slot| other != slot implies self.kept(other) == old(
                    self,
                ).kept(other) by {}
            },
            Step::Invalidate(lines) => {
                self.invalidate_lines(lines);
            },
            Step::Clean(lines) => {
                self.clean_lines(lines);
            },
            Step::Restore { slot, from, count } => {
                self.restore(slot, from, count);
            },
            Step::Release => {},
            Step::Acquire => {},
        }
    }

    /// The 64 bytes that the CPU sees in the line at `line`.
    fn copy_line(&self, line: usize) -> (copy: Vec<u8>)
        requires
            self.wf(),
            line % 64 == 0,
            line + 64 <= self.size(),
        ensures
            copy@ == self.cpu().subrange(line as int, line + 64),
    {
        let mut copy: Vec<u8> = Vec::new();
        let mut k: usize = 0;
        while k < 64
            invariant
                k <= 64,
                line + 64 <= self.cpu.len(),
                copy@ == self.cpu@.subrange(line as int, line + k),
            decreases 64 - k,
        {
            copy.push(self.cpu[line + k]);
            k += 1;
            assert(copy@ =~= self.cpu@.subrange(line as int, line + k));
        }
        copy
    }

    /// Discards the cached copy of each of the lines: the CPU sees what lies
    /// behind the cache.
    fn invalidate_lines(&mut self, lines: Lines)
        requires
            old(self).wf(),
            old(self).admits(Step::Invalidate(lines)),
        ensures
            final(self).wf(),
            final(self).follows(*old(self), Step::Invalidate(lines)),
    {
        let total: usize = self.cpu.len();
        let end: usize = lines.last + 64;
        let mut at: usize = lines.first;
        while at < end
            invariant
                lines.first <= at <= end == lines.last + 64 <= self.cpu.len(),
                self.wf(),
                self.cpu.len() == old(self).cpu.len(),
                self.ram@ == old(self).ram@,
                forall|slot: Slot| self.kept(slot) == old(self).kept(slot),
                forall|i: int|
                    0 <= i < self.cpu.len() ==> self.cpu[i] == if lines.first <= i < at {
                        old(self).ram[i]
                    } else {
                        old(self).cpu[i]
                    },
            decreases end - at,
        {
            let byte: u8 = self.ram[at];
            self.cpu.set(at, byte);
            at += 1;
        }
    }

    /// Writes each of the lines back: other bus masters see what the CPU
    /// sees.
    fn clean_lines(&mut self, lines: Lines)
        requires
            old(self).wf(),
            old(self).admits(Step::Clean(lines)),
        ensures
            final(self).wf(),
            final(self).follows(*old(self), Step::Clean(lines)),
    {
        let total: usize = self.ram.len();
        let end: usize = lines.last + 64;
        let mut at: usize = lines.first;
        while at < end
            invariant
                lines.first <= at <= end == lines.last + 64 <= self.ram.len(),
                self.wf(),
                self.ram.len() == old(self).ram.len(),
                self.cpu@ == old(self).cpu@,
                forall|slot: Slot| self.kept(slot) == old(self).kept(slot),
                forall|i: int|
                    0 <= i < self.ram.len() ==> self.ram[i] == if lines.first <= i < at {
                        old(self).cpu[i]
                    } else {
                        old(self).ram[i]
                    },
            decreases end - at,
        {
            let byte: u8 = self.cpu[at];
            self.ram.set(at, byte);
            at += 1;
        }
    }

    /// Writes the bytes `from .. from + count` of the copy in `slot` back to
    /// the line that the copy was taken from.
    fn restore(&mut self, slot: Slot, from: usize, count: usize)
        requires
            old(self).wf(),
            old(self).admits(Step::Restore { slot, from, count }),
        ensures
            final(self).wf(),
            final(self).follows(*old(self), Step::Restore { slot, from, count }),
    {
        let line: usize = match slot {
            Slot::First => self.first_line,
            Slot::Last => self.last_line,
        };
        let ghost copy = self.kept(slot)->Some_0;
        let mut k: usize = from;
        while k < from + count
            invariant
                from <= k <= from + count <= 64,
                self.wf(),
                self.cpu.len() == old(self).cpu.len(),
                self.ram@ == old(self).ram@,
                forall|slot: Slot| self.kept(slot) == old(self).kept(slot),
                self.kept(slot) == Some(copy),
                copy.line == line,
                forall|i: int|
                    0 <= i < self.cpu.len() ==> self.cpu[i] == if line + from <= i < line + k {
                        copy.bytes[i - line]
                    } else {
                        old(self).cpu[i]
                    },
            decreases from + count - k,
        {
            let byte: u8 = match slot {
                Slot::First => self.first[k],
                Slot::Last => self.last[k],
            };
            self.cpu.set(line + k, byte);
            k += 1;
        }
    }
}

/// Invalidates the region `start .. start + size`: afterwards the CPU sees
/// in it what other bus masters have left there.  What the CPU had written
/// to the region and not cleaned is lost, on purpose.  Bytes around the
/// region that share a line with it are kept as the CPU saw them.
pub fn invalidate_cache(mem: &mut Memory, start: usize, size: usize)
    requires
        old(mem).wf(),
        start + size <= old(mem).size(),
    ensures
        final(mem).wf(),
        final(mem).size() == old(mem).size(),
        final(mem).ram() == old(mem).ram(),
        forall|i: int|
            #![trigger final(mem).cpu()[i]]
            0 <= i < old(mem).size() ==> final(mem).cpu()[i] == if start <= i < start + size {
                old(mem).ram()[i]
            } else {
                old(mem).cpu()[i]
            },
{
    let total: usize = mem.len();
    let steps = plan_invalidate(start, size);
    let ghost lines = cover(start as int, size as int);
    proof {
        if size > 0 {
            lemma_line_of(start);
            lemma_line_of((start + size - 1) as usize);
        }
    }
    let mut n: usize = 0;
    while n < steps.len()
        invariant
            n <= steps.len(),
            steps@ == invalidation(start as int, size as int),
            steps.len() == if size > 0 {
                7nat
            } else {
                0nat
            },
            lines == cover(start as int, size as int),
            size > 0 ==> lines.wf() && lines.first <= start && start + size <= lines.last + 64,
            start + size <= total == mem.size() == old(mem).size(),
            mem.wf(),
            mem.ram() == old(mem).ram(),
            n <= 3 ==> mem.cpu() == old(mem).cpu(),
            n >= 1 ==> mem.kept(Slot::First) == Some(
                Kept {
                    line: lines.first as int,
                    bytes: old(mem).cpu().subrange(lines.first as int, lines.first + 64),
                },
            ),
            n >= 2 ==> mem.kept(Slot::Last) == Some(
                Kept {
                    line: lines.last as int,
                    bytes: old(mem).cpu().subrange(lines.last as int, lines.last + 64),
                },
            ),
            forall|i: int|
                #![trigger mem.cpu()[i]]
                0 <= i < mem.size() ==> mem.cpu()[i] == if n >= 4 && lines.holds(i) && !(n >= 6 && i
                    < start) && !(n >= 7 && start + size <= i) {
                    old(mem).ram()[i]
                } else {
                    old(mem).cpu()[i]
                },
        decreases steps.len() - n,
    {
        let step = steps[n];
        let ghost before = *mem;
        proof {
            let all = invalidation(start as int, size as int);
            assert(size > 0 && all.len() == 7);
            assert(step == all[n as int]);
            assert(n == 0 || n == 1 || n == 2 || n == 3 || n == 4 || n == 5 || n == 6);
            assert(all[0] == Step::Save { slot: Slot::First, line: lines.first });
            assert(all[1] == Step::Save { slot: Slot::Last, line: lines.last });
            assert(all[2] == Step::Release);
            assert(all[3] == Step::Invalidate(lines));
            assert(all[4] == Step::Acquire);
            assert(all[5] == Step::Restore {
                slot: Slot::First,
                from: 0,
                count: (start - lines.first) as usize,
            });
            assert(all[6] == Step::Restore {
                slot: Slot::Last,
                from: (start + size - lines.last) as usize,
                count: (lines.last + 64 - (start + size)) as usize,
            });
            assert(lines.last + 64 <= total);
        }
        mem.apply(step);
        proof {
            assert(mem.follows(before, step));
            assert(mem.kept(Slot::First) == before.kept(Slot::First) || n == 0);
            assert(mem.kept(Slot::Last) == before.kept(Slot::Last) || n == 1);
            if n == 5 {
                let copy = before.kept(Slot::First)->Some_0;
                assert forall|i: int| lines.first <= i < start implies copy.bytes[i - lines.first]
                    == old(mem).cpu()[i] by {}
            }
            if n == 6 {
                let copy = before.kept(Slot::Last)->Some_0;
                assert forall|i: int| start + size <= i < lines.last + 64 implies copy.bytes[i
                    - lines.last] == old(mem).cpu()[i] by {}
            }
        }
        n += 1;
    }
}

/// Cleans the region `start .. start + size`: afterwards other bus masters
/// see in it what the CPU sees.  The lines that hold the region are written
/// back whole, so the same goes for what shares a line with it.
pub fn cleanup_cache(mem: &mut Memory, start: usize, size: usize)
    requires
        old(mem).wf(),
        start + size <= old(mem).size(),
    ensures
        final(mem).wf(),
        final(mem).size() == old(mem).size(),
        final(mem).cpu() == old(mem).cpu(),
        forall|i: int|
            #![trigger final(mem).ram()[i]]
            0 <= i < old(mem).size() ==> final(mem).ram()[i] == if size > 0 && cover(
                start as int,
                size as int,
            ).holds(i) {
                old(mem).cpu()[i]
            } else {
                old(mem).ram()[i]
            },
{
    let total: usize = mem.len();
    let steps = plan_clean(start, size);
    let ghost lines = cover(start as int, size as int);
    proof {
        if size > 0 {
            lemma_line_of(start);
            lemma_line_of((start + size - 1) as usize);
        }
    }
    let mut n: usize = 0;
    while n < steps.len()
        invariant
            n <= steps.len(),
            steps@ == cleaning(start as int, size as int),
            steps.len() == if size > 0 {
                2nat
            } else {
                0nat
            },
            lines == cover(start as int, size as int),
            size > 0 ==> lines.wf() && lines.first <= start && start + size <= lines.last + 64,
            start + size <= total == mem.size() == old(mem).size(),
            mem.wf(),
            mem.cpu() == old(mem).cpu(),
            n <= 1 ==> mem.ram() == old(mem).ram(),
            forall|i: int|
                #![trigger mem.ram()[i]]
                0 <= i < mem.size() ==> mem.ram()[i] == if n >= 2 && lines.holds(i) {
                    old(mem).cpu()[i]
                } else {
                    old(mem).ram()[i]
                },
        decreases steps.len() - n,
    {
        let step = steps[n];
        let ghost before = *mem;
        proof {
            let all = cleaning(start as int, size as int);
            assert(size > 0 && all.len() == 2);
            assert(step == all[n as int]);
            assert(all[0] == Step::Release);
            assert(all[1] == Step::Clean(lines));
            assert(lines.last + 64 <= total);
        }
        mem.apply(step);
        proof {
            assert(mem.follows(before, step));
        }
        n += 1;
    }
}

} // verus!
