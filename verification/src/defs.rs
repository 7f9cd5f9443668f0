//! Core data model: addresses, frames, page tables, the frame table, and the
//! physical memory they all live in.
//!
//! Physical memory is self-hosting: the frame table occupies frame 0, and each
//! process's page table occupies a dedicated, protected frame.

use vstd::prelude::*;

verus! {

// 32 bit virtual address (only the low VADDR_LEN bits are meaningful)
pub type VAddr = u32;
// 32 bit physical address (only the low PADDR_LEN bits are meaningful)
pub type PAddr = u32;
// Virtual page numbers can be up to 16 bits.
pub type VPN = u16;
// Physical frame numbers can be up to 16 bits.
pub type PFN = u16;
// Byte addressable machine, so u8 will suffice.
pub type Word = u8;
// Handle naming a page saved in the swap store.
pub type SwapEntry = u64;
// Logical timestamp used for LRU eviction.
pub type TimeStamp = u64;

pub const MAX_PID: u32 = 800;
pub const PADDR_LEN: u32 = 20;
pub const VADDR_LEN: u32 = 24;
pub const OFFSET_LEN: u32 = 14;
pub const MEMORY_ACCESS_TIME: u32 = 200;
pub const DISK_ACCESS_TIME: u64 = 10000000;

/// 2^OFFSET_LEN bytes per page.
pub const PAGE_SIZE: u64 = 16384;
/// 2^PADDR_LEN bytes of physical memory.
pub const MEM_SIZE: u64 = 1048576;
/// 2^(VADDR_LEN - OFFSET_LEN) virtual pages per process.
pub const NUM_PAGES: u64 = 1024;
/// 2^(PADDR_LEN - OFFSET_LEN) physical frames.
pub const NUM_FRAMES: u64 = 64;

/// Lifecycle state of a simulated process.
#[derive(Copy, Clone, Debug, PartialEq, Eq, Structural)]
pub enum ProcessState {
    RUNNING,
    STOPPED,
    UNINITIALIZED,
}

/// Page replacement policies.
#[derive(Copy, Clone, Debug, PartialEq, Eq, Structural)]
pub enum Replacement {
    RANDOM,
    FIFO,
    CLOCKSWEEP,
    LRU,
}

/// Whether a memory reference reads or writes the addressed byte.
#[derive(Copy, Clone, Debug, PartialEq, Eq, Structural)]
pub enum AccessKind {
    Read,
    Write,
}

/// Every error the core can report.
#[derive(Copy, Clone, Debug, PartialEq, Eq, Structural)]
pub enum VmError {
    /// A pid, virtual page number or frame number out of its declared range.
    AddressError,
    /// Every frame is protected; no victim exists.
    OutOfMemory,
    /// A memory reference from a STOPPED process.
    InvalidProcessState,
    /// A swap handle that names no outstanding swapped-out page.
    InvalidHandle,
    /// A swapped-in page whose checksum does not match what was recorded.
    SwapCorruption,
}

#[derive(Copy, Clone, Debug, PartialEq, Eq, Structural)]
pub struct Process {
    pub pid: u32,
    pub state: ProcessState,
    pub saved_ptbr: PFN,
}

#[derive(Copy, Clone, Debug, PartialEq, Eq, Structural)]
pub struct PageTableEntry {
    pub valid: bool,
    pub dirty: bool,
    pub pfn: PFN,
    pub swap_entry: SwapEntry,
}

#[derive(Copy, Clone, Debug)]
pub struct FrameTableEntry {
    pub protected: bool,
    pub mapped: bool,
    pub process: Option<Process>,
    pub vpn: VPN,
}

/// A physical frame: page-sized data, the frame table, a page table, or
/// nothing yet.
pub enum Frame {
    Data(Vec<Word>),
    FrameTable(Vec<FrameTableEntry>),
    PageTable(Vec<PageTableEntry>),
    UNINITIALIZED,
}

/// Physical memory: the frame array together with the replacement engine's
/// bookkeeping (allocation queue, reference bits, timestamps, clock hand,
/// and deterministic RNG state).
pub struct Memory {
    pub mem: Vec<Frame>,
    pub replacement: Replacement,
    pub fifo_queue: Vec<PFN>,
    pub ref_bits: Vec<bool>,
    pub stamps: Vec<TimeStamp>,
    pub clock_hand: usize,
    pub time: TimeStamp,
    pub rng_state: u64,
}

/// The frame table entry every frame starts out with.
pub open spec fn fte_default() -> FrameTableEntry {
    FrameTableEntry { protected: false, mapped: false, process: None, vpn: 0 }
}

/// The page table entry every virtual page starts out with.
pub open spec fn pte_default() -> PageTableEntry {
    PageTableEntry { valid: false, dirty: false, pfn: 0, swap_entry: 0 }
}

impl Frame {
    /// The frame table held by this frame (meaningful only for FrameTable frames).
    pub open spec fn ft_entries(self) -> Seq<FrameTableEntry> {
        match self {
            Frame::FrameTable(v) => v@,
            _ => Seq::empty(),
        }
    }

    /// The page table held by this frame (meaningful only for PageTable frames).
    pub open spec fn pt_entries(self) -> Seq<PageTableEntry> {
        match self {
            Frame::PageTable(v) => v@,
            _ => Seq::empty(),
        }
    }

    /// The bytes held by this frame (meaningful only for Data frames).
    pub open spec fn bytes(self) -> Seq<Word> {
        match self {
            Frame::Data(v) => v@,
            _ => Seq::empty(),
        }
    }
}

/// True when `b` differs from `a` at most in the frame array: the replacement
/// policy and all of its bookkeeping are untouched.
pub open spec fn same_replacement_state(a: Memory, b: Memory) -> bool {
    &&& b.replacement == a.replacement
    &&& b.fifo_queue@ == a.fifo_queue@
    &&& b.ref_bits@ == a.ref_bits@
    &&& b.stamps@ == a.stamps@
    &&& b.clock_hand == a.clock_hand
    &&& b.time == a.time
    &&& b.rng_state == a.rng_state
}

impl Memory {
    /// Number of physical frames.
    pub open spec fn n(self) -> int {
        self.mem@.len() as int
    }

    /// The frame table, stored in frame 0.
    pub open spec fn ft(self) -> Seq<FrameTableEntry> {
        self.mem@[0].ft_entries()
    }

    /// Frame `i` may be chosen as an eviction victim.
    pub open spec fn eligible(self, i: int) -> bool {
        &&& 0 <= i < self.n()
        &&& self.ft()[i].mapped
        &&& !self.ft()[i].protected
    }

    /// A freshly constructed memory: every frame uninitialized, all
    /// replacement bookkeeping at its starting value.
    pub open spec fn fresh(self) -> bool {
        &&& 1 <= self.n() <= NUM_FRAMES
        &&& forall|i: int| 0 <= i < self.n() ==> self.mem@[i] is UNINITIALIZED
        &&& self.fifo_queue@.len() == 0
        &&& self.ref_bits@.len() == self.n()
        &&& forall|i: int| 0 <= i < self.n() ==> !self.ref_bits@[i]
        &&& self.stamps@.len() == self.n()
        &&& forall|i: int| 0 <= i < self.n() ==> self.stamps@[i] == 0
        &&& self.clock_hand == 0
        &&& self.time == 0
    }

    /// Well-formedness of physical memory, established by `system_init` and
    /// preserved by every operation of the core:
    /// frame 0 always holds the frame table and is protected; unmapped frames
    /// own no process; protected frames are never mapped; mapped frames hold
    /// page-sized data with a recorded owner; free frames are uninitialized;
    /// the bookkeeping arrays cover every frame; and the FIFO queue holds
    /// exactly the mapped frames, each once, in allocation order.
    pub open spec fn inv(self) -> bool {
        &&& 1 <= self.n() <= NUM_FRAMES
        &&& self.mem@[0] is FrameTable
        &&& self.ft().len() == self.n()
        &&& self.ft()[0].protected
        &&& !self.ft()[0].mapped
        &&& forall|i: int| 0 <= i < self.n() ==> (!(#[trigger] self.ft()[i]).mapped ==> self.ft()[i].process is None)
        &&& forall|i: int| 0 <= i < self.n() ==> ((#[trigger] self.ft()[i]).protected ==> !self.ft()[i].mapped)
        &&& forall|i: int| 0 <= i < self.n() ==> ((#[trigger] self.ft()[i]).mapped ==> {
            &&& self.mem@[i] is Data
            &&& self.mem@[i].bytes().len() == PAGE_SIZE
            &&& self.ft()[i].process is Some
            &&& self.ft()[i].vpn < NUM_PAGES
        })
        &&& forall|i: int| 0 <= i < self.n() ==> ((!(#[trigger] self.ft()[i]).mapped && !self.ft()[i].protected) ==> self.mem@[i] is UNINITIALIZED)
        &&& self.ref_bits@.len() == self.n()
        &&& self.stamps@.len() == self.n()
        &&& self.clock_hand < self.n()
        &&& forall|k: int| 0 <= k < self.fifo_queue@.len() ==> (#[trigger] self.fifo_queue@[k]) < self.n()
        &&& forall|k: int, l: int| 0 <= k < l < self.fifo_queue@.len() ==> self.fifo_queue@[k] != self.fifo_queue@[l]
        &&& forall|i: int| 0 <= i < self.n() ==> ((#[trigger] self.ft()[i]).mapped <==> self.fifo_queue@.contains(i as PFN))
    }
}

impl Process {
    pub fn new(pid: u32, state: ProcessState) -> (p: Process)
        ensures
            p == (Process { pid: pid, state: state, saved_ptbr: 0 }),
    {
        Process { pid: pid, state: state, saved_ptbr: 0 }
    }

    pub fn default() -> (p: Process)
        ensures
            p == (Process { pid: 0, state: ProcessState::UNINITIALIZED, saved_ptbr: 0 }),
    {
        Process { pid: 0, state: ProcessState::UNINITIALIZED, saved_ptbr: 0 }
    }
}

impl PageTableEntry {
    pub fn new() -> (e: PageTableEntry)
        ensures
            e == pte_default(),
    {
        PageTableEntry { valid: false, dirty: false, pfn: 0, swap_entry: 0 }
    }
}

impl FrameTableEntry {
    pub fn new() -> (e: FrameTableEntry)
        ensures
            e == fte_default(),
    {
        FrameTableEntry { protected: false, mapped: false, process: None, vpn: 0 }
    }
}

impl Memory {
    /// A memory of `num_frames` uninitialized frames, with the given policy
    /// and RNG seed.  Smaller frame pools than `NUM_FRAMES` exist for test
    /// configurations that force eviction quickly.
    pub fn new_sized(replacement: Replacement, num_frames: usize, seed: u64) -> (m: Memory)
        requires
            1 <= num_frames <= NUM_FRAMES,
        ensures
            m.fresh(),
            m.n() == num_frames,
            m.replacement == replacement,
            m.rng_state == seed,
    {
        let mut mem: Vec<Frame> = Vec::new();
        let mut ref_bits: Vec<bool> = Vec::new();
        let mut stamps: Vec<TimeStamp> = Vec::new();
        let mut i: usize = 0;
        while i < num_frames
            invariant
                i <= num_frames,
                mem@.len() == i,
                ref_bits@.len() == i,
                stamps@.len() == i,
                forall|j: int| 0 <= j < i ==> mem@[j] is UNINITIALIZED,
                forall|j: int| 0 <= j < i ==> !ref_bits@[j],
                forall|j: int| 0 <= j < i ==> stamps@[j] == 0,
            decreases num_frames - i,
        {
            mem.push(Frame::UNINITIALIZED);
            ref_bits.push(false);
            stamps.push(0);
            i = i + 1;
        }
        Memory {
            mem: mem,
            replacement: replacement,
            fifo_queue: Vec::new(),
            ref_bits: ref_bits,
            stamps: stamps,
            clock_hand: 0,
            time: 0,
            rng_state: seed,
        }
    }

    /// A full-sized memory of `NUM_FRAMES` uninitialized frames.
    pub fn new(replacement: Replacement) -> (m: Memory)
        ensures
            m.fresh(),
            m.n() == NUM_FRAMES,
            m.replacement == replacement,
    {
        Memory::new_sized(replacement, 64, 1)
    }

    /// Move frame `pfn` out of the frame array, leaving UNINITIALIZED behind.
    pub fn take_frame(&mut self, pfn: usize) -> (f: Frame)
        requires
            pfn < old(self).mem@.len(),
        ensures
            f == old(self).mem@[pfn as int],
            final(self).mem@ == old(self).mem@.update(pfn as int, Frame::UNINITIALIZED),
            same_replacement_state(*old(self), *final(self)),
    {
        let f = self.mem.remove(pfn);
        self.mem.insert(pfn, Frame::UNINITIALIZED);
        proof {
            assert(self.mem@ =~= old(self).mem@.update(pfn as int, Frame::UNINITIALIZED));
        }
        f
    }

    /// Store `f` as frame `pfn`.
    pub fn put_frame(&mut self, pfn: usize, f: Frame)
        requires
            pfn < old(self).mem@.len(),
        ensures
            final(self).mem@ == old(self).mem@.update(pfn as int, f),
            same_replacement_state(*old(self), *final(self)),
    {
        self.mem.set(pfn, f);
    }

    /// Read the frame table entry for frame `pfn`.
    pub fn get_fte(&self, pfn: usize) -> (e: FrameTableEntry)
        requires
            self.mem@.len() >= 1,
            self.mem@[0] is FrameTable,
            pfn < self.ft().len(),
        ensures
            e == self.ft()[pfn as int],
    {
        match &self.mem[0] {
            Frame::FrameTable(entries) => entries[pfn],
            _ => FrameTableEntry::new(),
        }
    }

    /// Write the frame table entry for frame `pfn`.
    pub fn set_fte(&mut self, pfn: usize, e: FrameTableEntry)
        requires
            old(self).mem@.len() >= 1,
            old(self).mem@[0] is FrameTable,
            pfn < old(self).ft().len(),
        ensures
            final(self).mem@.len() == old(self).mem@.len(),
            final(self).mem@[0] is FrameTable,
            final(self).ft() == old(self).ft().update(pfn as int, e),
            forall|i: int| 1 <= i < old(self).mem@.len() ==> final(self).mem@[i] == old(self).mem@[i],
            same_replacement_state(*old(self), *final(self)),
    {
        let f = self.take_frame(0);
        match f {
            Frame::FrameTable(mut entries) => {
                entries.set(pfn, e);
                self.put_frame(0, Frame::FrameTable(entries));
                proof {
                    assert(self.ft() =~= old(self).ft().update(pfn as int, e));
                }
            }
            other => {
                self.put_frame(0, other);
            }
        }
    }

    /// Read the page table entry for `vpn` from the page table in frame `ptbr`.
    pub fn get_pte(&self, ptbr: usize, vpn: usize) -> (e: PageTableEntry)
        requires
            ptbr < self.mem@.len(),
            self.mem@[ptbr as int] is PageTable,
            vpn < self.mem@[ptbr as int].pt_entries().len(),
        ensures
            e == self.mem@[ptbr as int].pt_entries()[vpn as int],
    {
        match &self.mem[ptbr] {
            Frame::PageTable(entries) => entries[vpn],
            _ => PageTableEntry::new(),
        }
    }

    /// Write the page table entry for `vpn` in the page table in frame `ptbr`.
    pub fn set_pte(&mut self, ptbr: usize, vpn: usize, e: PageTableEntry)
        requires
            ptbr < old(self).mem@.len(),
            old(self).mem@[ptbr as int] is PageTable,
            vpn < old(self).mem@[ptbr as int].pt_entries().len(),
        ensures
            final(self).mem@.len() == old(self).mem@.len(),
            final(self).mem@[ptbr as int] is PageTable,
            final(self).mem@[ptbr as int].pt_entries() == old(self).mem@[ptbr as int].pt_entries().update(vpn as int, e),
            forall|i: int| 0 <= i < old(self).mem@.len() && i != ptbr ==> final(self).mem@[i] == old(self).mem@[i],
            same_replacement_state(*old(self), *final(self)),
    {
        let f = self.take_frame(ptbr);
        match f {
            Frame::PageTable(mut entries) => {
                entries.set(vpn, e);
                self.put_frame(ptbr, Frame::PageTable(entries));
                proof {
                    assert(self.mem@[ptbr as int].pt_entries() =~= old(self).mem@[ptbr as int].pt_entries().update(vpn as int, e));
                }
            }
            other => {
                self.put_frame(ptbr, other);
            }
        }
    }
}

} // verus!
