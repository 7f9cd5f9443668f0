//! The paging core: system initialization, the physical memory manager, the
//! page fault handler, the process table and the address translator, all
//! operating on one simulation session.

use vstd::prelude::*;

use crate::defs::{
    fte_default, pte_default, same_replacement_state, Frame, FrameTableEntry, Memory, PAddr,
    PageTableEntry, Process, ProcessState, VmError, DISK_ACCESS_TIME, MAX_PID, MEMORY_ACCESS_TIME, NUM_PAGES,
    PAGE_SIZE, PFN,
};
use crate::swap::{zero_page, SwapStore};

verus! {

/// Set up the frame table: frame 0 of a fresh memory comes to hold one frame
/// table entry per physical frame, with entry 0 (the frame table's own
/// frame) marked protected.
pub fn system_init(mem: &mut Memory)
    requires
        old(mem).fresh(),
    ensures
        final(mem).inv(),
        final(mem).n() == old(mem).n(),
        final(mem).replacement == old(mem).replacement,
        same_replacement_state(*old(mem), *final(mem)),
        final(mem).ft()[0] == (FrameTableEntry {
            protected: true,
            mapped: false,
            process: None,
            vpn: 0,
        }),
        forall|i: int| 1 <= i < final(mem).n() ==> final(mem).ft()[i] == fte_default(),
        forall|i: int| 1 <= i < final(mem).n() ==> final(mem).mem@[i] == old(mem).mem@[i],
{
    let n = mem.mem.len();
    let mut ftes: Vec<FrameTableEntry> = Vec::new();
    let mut i: usize = 0;
    while i < n
        invariant
            old(mem).fresh(),
            *mem == *old(mem),
            n == mem.mem@.len(),
            i <= n,
            ftes@.len() == i,
            forall|j: int| 0 <= j < i ==> ftes@[j] == fte_default(),
        decreases n - i,
    {
        ftes.push(FrameTableEntry::new());
        i = i + 1;
    }
    ftes.set(0, FrameTableEntry { protected: true, mapped: false, process: None, vpn: 0 });
    mem.put_frame(0, Frame::FrameTable(ftes));
}

/// One simulation session: physical memory with its replacement engine, the
/// swap store, the process table, and the accumulated access time.
pub struct Simulation {
    pub mem: Memory,
    pub swap: SwapStore,
    pub procs: Vec<Process>,
    pub elapsed: u64,
}

/// `a + b`, stopping at the largest representable value.
pub open spec fn sat_add(a: u64, b: u64) -> u64 {
    if a + b > 18446744073709551615u64 {
        18446744073709551615u64
    } else {
        (a + b) as u64
    }
}

impl Simulation {
    /// Process `p` exists and is RUNNING.
    pub open spec fn running(self, p: int) -> bool {
        &&& 0 <= p < self.procs@.len()
        &&& self.procs@[p].state is RUNNING
    }

    /// The frame holding process `p`'s page table.
    pub open spec fn ptbr(self, p: int) -> int {
        self.procs@[p].saved_ptbr as int
    }

    /// Process `p`'s page table.
    pub open spec fn pt(self, p: int) -> Seq<PageTableEntry> {
        self.mem.mem@[self.ptbr(p)].pt_entries()
    }

    /// Process `p`'s page table entry for virtual page `v`.
    pub open spec fn pte(self, p: int, v: int) -> PageTableEntry {
        self.pt(p)[v]
    }

    /// The consistency invariant of a session, established by `new` and
    /// preserved by every operation:
    /// memory is well formed; every running process owns a protected,
    /// unmapped page table frame, no two of them the same; a valid page
    /// table entry names a mapped data frame whose frame table entry names
    /// that process and page back, and carries no swap handle; a mapped
    /// frame's recorded owner exists, and while it is running its page table
    /// maps that frame back; a nonzero swap handle in an invalid entry names
    /// an outstanding page-sized swap store entry, and no two entries share
    /// a handle.
    pub open spec fn inv(self) -> bool {
        &&& self.mem.inv()
        &&& self.swap.wf()
        &&& self.procs@.len() == MAX_PID
        &&& forall|p: int| 0 <= p < self.procs@.len() ==> (#[trigger] self.procs@[p]).pid == p
        &&& forall|p: int| #[trigger] self.running(p) ==> {
            &&& 0 < self.ptbr(p) < self.mem.n()
            &&& self.mem.mem@[self.ptbr(p)] is PageTable
            &&& self.pt(p).len() == NUM_PAGES
            &&& self.mem.ft()[self.ptbr(p)].protected
            &&& !self.mem.ft()[self.ptbr(p)].mapped
        }
        &&& forall|p: int, q: int|
            self.running(p) && self.running(q) && p != q ==> self.ptbr(p) != self.ptbr(q)
        &&& forall|p: int, v: int|
            self.running(p) && 0 <= v < NUM_PAGES && (#[trigger] self.pte(p, v)).valid ==> {
                &&& 0 <= self.pte(p, v).pfn < self.mem.n()
                &&& self.mem.ft()[self.pte(p, v).pfn as int].mapped
                &&& self.mem.ft()[self.pte(p, v).pfn as int].process == Some(self.procs@[p])
                &&& self.mem.ft()[self.pte(p, v).pfn as int].vpn == v
                &&& self.pte(p, v).swap_entry == 0
            }
        &&& forall|f: int|
            0 <= f < self.mem.n() && (#[trigger] self.mem.ft()[f]).mapped ==> {
                &&& 0 <= self.mem.ft()[f].process->Some_0.pid < MAX_PID
                &&& !(self.procs@[self.mem.ft()[f].process->Some_0.pid as int].state
                    is UNINITIALIZED)
                &&& (self.procs@[self.mem.ft()[f].process->Some_0.pid as int].state
                    is RUNNING ==> {
                    &&& self.mem.ft()[f].process == Some(
                        self.procs@[self.mem.ft()[f].process->Some_0.pid as int],
                    )
                    &&& self.pte(
                        self.mem.ft()[f].process->Some_0.pid as int,
                        self.mem.ft()[f].vpn as int,
                    ).valid
                    &&& self.pte(
                        self.mem.ft()[f].process->Some_0.pid as int,
                        self.mem.ft()[f].vpn as int,
                    ).pfn == f
                })
            }
        &&& forall|p: int, v: int|
            self.running(p) && 0 <= v < NUM_PAGES && (#[trigger] self.pte(p, v)).swap_entry
                != 0 ==> {
                &&& self.swap.contents().contains_key(self.pte(p, v).swap_entry)
                &&& self.swap.contents()[self.pte(p, v).swap_entry].len() == PAGE_SIZE
            }
        &&& forall|p1: int, v1: int, p2: int, v2: int|
            self.running(p1) && self.running(p2) && 0 <= v1 < NUM_PAGES && 0 <= v2 < NUM_PAGES && (
            #[trigger] self.pte(p1, v1)).swap_entry != 0 && (#[trigger] self.pte(p2, v2)).swap_entry
                == self.pte(p1, v1).swap_entry ==> (p1 == p2 && v1 == v2)
    }

    /// A fresh session: memory initialized with the frame table in frame 0,
    /// an empty swap store, and every process slot UNINITIALIZED.
    pub fn new(replacement: crate::defs::Replacement, num_frames: usize, seed: u64, check_corruption: bool) -> (s: Simulation)
        requires
            1 <= num_frames <= crate::defs::NUM_FRAMES,
        ensures
            s.inv(),
            s.mem.n() == num_frames,
            s.mem.replacement == replacement,
            s.swap.check == check_corruption,
            s.swap.contents() == Map::<u64, Seq<u8>>::empty(),
            s.elapsed == 0,
            forall|p: int| 0 <= p < MAX_PID ==> (#[trigger] s.procs@[p]).state
                is UNINITIALIZED,
            forall|i: int| 0 <= i < num_frames ==> (s.mem.ft()[i].protected <==> i == 0),
            forall|i: int| 0 <= i < num_frames ==> !s.mem.ft()[i].mapped,
    {
        let mut mem = Memory::new_sized(replacement, num_frames, seed);
        system_init(&mut mem);
        let swap = SwapStore::new(check_corruption);
        let mut procs: Vec<Process> = Vec::new();
        let mut pid: u32 = 0;
        while pid < MAX_PID
            invariant
                pid <= MAX_PID,
                procs@.len() == pid,
                forall|p: int|
                    0 <= p < pid ==> (#[trigger] procs@[p]) == (Process {
                        pid: p as u32,
                        state: ProcessState::UNINITIALIZED,
                        saved_ptbr: 0,
                    }),
            decreases MAX_PID - pid,
        {
            procs.push(Process { pid: pid, state: ProcessState::UNINITIALIZED, saved_ptbr: 0 });
            pid = pid + 1;
        }
        Simulation { mem: mem, swap: swap, procs: procs, elapsed: 0 }
    }

    /// Add an accounting latency to the session clock, stopping at the
    /// largest representable value.
    pub fn add_time(&mut self, t: u64)
        ensures
            final(self).elapsed == sat_add(old(self).elapsed, t),
            final(self).mem == old(self).mem,
            final(self).swap == old(self).swap,
            final(self).procs == old(self).procs,
    {
        if self.elapsed <= 18446744073709551615u64 - t {
            self.elapsed = self.elapsed + t;
        } else {
            self.elapsed = 18446744073709551615u64;
        }
    }
}

/// Removing index `k` from a duplicate-free sequence removes exactly that
/// element: membership of every other value is unchanged, the removed value
/// is gone, and the result is still duplicate-free.
proof fn lemma_seq_remove_membership(s: Seq<PFN>, k: int)
    requires
        0 <= k < s.len(),
        forall|a: int, b: int| 0 <= a < b < s.len() ==> s[a] != s[b],
    ensures
        !s.remove(k).contains(s[k]),
        forall|x: PFN| x != s[k] ==> (s.remove(k).contains(x) <==> s.contains(x)),
        forall|a: int, b: int| 0 <= a < b < s.remove(k).len() ==> s.remove(k)[a] != s.remove(k)[b],
{
    let t = s.remove(k);
    assert forall|x: PFN| x != s[k] && s.contains(x) implies t.contains(x) by {
        let j = choose|j: int| 0 <= j < s.len() && s[j] == x;
        if j < k {
            assert(t[j] == x);
        } else {
            assert(t[j - 1] == x);
        }
    }
    assert forall|x: PFN| x != s[k] && t.contains(x) implies s.contains(x) by {
        let j = choose|j: int| 0 <= j < t.len() && t[j] == x;
        if j < k {
            assert(s[j] == x);
        } else {
            assert(s[j + 1] == x);
        }
    }
    assert(!t.contains(s[k])) by {
        if t.contains(s[k]) {
            let j = choose|j: int| 0 <= j < t.len() && t[j] == s[k];
            if j < k {
                assert(s[j] == s[k]);
            } else {
                assert(s[j + 1] == s[k]);
            }
            assert(false);
        }
    }
}


/// The session invariant does not depend on the replacement engine's
/// bookkeeping: a state with the same frames, swap store and process table
/// but different queue/bits/stamps/hand/RNG state satisfies it too.
proof fn lemma_inv_bookkeeping_independent(a: Simulation, b: Simulation)
    requires
        a.inv(),
        b.mem.inv(),
        b.mem.mem@ == a.mem.mem@,
        b.procs@ == a.procs@,
        b.swap == a.swap,
    ensures
        b.inv(),
{
    assert forall|p: int| #[trigger] b.running(p) implies {
        &&& 0 < b.ptbr(p) < b.mem.n()
        &&& b.mem.mem@[b.ptbr(p)] is PageTable
        &&& b.pt(p).len() == NUM_PAGES
        &&& b.mem.ft()[b.ptbr(p)].protected
        &&& !b.mem.ft()[b.ptbr(p)].mapped
    } by {
        assert(a.running(p));
    }
    assert forall|p: int, q: int|
        b.running(p) && b.running(q) && p != q implies b.ptbr(p) != b.ptbr(q) by {
        assert(a.running(p) && a.running(q));
    }
    assert forall|p: int, v: int|
        b.running(p) && 0 <= v < NUM_PAGES && (#[trigger] b.pte(p, v)).valid implies {
        &&& 0 <= b.pte(p, v).pfn < b.mem.n()
        &&& b.mem.ft()[b.pte(p, v).pfn as int].mapped
        &&& b.mem.ft()[b.pte(p, v).pfn as int].process == Some(b.procs@[p])
        &&& b.mem.ft()[b.pte(p, v).pfn as int].vpn == v
        &&& b.pte(p, v).swap_entry == 0
    } by {
        assert(a.running(p));
        assert(b.pte(p, v) == a.pte(p, v));
        assert(a.pte(p, v).valid);
    }
    assert forall|f: int|
        0 <= f < b.mem.n() && (#[trigger] b.mem.ft()[f]).mapped implies {
        &&& 0 <= b.mem.ft()[f].process->Some_0.pid < MAX_PID
        &&& !(b.procs@[b.mem.ft()[f].process->Some_0.pid as int].state is UNINITIALIZED)
        &&& (b.procs@[b.mem.ft()[f].process->Some_0.pid as int].state is RUNNING ==> {
            &&& b.mem.ft()[f].process == Some(b.procs@[b.mem.ft()[f].process->Some_0.pid as int])
            &&& b.pte(b.mem.ft()[f].process->Some_0.pid as int, b.mem.ft()[f].vpn as int).valid
            &&& b.pte(b.mem.ft()[f].process->Some_0.pid as int, b.mem.ft()[f].vpn as int).pfn == f
        })
    } by {
        assert(a.mem.ft()[f].mapped);
        let fp = a.mem.ft()[f].process->Some_0.pid as int;
        let fv = a.mem.ft()[f].vpn as int;
        if a.procs@[fp].state is RUNNING {
            assert(a.running(fp));
            assert(b.pte(fp, fv) == a.pte(fp, fv));
        }
    }
    assert forall|p: int, v: int|
        b.running(p) && 0 <= v < NUM_PAGES && (#[trigger] b.pte(p, v)).swap_entry != 0 implies {
        &&& b.swap.contents().contains_key(b.pte(p, v).swap_entry)
        &&& b.swap.contents()[b.pte(p, v).swap_entry].len() == PAGE_SIZE
    } by {
        assert(a.running(p));
        assert(b.pte(p, v) == a.pte(p, v));
        assert(a.swap.contents().contains_key(a.pte(p, v).swap_entry));
    }
    assert forall|p1: int, v1: int, p2: int, v2: int|
        b.running(p1) && b.running(p2) && 0 <= v1 < NUM_PAGES && 0 <= v2 < NUM_PAGES && (#[trigger] b.pte(
            p1,
            v1,
        )).swap_entry != 0 && (#[trigger] b.pte(p2, v2)).swap_entry == b.pte(p1, v1).swap_entry
        implies (p1 == p2 && v1 == v2) by {
        assert(a.running(p1) && a.running(p2));
        assert(b.pte(p1, v1) == a.pte(p1, v1));
        assert(b.pte(p2, v2) == a.pte(p2, v2));
    }
}

impl Simulation {
    /// The effect of evicting the mapped, unprotected frame `f`: its frame
    /// table entry is cleared and it leaves the allocation queue and becomes
    /// uninitialized.  If its owner is still running, the owning page table
    /// entry is invalidated; a dirty page is first written to the swap store
    /// under a fresh handle recorded in that entry (and the disk latency is
    /// charged), while a clean page leaves no swap store entry at all.  An
    /// orphaned page (owner already stopped) is simply discarded.
    pub open spec fn evict_transition(pre: Simulation, post: Simulation, f: int) -> bool {
        let fte = pre.mem.ft()[f];
        let p = fte.process->Some_0.pid as int;
        let w = fte.vpn as int;
        &&& pre.mem.eligible(f)
        &&& post.procs@ == pre.procs@
        &&& post.swap.check == pre.swap.check
        &&& post.mem.n() == pre.mem.n()
        &&& post.mem.ft() == pre.mem.ft().update(f, fte_default())
        &&& post.mem.mem@[f] is UNINITIALIZED
        &&& post.mem.replacement == pre.mem.replacement
        &&& post.mem.stamps@ == pre.mem.stamps@
        &&& post.mem.time == pre.mem.time
        &&& (exists|k: int|
            {
                &&& 0 <= k < pre.mem.fifo_queue@.len()
                &&& pre.mem.fifo_queue@[k] == f as PFN
                &&& post.mem.fifo_queue@ == pre.mem.fifo_queue@.remove(k)
            })
        &&& if pre.procs@[p].state is RUNNING {
            let b = pre.ptbr(p);
            &&& (forall|i: int|
                0 <= i < pre.mem.n() && i != f && i != b && i != 0 ==> post.mem.mem@[i]
                    == pre.mem.mem@[i])
            &&& post.mem.mem@[b] is PageTable
            &&& post.pt(p) == pre.pt(p).update(w, post.pte(p, w))
            &&& post.pte(p, w).valid == false
            &&& post.pte(p, w).dirty == false
            &&& post.pte(p, w).pfn == 0
            &&& if pre.pte(p, w).dirty {
                let h = post.pte(p, w).swap_entry;
                &&& h != 0
                &&& !pre.swap.contents().contains_key(h)
                &&& post.swap.contents() == pre.swap.contents().insert(
                    h,
                    pre.mem.mem@[f].bytes(),
                )
                &&& post.elapsed == sat_add(pre.elapsed, DISK_ACCESS_TIME)
            } else {
                &&& post.pte(p, w).swap_entry == 0
                &&& post.swap.contents() == pre.swap.contents()
                &&& post.elapsed == pre.elapsed
            }
        } else {
            &&& (forall|i: int|
                0 <= i < pre.mem.n() && i != f && i != 0 ==> post.mem.mem@[i] == pre.mem.mem@[i])
            &&& post.swap.contents() == pre.swap.contents()
            &&& post.elapsed == pre.elapsed
        }
    }

    /// Evict the mapped, unprotected frame `victim`, freeing it for reuse.
    #[verifier::rlimit(100)]
    pub fn evict_frame(&mut self, victim: PFN)
        requires
            old(self).inv(),
            old(self).mem.eligible(victim as int),
        ensures
            final(self).inv(),
            Simulation::evict_transition(*old(self), *final(self), victim as int),
            final(self).mem.ref_bits@ == old(self).mem.ref_bits@,
            final(self).mem.clock_hand == old(self).mem.clock_hand,
            final(self).mem.rng_state == old(self).mem.rng_state,
    {
        let vic = victim as usize;
        let fte = self.mem.get_fte(vic);
        proof {
            assert(old(self).mem.ft()[vic as int].mapped);
        }
        let pr = match fte.process {
            Some(p) => p,
            None => Process::default(),
        };
        let pid = pr.pid as usize;
        let owner = self.procs[pid];
        if matches!(owner.state, ProcessState::RUNNING) {
            let b = owner.saved_ptbr as usize;
            proof {
                assert(old(self).running(pid as int));
                assert(old(self).pte(pid as int, fte.vpn as int).valid);
                assert(old(self).pte(pid as int, fte.vpn as int).pfn == victim);
            }
            let e = self.mem.get_pte(b, fte.vpn as usize);
            let frame = self.mem.take_frame(vic);
            if e.dirty {
                let bytes = match frame {
                    Frame::Data(d) => d,
                    _ => Vec::new(),
                };
                let h = self.swap.swap_out(bytes);
                self.mem.set_pte(
                    b,
                    fte.vpn as usize,
                    PageTableEntry { valid: false, dirty: false, pfn: 0, swap_entry: h },
                );
                self.add_time(DISK_ACCESS_TIME);
            } else {
                self.mem.set_pte(b, fte.vpn as usize, PageTableEntry::new());
            }
        } else {
            let _discarded = self.mem.take_frame(vic);
        }
        self.mem.set_fte(vic, FrameTableEntry::new());
        self.mem.fifo_remove(victim);
        proof {
            let s0 = *old(self);
            let s1 = *self;
            assert(s0.mem.fifo_queue@.contains(victim));
            let k = choose|k: int|
                {
                    &&& 0 <= k < s0.mem.fifo_queue@.len()
                    &&& s0.mem.fifo_queue@[k] == victim
                    &&& (forall|j: int| 0 <= j < k ==> s0.mem.fifo_queue@[j] != victim)
                    &&& s1.mem.fifo_queue@ == s0.mem.fifo_queue@.remove(k)
                };
            lemma_seq_remove_membership(s0.mem.fifo_queue@, k);
            assert(s1.mem.ft() =~= s0.mem.ft().update(vic as int, fte_default()));
            // the frame table invariant of memory
            assert forall|i: int|
                0 <= i < s1.mem.n() implies ((#[trigger] s1.mem.ft()[i]).mapped <==> s1
                .mem.fifo_queue@.contains(i as PFN)) by {
                assert(s0.mem.ft()[i].mapped <==> s0.mem.fifo_queue@.contains(i as PFN));
            }
            assert(s1.mem.inv());
            // running processes keep their page table frames
            assert forall|p: int| #[trigger] s1.running(p) implies {
                &&& 0 < s1.ptbr(p) < s1.mem.n()
                &&& s1.mem.mem@[s1.ptbr(p)] is PageTable
                &&& s1.pt(p).len() == NUM_PAGES
                &&& s1.mem.ft()[s1.ptbr(p)].protected
                &&& !s1.mem.ft()[s1.ptbr(p)].mapped
            } by {
                assert(s0.running(p));
                assert(s0.mem.ft()[s0.ptbr(p)].protected);
            }
            assert forall|p: int, q: int|
                s1.running(p) && s1.running(q) && p != q implies s1.ptbr(p) != s1.ptbr(q) by {
                assert(s0.running(p) && s0.running(q));
            }
            let fte0 = s0.mem.ft()[vic as int];
            let opid = fte0.process->Some_0.pid as int;
            let w = fte0.vpn as int;
            let orun = s0.procs@[opid].state is RUNNING;
            let bb = s0.ptbr(opid);
            assert(s0.mem.ft()[vic as int].mapped);
            assert(0 <= opid < MAX_PID);
            if orun {
                assert(s0.running(opid));
                assert(s0.pte(opid, w).valid && s0.pte(opid, w).pfn == victim);
                assert(s1.mem.mem@[bb] is PageTable);
                assert(s1.pt(opid) == s0.pt(opid).update(w, s1.pte(opid, w)));
            }
            // every page table row other than the victim's is untouched
            assert forall|p: int, v: int|
                s1.running(p) && 0 <= v < NUM_PAGES && !(orun && p == opid && v == w) implies s1.pte(
                p,
                v,
            ) == s0.pte(p, v) by {
                assert(s0.running(p));
                let pb = s0.ptbr(p);
                assert(s0.mem.ft()[pb].protected);
                assert(pb != vic as int && pb != 0);
                if orun {
                    if p == opid {
                        assert(s1.pt(p) == s0.pt(p).update(w, s1.pte(opid, w)));
                        assert(s1.pte(p, v) == s0.pte(p, v));
                    } else {
                        assert(s0.ptbr(p) != bb);
                        assert(s1.mem.mem@[pb] == s0.mem.mem@[pb]);
                    }
                } else {
                    assert(s1.mem.mem@[pb] == s0.mem.mem@[pb]);
                }
            }
            // valid rows still name mapped frames that point back
            assert forall|p: int, v: int|
                s1.running(p) && 0 <= v < NUM_PAGES && (#[trigger] s1.pte(p, v)).valid implies {
                &&& 0 <= s1.pte(p, v).pfn < s1.mem.n()
                &&& s1.mem.ft()[s1.pte(p, v).pfn as int].mapped
                &&& s1.mem.ft()[s1.pte(p, v).pfn as int].process == Some(s1.procs@[p])
                &&& s1.mem.ft()[s1.pte(p, v).pfn as int].vpn == v
                &&& s1.pte(p, v).swap_entry == 0
            } by {
                if orun && p == opid && v == w {
                    assert(!s1.pte(p, v).valid);
                } else {
                    assert(s1.pte(p, v) == s0.pte(p, v));
                    assert(s0.running(p));
                    assert(s0.pte(p, v).valid);
                    let f1 = s0.pte(p, v).pfn as int;
                    assert(s0.mem.ft()[f1].mapped);
                    if f1 == vic as int {
                        assert(s0.mem.ft()[vic as int].process == Some(s0.procs@[p]));
                        assert(opid == p && w == v && orun);
                        assert(false);
                    }
                    assert(s1.mem.ft()[f1] == s0.mem.ft()[f1]);
                }
            }
            // mapped frames still point back through their owner's table
            assert forall|f: int|
                0 <= f < s1.mem.n() && (#[trigger] s1.mem.ft()[f]).mapped implies {
                &&& 0 <= s1.mem.ft()[f].process->Some_0.pid < MAX_PID
                &&& !(s1.procs@[s1.mem.ft()[f].process->Some_0.pid as int].state is UNINITIALIZED)
                &&& (s1.procs@[s1.mem.ft()[f].process->Some_0.pid as int].state is RUNNING ==> {
                    &&& s1.mem.ft()[f].process == Some(
                        s1.procs@[s1.mem.ft()[f].process->Some_0.pid as int],
                    )
                    &&& s1.pte(
                        s1.mem.ft()[f].process->Some_0.pid as int,
                        s1.mem.ft()[f].vpn as int,
                    ).valid
                    &&& s1.pte(
                        s1.mem.ft()[f].process->Some_0.pid as int,
                        s1.mem.ft()[f].vpn as int,
                    ).pfn == f
                })
            } by {
                assert(f != vic as int);
                assert(s1.mem.ft()[f] == s0.mem.ft()[f]);
                assert(s0.mem.ft()[f].mapped);
                let fp = s0.mem.ft()[f].process->Some_0.pid as int;
                let fv = s0.mem.ft()[f].vpn as int;
                assert(0 <= fv < NUM_PAGES);
                if s0.procs@[fp].state is RUNNING {
                    assert(s0.running(fp));
                    assert(s0.pte(fp, fv).valid && s0.pte(fp, fv).pfn == f);
                    if orun && fp == opid && fv == w {
                        assert(s0.pte(opid, w).pfn == victim);
                        assert(false);
                    }
                    assert(s1.pte(fp, fv) == s0.pte(fp, fv));
                }
            }
            // nonzero swap handles still name outstanding page-sized entries
            assert forall|p: int, v: int|
                s1.running(p) && 0 <= v < NUM_PAGES && (#[trigger] s1.pte(p, v)).swap_entry
                    != 0 implies {
                &&& s1.swap.contents().contains_key(s1.pte(p, v).swap_entry)
                &&& s1.swap.contents()[s1.pte(p, v).swap_entry].len() == PAGE_SIZE
            } by {
                if orun && p == opid && v == w {
                    assert(s0.pte(opid, w).dirty);
                    assert(s0.mem.mem@[vic as int].bytes().len() == PAGE_SIZE);
                } else {
                    assert(s1.pte(p, v) == s0.pte(p, v));
                    assert(s0.running(p));
                    assert(s0.swap.contents().contains_key(s0.pte(p, v).swap_entry));
                    assert(s0.swap.contents()[s0.pte(p, v).swap_entry].len() == PAGE_SIZE);
                }
            }
            // handles remain unshared
            assert forall|p1: int, v1: int, p2: int, v2: int|
                s1.running(p1) && s1.running(p2) && 0 <= v1 < NUM_PAGES && 0 <= v2 < NUM_PAGES && (
                #[trigger] s1.pte(p1, v1)).swap_entry != 0 && (#[trigger] s1.pte(
                p2,
                v2,
            )).swap_entry == s1.pte(p1, v1).swap_entry implies (p1 == p2 && v1 == v2) by {
                let e1_new = orun && p1 == opid && v1 == w;
                let e2_new = orun && p2 == opid && v2 == w;
                if e1_new && e2_new {
                } else if e1_new {
                    assert(s1.pte(p2, v2) == s0.pte(p2, v2));
                    assert(s0.running(p2));
                    assert(s0.swap.contents().contains_key(s0.pte(p2, v2).swap_entry));
                    assert(!s0.swap.contents().contains_key(s1.pte(p1, v1).swap_entry));
                    assert(false);
                } else if e2_new {
                    assert(s1.pte(p1, v1) == s0.pte(p1, v1));
                    assert(s0.running(p1));
                    assert(s0.swap.contents().contains_key(s0.pte(p1, v1).swap_entry));
                    assert(!s0.swap.contents().contains_key(s1.pte(p2, v2).swap_entry));
                    assert(false);
                } else {
                    assert(s1.pte(p1, v1) == s0.pte(p1, v1));
                    assert(s1.pte(p2, v2) == s0.pte(p2, v2));
                }
            }
            assert(s1.inv());
        }
    }

    /// Hand out a frame: a free, unprotected one if any exists, else the
    /// configured policy's eviction victim, evicted first.  Fails with
    /// `OutOfMemory` exactly when every frame is protected (all consumed by
    /// the frame table and page tables) — the sole unrecoverable condition.
    #[verifier::rlimit(100)]
    pub fn allocate_frame(&mut self) -> (r: Result<PFN, VmError>)
        requires
            old(self).inv(),
        ensures
            final(self).inv(),
            (r is Err) <==> (forall|i: int|
                0 <= i < old(self).mem.n() ==> old(self).mem.ft()[i].protected),
            r matches Err(e) ==> e == VmError::OutOfMemory && *final(self) == *old(self),
            r matches Ok(f) ==> {
                &&& 0 <= (f as int) < final(self).mem.n()
                &&& !final(self).mem.ft()[f as int].mapped
                &&& !final(self).mem.ft()[f as int].protected
                &&& final(self).mem.mem@[f as int] is UNINITIALIZED
                &&& !old(self).mem.ft()[f as int].protected
                &&& final(self).procs@ == old(self).procs@
                &&& final(self).mem.n() == old(self).mem.n()
                &&& final(self).mem.replacement == old(self).mem.replacement
                &&& (forall|i: int|
                    0 <= i < old(self).mem.n() ==> final(self).mem.ft()[i].protected == old(
                        self,
                    ).mem.ft()[i].protected)
                &&& (!old(self).mem.ft()[f as int].mapped ==> (forall|i: int|
                    0 <= i < f as int ==> ((#[trigger] old(self).mem.ft()[i]).mapped || old(
                        self,
                    ).mem.ft()[i].protected)))
                &&& if old(self).mem.ft()[f as int].mapped {
                    &&& Simulation::evict_transition(*old(self), *final(self), f as int)
                    &&& (forall|i: int|
                        0 <= i < old(self).mem.n() ==> (old(self).mem.ft()[i].mapped || old(
                            self,
                        ).mem.ft()[i].protected))
                    &&& (old(self).mem.replacement == crate::defs::Replacement::FIFO ==> Some(f)
                        == old(self).mem.fifo_victim())
                    &&& (old(self).mem.replacement == crate::defs::Replacement::LRU ==> old(
                        self,
                    ).mem.lru_min(f as int))
                    &&& (old(self).mem.replacement == crate::defs::Replacement::CLOCKSWEEP ==> ((
                    exists|j: int|
                        old(self).mem.eligible(j) && !old(self).mem.ref_bits@[j]) ==> !old(
                        self,
                    ).mem.ref_bits@[f as int]))
                } else {
                    *final(self) == *old(self)
                }
            },
    {
        let n = self.mem.mem.len();
        let mut i: usize = 0;
        while i < n
            invariant
                old(self).inv(),
                self.inv(),
                *self == *old(self),
                n == self.mem.mem@.len(),
                i <= n,
                forall|j: int|
                    0 <= j < i ==> ((#[trigger] self.mem.ft()[j]).mapped
                        || self.mem.ft()[j].protected),
            decreases n - i,
        {
            let e = self.mem.get_fte(i);
            if !e.mapped && !e.protected {
                return Ok(i as u16);
            }
            i = i + 1;
        }
        let chosen = self.mem.select_victim();
        match chosen {
            Some(v) => {
                proof {
                    assert(old(self).mem.eligible(v as int));
                    lemma_inv_bookkeeping_independent(*old(self), *self);
                }
                self.evict_frame(v);
                proof {
                    assert(self.inv());
                    assert(Simulation::evict_transition(*old(self), *self, v as int));
                    assert(!self.mem.ft()[v as int].mapped);
                    assert(!self.mem.ft()[v as int].protected);
                    assert(self.mem.mem@[v as int] is UNINITIALIZED);
                    assert(self.procs@ == old(self).procs@);
                    assert forall|i: int|
                        0 <= i < old(self).mem.n() implies self.mem.ft()[i].protected == old(
                        self,
                    ).mem.ft()[i].protected by {}
                }
                return Ok(v);
            }
            None => {
                proof {
                    assert forall|j: int|
                        0 <= j < old(self).mem.n() implies old(self).mem.ft()[j].protected by {
                        if !old(self).mem.ft()[j].protected {
                            if old(self).mem.ft()[j].mapped {
                                assert(old(self).mem.eligible(j));
                                assert(false);
                            }
                            assert(false);
                        }
                    }
                }
                Err(VmError::OutOfMemory)
            }
        }
    }

    /// Free a frame: clear its frame table entry (`mapped`, owner, `vpn`)
    /// and reset its content to uninitialized.  Protected frames cannot be
    /// freed through this path (a process's page table frame is unprotected
    /// and released by `terminate_process`), and neither can a frame a
    /// running process still maps — that one must go through the
    /// Replacement Engine, which also maintains the owning page table.
    #[verifier::rlimit(100)]
    pub fn free_frame(&mut self, pfn: PFN) -> (r: Result<(), VmError>)
        requires
            old(self).inv(),
        ensures
            final(self).inv(),
            (pfn as int) >= old(self).mem.n() ==> r == Err::<(), VmError>(VmError::AddressError)
                && *final(self) == *old(self),
            (pfn as int) < old(self).mem.n() && (old(self).mem.ft()[pfn as int].protected || (old(
                self,
            ).mem.ft()[pfn as int].mapped && old(self).procs@[old(self).mem.ft()[
                pfn as int].process->Some_0.pid as int].state is RUNNING)) ==> r == Err::<
                (),
                VmError,
            >(VmError::InvalidProcessState) && *final(self) == *old(self),
            (pfn as int) < old(self).mem.n() && !old(self).mem.ft()[pfn as int].protected && (!old(
                self,
            ).mem.ft()[pfn as int].mapped || !(old(self).procs@[old(self).mem.ft()[
                pfn as int].process->Some_0.pid as int].state is RUNNING)) ==> {
                &&& r is Ok
                &&& final(self).mem.ft() == old(self).mem.ft().update(pfn as int, fte_default())
                &&& final(self).mem.mem@[pfn as int] is UNINITIALIZED
                &&& (forall|i: int|
                    0 <= i < old(self).mem.n() && i != pfn as int && i != 0
                        ==> final(self).mem.mem@[i] == old(self).mem.mem@[i])
                &&& final(self).procs@ == old(self).procs@
                &&& final(self).swap == old(self).swap
                &&& final(self).elapsed == old(self).elapsed
            },
    {
        let fu = pfn as usize;
        if fu >= self.mem.mem.len() {
            return Err(VmError::AddressError);
        }
        let fte = self.mem.get_fte(fu);
        if fte.protected {
            return Err(VmError::InvalidProcessState);
        }
        if fte.mapped {
            let pr = match fte.process {
                Some(p) => p,
                None => Process::default(),
            };
            let owner = self.procs[pr.pid as usize];
            if matches!(owner.state, ProcessState::RUNNING) {
                return Err(VmError::InvalidProcessState);
            }
        }
        let _released = self.mem.take_frame(fu);
        self.mem.set_fte(fu, FrameTableEntry::new());
        self.mem.fifo_remove(pfn);
        proof {
            let s0 = *old(self);
            let s1 = *self;
            if s0.mem.ft()[fu as int].mapped {
                assert(s0.mem.fifo_queue@.contains(pfn));
            }
            if !s0.mem.ft()[fu as int].mapped {
                assert(!s0.mem.fifo_queue@.contains(pfn));
                assert(s1.mem.fifo_queue@ == s0.mem.fifo_queue@);
            } else {
                let k = choose|k: int|
                    {
                        &&& 0 <= k < s0.mem.fifo_queue@.len()
                        &&& s0.mem.fifo_queue@[k] == pfn
                        &&& (forall|j: int| 0 <= j < k ==> s0.mem.fifo_queue@[j] != pfn)
                        &&& s1.mem.fifo_queue@ == s0.mem.fifo_queue@.remove(k)
                    };
                lemma_seq_remove_membership(s0.mem.fifo_queue@, k);
            }
            assert(s1.mem.ft() =~= s0.mem.ft().update(fu as int, fte_default()));
            assert(s1.mem.inv()) by {
                assert forall|i: int|
                    0 <= i < s1.mem.n() implies ((#[trigger] s1.mem.ft()[i]).mapped <==> s1
                    .mem.fifo_queue@.contains(i as PFN)) by {
                    assert(s0.mem.ft()[i].mapped <==> s0.mem.fifo_queue@.contains(i as PFN));
                }
            }
            assert forall|p: int| #[trigger] s1.running(p) implies {
                &&& 0 < s1.ptbr(p) < s1.mem.n()
                &&& s1.mem.mem@[s1.ptbr(p)] is PageTable
                &&& s1.pt(p).len() == NUM_PAGES
                &&& s1.mem.ft()[s1.ptbr(p)].protected
                &&& !s1.mem.ft()[s1.ptbr(p)].mapped
            } by {
                assert(s0.running(p));
                assert(s0.mem.ft()[s0.ptbr(p)].protected);
            }
            assert forall|p: int, q: int|
                s1.running(p) && s1.running(q) && p != q implies s1.ptbr(p) != s1.ptbr(q) by {
                assert(s0.running(p) && s0.running(q));
            }
            assert forall|p: int, v2: int|
                s1.running(p) && 0 <= v2 < NUM_PAGES && (#[trigger] s1.pte(p, v2)).valid implies {
                &&& 0 <= s1.pte(p, v2).pfn < s1.mem.n()
                &&& s1.mem.ft()[s1.pte(p, v2).pfn as int].mapped
                &&& s1.mem.ft()[s1.pte(p, v2).pfn as int].process == Some(s1.procs@[p])
                &&& s1.mem.ft()[s1.pte(p, v2).pfn as int].vpn == v2
                &&& s1.pte(p, v2).swap_entry == 0
            } by {
                assert(s0.running(p));
                assert(s0.mem.ft()[s0.ptbr(p)].protected);
                assert(s1.pte(p, v2) == s0.pte(p, v2));
                assert(s0.pte(p, v2).valid);
                let f1 = s0.pte(p, v2).pfn as int;
                assert(s0.mem.ft()[f1].mapped);
                if f1 == fu as int {
                    assert(s0.mem.ft()[fu as int].process == Some(s0.procs@[p]));
                    assert(false);
                }
                assert(s1.mem.ft()[f1] == s0.mem.ft()[f1]);
            }
            assert forall|f2: int|
                0 <= f2 < s1.mem.n() && (#[trigger] s1.mem.ft()[f2]).mapped implies {
                &&& 0 <= s1.mem.ft()[f2].process->Some_0.pid < MAX_PID
                &&& !(s1.procs@[s1.mem.ft()[f2].process->Some_0.pid as int].state
                    is UNINITIALIZED)
                &&& (s1.procs@[s1.mem.ft()[f2].process->Some_0.pid as int].state is RUNNING ==> {
                    &&& s1.mem.ft()[f2].process == Some(
                        s1.procs@[s1.mem.ft()[f2].process->Some_0.pid as int],
                    )
                    &&& s1.pte(
                        s1.mem.ft()[f2].process->Some_0.pid as int,
                        s1.mem.ft()[f2].vpn as int,
                    ).valid
                    &&& s1.pte(
                        s1.mem.ft()[f2].process->Some_0.pid as int,
                        s1.mem.ft()[f2].vpn as int,
                    ).pfn == f2
                })
            } by {
                assert(f2 != fu as int);
                assert(s1.mem.ft()[f2] == s0.mem.ft()[f2]);
                assert(s0.mem.ft()[f2].mapped);
                let fp = s0.mem.ft()[f2].process->Some_0.pid as int;
                let fv = s0.mem.ft()[f2].vpn as int;
                if s0.procs@[fp].state is RUNNING {
                    assert(s0.running(fp));
                    assert(s0.mem.ft()[s0.ptbr(fp)].protected);
                    assert(s1.pte(fp, fv) == s0.pte(fp, fv));
                }
            }
            assert forall|p: int, v2: int|
                s1.running(p) && 0 <= v2 < NUM_PAGES && (#[trigger] s1.pte(p, v2)).swap_entry
                    != 0 implies {
                &&& s1.swap.contents().contains_key(s1.pte(p, v2).swap_entry)
                &&& s1.swap.contents()[s1.pte(p, v2).swap_entry].len() == PAGE_SIZE
            } by {
                assert(s0.running(p));
                assert(s0.mem.ft()[s0.ptbr(p)].protected);
                assert(s1.pte(p, v2) == s0.pte(p, v2));
            }
            assert forall|p1: int, v1: int, p2: int, v2: int|
                s1.running(p1) && s1.running(p2) && 0 <= v1 < NUM_PAGES && 0 <= v2 < NUM_PAGES && (
                #[trigger] s1.pte(p1, v1)).swap_entry != 0 && (#[trigger] s1.pte(
                p2,
                v2,
            )).swap_entry == s1.pte(p1, v1).swap_entry implies (p1 == p2 && v1 == v2) by {
                assert(s0.running(p1) && s0.running(p2));
                assert(s0.mem.ft()[s0.ptbr(p1)].protected);
                assert(s0.mem.ft()[s0.ptbr(p2)].protected);
                assert(s1.pte(p1, v1) == s0.pte(p1, v1));
                assert(s1.pte(p2, v2) == s0.pte(p2, v2));
            }
            assert(s1.inv());
        }
        Ok(())
    }

    /// Create a process: move it from UNINITIALIZED to RUNNING, allocating a
    /// frame for its page table (evicting under pressure) and marking that
    /// frame protected.  A pid outside `[0, MAX_PID)` is an `AddressError`;
    /// an already created process is an `InvalidProcessState`; `OutOfMemory`
    /// comes exactly when every frame is already protected.
    #[verifier::rlimit(100)]
    pub fn create_process(&mut self, pid: u32) -> (r: Result<(), VmError>)
        requires
            old(self).inv(),
        ensures
            final(self).inv(),
            pid >= MAX_PID ==> r == Err::<(), VmError>(VmError::AddressError) && *final(self)
                == *old(self),
            pid < MAX_PID && !(old(self).procs@[pid as int].state is UNINITIALIZED) ==> r
                == Err::<(), VmError>(VmError::InvalidProcessState) && *final(self) == *old(self),
            pid < MAX_PID && old(self).procs@[pid as int].state is UNINITIALIZED ==> {
                &&& ((r is Err) <==> (forall|i: int|
                    0 <= i < old(self).mem.n() ==> old(self).mem.ft()[i].protected))
                &&& (r matches Err(e) ==> e == VmError::OutOfMemory && *final(self) == *old(self))
                &&& (r is Ok ==> {
                    &&& final(self).running(pid as int)
                    &&& final(self).procs@ == old(self).procs@.update(
                        pid as int,
                        final(self).procs@[pid as int],
                    )
                    &&& final(self).procs@[pid as int].state is RUNNING
                    &&& final(self).procs@[pid as int].pid == pid
                    &&& (forall|v: int|
                        0 <= v < NUM_PAGES ==> final(self).pte(pid as int, v) == pte_default())
                    &&& final(self).mem.n() == old(self).mem.n()
                    &&& final(self).swap.check == old(self).swap.check
                    &&& !old(self).mem.ft()[final(self).ptbr(pid as int)].protected
                    &&& final(self).mem.ft()[final(self).ptbr(pid as int)].protected
                    &&& (forall|i: int|
                        0 <= i < old(self).mem.n() && i != final(self).ptbr(pid as int)
                            ==> final(self).mem.ft()[i].protected == old(
                            self,
                        ).mem.ft()[i].protected)
                })
            },
    {
        if pid >= MAX_PID {
            return Err(VmError::AddressError);
        }
        let st = self.procs[pid as usize].state;
        if !matches!(st, ProcessState::UNINITIALIZED) {
            return Err(VmError::InvalidProcessState);
        }
        let f = match self.allocate_frame() {
            Ok(f) => f,
            Err(e) => {
                return Err(e);
            }
        };
        let ghost mid = *self;
        let mut ptes: Vec<PageTableEntry> = Vec::new();
        let mut v: usize = 0;
        while v < 1024
            invariant
                v <= 1024,
                ptes@.len() == v,
                *self == mid,
                forall|j: int| 0 <= j < v ==> ptes@[j] == pte_default(),
            decreases 1024 - v,
        {
            ptes.push(PageTableEntry::new());
            v = v + 1;
        }
        let fu = f as usize;
        self.mem.put_frame(fu, Frame::PageTable(ptes));
        self.mem.set_fte(
            fu,
            FrameTableEntry { protected: true, mapped: false, process: None, vpn: 0 },
        );
        self.procs.set(
            pid as usize,
            Process { pid: pid, state: ProcessState::RUNNING, saved_ptbr: f },
        );
        proof {
            let s1 = *self;
            assert(s1.mem.inv()) by {
                assert forall|i: int|
                    0 <= i < s1.mem.n() implies ((#[trigger] s1.mem.ft()[i]).mapped <==> s1
                    .mem.fifo_queue@.contains(i as PFN)) by {
                    assert(mid.mem.ft()[i].mapped <==> mid.mem.fifo_queue@.contains(i as PFN));
                }
            }
            assert forall|p: int| #[trigger] s1.running(p) implies {
                &&& 0 < s1.ptbr(p) < s1.mem.n()
                &&& s1.mem.mem@[s1.ptbr(p)] is PageTable
                &&& s1.pt(p).len() == NUM_PAGES
                &&& s1.mem.ft()[s1.ptbr(p)].protected
                &&& !s1.mem.ft()[s1.ptbr(p)].mapped
            } by {
                if p != pid as int {
                    assert(mid.running(p));
                    assert(mid.mem.ft()[mid.ptbr(p)].protected);
                }
            }
            assert forall|p: int, q: int|
                s1.running(p) && s1.running(q) && p != q implies s1.ptbr(p) != s1.ptbr(q) by {
                if p != pid as int && q != pid as int {
                    assert(mid.running(p) && mid.running(q));
                } else if p == pid as int {
                    assert(mid.running(q));
                    assert(mid.mem.ft()[mid.ptbr(q)].protected);
                } else {
                    assert(mid.running(p));
                    assert(mid.mem.ft()[mid.ptbr(p)].protected);
                }
            }
            assert forall|p: int, v2: int|
                s1.running(p) && 0 <= v2 < NUM_PAGES && (#[trigger] s1.pte(p, v2)).valid implies {
                &&& 0 <= s1.pte(p, v2).pfn < s1.mem.n()
                &&& s1.mem.ft()[s1.pte(p, v2).pfn as int].mapped
                &&& s1.mem.ft()[s1.pte(p, v2).pfn as int].process == Some(s1.procs@[p])
                &&& s1.mem.ft()[s1.pte(p, v2).pfn as int].vpn == v2
                &&& s1.pte(p, v2).swap_entry == 0
            } by {
                if p == pid as int {
                    assert(s1.pte(p, v2) == pte_default());
                } else {
                    assert(mid.running(p));
                    assert(mid.mem.ft()[mid.ptbr(p)].protected);
                    assert(s1.pte(p, v2) == mid.pte(p, v2));
                    assert(mid.pte(p, v2).valid);
                    assert(mid.mem.ft()[mid.pte(p, v2).pfn as int].mapped);
                }
            }
            assert forall|f2: int|
                0 <= f2 < s1.mem.n() && (#[trigger] s1.mem.ft()[f2]).mapped implies {
                &&& 0 <= s1.mem.ft()[f2].process->Some_0.pid < MAX_PID
                &&& !(s1.procs@[s1.mem.ft()[f2].process->Some_0.pid as int].state
                    is UNINITIALIZED)
                &&& (s1.procs@[s1.mem.ft()[f2].process->Some_0.pid as int].state is RUNNING ==> {
                    &&& s1.mem.ft()[f2].process == Some(
                        s1.procs@[s1.mem.ft()[f2].process->Some_0.pid as int],
                    )
                    &&& s1.pte(
                        s1.mem.ft()[f2].process->Some_0.pid as int,
                        s1.mem.ft()[f2].vpn as int,
                    ).valid
                    &&& s1.pte(
                        s1.mem.ft()[f2].process->Some_0.pid as int,
                        s1.mem.ft()[f2].vpn as int,
                    ).pfn == f2
                })
            } by {
                assert(f2 != fu as int);
                assert(s1.mem.ft()[f2] == mid.mem.ft()[f2]);
                assert(mid.mem.ft()[f2].mapped);
                let fp = mid.mem.ft()[f2].process->Some_0.pid as int;
                let fv = mid.mem.ft()[f2].vpn as int;
                assert(fp != pid as int);
                if mid.procs@[fp].state is RUNNING {
                    assert(mid.running(fp));
                    assert(mid.mem.ft()[mid.ptbr(fp)].protected);
                    assert(s1.pte(fp, fv) == mid.pte(fp, fv));
                }
            }
            assert forall|p: int, v2: int|
                s1.running(p) && 0 <= v2 < NUM_PAGES && (#[trigger] s1.pte(p, v2)).swap_entry
                    != 0 implies {
                &&& s1.swap.contents().contains_key(s1.pte(p, v2).swap_entry)
                &&& s1.swap.contents()[s1.pte(p, v2).swap_entry].len() == PAGE_SIZE
            } by {
                if p == pid as int {
                    assert(s1.pte(p, v2) == pte_default());
                } else {
                    assert(mid.running(p));
                    assert(mid.mem.ft()[mid.ptbr(p)].protected);
                    assert(s1.pte(p, v2) == mid.pte(p, v2));
                }
            }
            assert forall|p1: int, v1: int, p2: int, v2: int|
                s1.running(p1) && s1.running(p2) && 0 <= v1 < NUM_PAGES && 0 <= v2 < NUM_PAGES && (
                #[trigger] s1.pte(p1, v1)).swap_entry != 0 && (#[trigger] s1.pte(
                p2,
                v2,
            )).swap_entry == s1.pte(p1, v1).swap_entry implies (p1 == p2 && v1 == v2) by {
                if p1 == pid as int {
                    assert(s1.pte(p1, v1) == pte_default());
                } else if p2 == pid as int {
                    assert(s1.pte(p2, v2) == pte_default());
                } else {
                    assert(mid.running(p1) && mid.running(p2));
                    assert(mid.mem.ft()[mid.ptbr(p1)].protected);
                    assert(mid.mem.ft()[mid.ptbr(p2)].protected);
                    assert(s1.pte(p1, v1) == mid.pte(p1, v1));
                    assert(s1.pte(p2, v2) == mid.pte(p2, v2));
                }
            }
            assert(s1.inv());
            assert(s1.procs@ =~= old(self).procs@.update(pid as int, s1.procs@[pid as int]));
        }
        Ok(())
    }

    /// Terminate a RUNNING process: it moves to STOPPED (a terminal state),
    /// its page table frame is unprotected and freed, and every mapping it
    /// held goes away with the table.  Its data frames stay mapped and
    /// become ordinary eviction victims; they are not walked proactively.
    #[verifier::rlimit(100)]
    pub fn terminate_process(&mut self, pid: u32) -> (r: Result<(), VmError>)
        requires
            old(self).inv(),
        ensures
            final(self).inv(),
            pid >= MAX_PID ==> r == Err::<(), VmError>(VmError::AddressError) && *final(self)
                == *old(self),
            pid < MAX_PID && !(old(self).procs@[pid as int].state is RUNNING) ==> r == Err::<
                (),
                VmError,
            >(VmError::InvalidProcessState) && *final(self) == *old(self),
            pid < MAX_PID && old(self).procs@[pid as int].state is RUNNING ==> {
                &&& r is Ok
                &&& final(self).procs@ == old(self).procs@.update(
                    pid as int,
                    Process { pid: pid, state: ProcessState::STOPPED, saved_ptbr: 0 },
                )
                &&& final(self).mem.mem@[old(self).ptbr(pid as int)] is UNINITIALIZED
                &&& final(self).mem.ft() == old(self).mem.ft().update(
                    old(self).ptbr(pid as int),
                    fte_default(),
                )
                &&& (forall|i: int|
                    0 <= i < old(self).mem.n() && i != old(self).ptbr(pid as int) && i != 0
                        ==> final(self).mem.mem@[i] == old(self).mem.mem@[i])
                &&& final(self).swap == old(self).swap
                &&& final(self).mem.n() == old(self).mem.n()
                &&& final(self).mem.fifo_queue@ == old(self).mem.fifo_queue@
            },
    {
        if pid >= MAX_PID {
            return Err(VmError::AddressError);
        }
        let st = self.procs[pid as usize].state;
        if !matches!(st, ProcessState::RUNNING) {
            return Err(VmError::InvalidProcessState);
        }
        proof {
            assert(old(self).running(pid as int));
        }
        let b = self.procs[pid as usize].saved_ptbr as usize;
        let _released = self.mem.take_frame(b);
        self.mem.set_fte(b, FrameTableEntry::new());
        self.procs.set(
            pid as usize,
            Process { pid: pid, state: ProcessState::STOPPED, saved_ptbr: 0 },
        );
        proof {
            let s0 = *old(self);
            let s1 = *self;
            let bb = s0.ptbr(pid as int);
            assert(s1.mem.ft() =~= s0.mem.ft().update(bb, fte_default()));
            assert(s1.mem.inv()) by {
                assert forall|i: int|
                    0 <= i < s1.mem.n() implies ((#[trigger] s1.mem.ft()[i]).mapped <==> s1
                    .mem.fifo_queue@.contains(i as PFN)) by {
                    assert(s0.mem.ft()[i].mapped <==> s0.mem.fifo_queue@.contains(i as PFN));
                }
            }
            assert forall|p: int| #[trigger] s1.running(p) implies {
                &&& 0 < s1.ptbr(p) < s1.mem.n()
                &&& s1.mem.mem@[s1.ptbr(p)] is PageTable
                &&& s1.pt(p).len() == NUM_PAGES
                &&& s1.mem.ft()[s1.ptbr(p)].protected
                &&& !s1.mem.ft()[s1.ptbr(p)].mapped
            } by {
                assert(p != pid as int);
                assert(s0.running(p));
                assert(s0.running(pid as int));
                assert(s0.ptbr(p) != bb);
            }
            assert forall|p: int, q: int|
                s1.running(p) && s1.running(q) && p != q implies s1.ptbr(p) != s1.ptbr(q) by {
                assert(s0.running(p) && s0.running(q));
            }
            assert forall|p: int, v2: int|
                s1.running(p) && 0 <= v2 < NUM_PAGES && (#[trigger] s1.pte(p, v2)).valid implies {
                &&& 0 <= s1.pte(p, v2).pfn < s1.mem.n()
                &&& s1.mem.ft()[s1.pte(p, v2).pfn as int].mapped
                &&& s1.mem.ft()[s1.pte(p, v2).pfn as int].process == Some(s1.procs@[p])
                &&& s1.mem.ft()[s1.pte(p, v2).pfn as int].vpn == v2
                &&& s1.pte(p, v2).swap_entry == 0
            } by {
                assert(p != pid as int);
                assert(s0.running(p));
                assert(s0.running(pid as int));
                assert(s0.ptbr(p) != bb);
                assert(s1.pte(p, v2) == s0.pte(p, v2));
                assert(s0.pte(p, v2).valid);
                let f1 = s0.pte(p, v2).pfn as int;
                assert(s0.mem.ft()[f1].mapped);
                assert(f1 != bb);
                assert(s1.mem.ft()[f1] == s0.mem.ft()[f1]);
            }
            assert forall|f2: int|
                0 <= f2 < s1.mem.n() && (#[trigger] s1.mem.ft()[f2]).mapped implies {
                &&& 0 <= s1.mem.ft()[f2].process->Some_0.pid < MAX_PID
                &&& !(s1.procs@[s1.mem.ft()[f2].process->Some_0.pid as int].state
                    is UNINITIALIZED)
                &&& (s1.procs@[s1.mem.ft()[f2].process->Some_0.pid as int].state is RUNNING ==> {
                    &&& s1.mem.ft()[f2].process == Some(
                        s1.procs@[s1.mem.ft()[f2].process->Some_0.pid as int],
                    )
                    &&& s1.pte(
                        s1.mem.ft()[f2].process->Some_0.pid as int,
                        s1.mem.ft()[f2].vpn as int,
                    ).valid
                    &&& s1.pte(
                        s1.mem.ft()[f2].process->Some_0.pid as int,
                        s1.mem.ft()[f2].vpn as int,
                    ).pfn == f2
                })
            } by {
                assert(f2 != bb);
                assert(s1.mem.ft()[f2] == s0.mem.ft()[f2]);
                assert(s0.mem.ft()[f2].mapped);
                let fp = s0.mem.ft()[f2].process->Some_0.pid as int;
                let fv = s0.mem.ft()[f2].vpn as int;
                if s1.procs@[fp].state is RUNNING {
                    assert(fp != pid as int);
                    assert(s0.running(fp));
                    assert(s0.running(pid as int));
                    assert(s0.ptbr(fp) != bb);
                    assert(s1.pte(fp, fv) == s0.pte(fp, fv));
                }
            }
            assert forall|p: int, v2: int|
                s1.running(p) && 0 <= v2 < NUM_PAGES && (#[trigger] s1.pte(p, v2)).swap_entry
                    != 0 implies {
                &&& s1.swap.contents().contains_key(s1.pte(p, v2).swap_entry)
                &&& s1.swap.contents()[s1.pte(p, v2).swap_entry].len() == PAGE_SIZE
            } by {
                assert(p != pid as int);
                assert(s0.running(p));
                assert(s0.running(pid as int));
                assert(s0.ptbr(p) != bb);
                assert(s1.pte(p, v2) == s0.pte(p, v2));
            }
            assert forall|p1: int, v1: int, p2: int, v2: int|
                s1.running(p1) && s1.running(p2) && 0 <= v1 < NUM_PAGES && 0 <= v2 < NUM_PAGES && (
                #[trigger] s1.pte(p1, v1)).swap_entry != 0 && (#[trigger] s1.pte(
                p2,
                v2,
            )).swap_entry == s1.pte(p1, v1).swap_entry implies (p1 == p2 && v1 == v2) by {
                assert(s0.running(p1) && s0.running(p2));
                assert(s0.running(pid as int));
                assert(s0.ptbr(p1) != bb && s0.ptbr(p2) != bb);
                assert(s1.pte(p1, v1) == s0.pte(p1, v1));
                assert(s1.pte(p2, v2) == s0.pte(p2, v2));
            }
            assert(s1.inv());
            assert(s1.procs@ =~= s0.procs@.update(
                pid as int,
                Process { pid: pid, state: ProcessState::STOPPED, saved_ptbr: 0 },
            ));
        }
        Ok(())
    }

    /// Resolve a page fault for `(pid, vpn)`: allocate a frame (evicting
    /// under pressure), fill it from the swap store if the page was evicted
    /// dirty before (consuming the handle and charging the disk latency) or
    /// with zeroes on first touch, and make the entry valid and clean.
    /// Fails with `OutOfMemory` exactly when every frame is protected.
    #[verifier::rlimit(100)]
    pub fn handle_fault(&mut self, pid: u32, vpn: u16) -> (r: Result<(), VmError>)
        requires
            old(self).inv(),
            old(self).running(pid as int),
            (vpn as int) < NUM_PAGES,
            !old(self).pte(pid as int, vpn as int).valid,
        ensures
            final(self).inv(),
            final(self).procs@ == old(self).procs@,
            (r is Err) <==> (forall|i: int|
                0 <= i < old(self).mem.n() ==> old(self).mem.ft()[i].protected),
            r matches Err(e) ==> e == VmError::OutOfMemory && *final(self) == *old(self),
            r is Ok ==> {
                &&& final(self).pte(pid as int, vpn as int).valid
                &&& !final(self).pte(pid as int, vpn as int).dirty
                &&& final(self).pte(pid as int, vpn as int).swap_entry == 0
                &&& (final(self).pte(pid as int, vpn as int).pfn as int) < final(self).mem.n()
                &&& (old(self).pte(pid as int, vpn as int).swap_entry != 0 ==> {
                    &&& final(self).mem.mem@[final(self).pte(pid as int, vpn as int).pfn as int].bytes()
                        == old(self).swap.contents()[old(self).pte(pid as int, vpn as int).swap_entry]
                    &&& !final(self).swap.contents().contains_key(
                        old(self).pte(pid as int, vpn as int).swap_entry,
                    )
                })
                &&& (old(self).pte(pid as int, vpn as int).swap_entry == 0 ==> (forall|k: int|
                    0 <= k < PAGE_SIZE
                        ==> final(self).mem.mem@[final(self).pte(pid as int, vpn as int).pfn as int].bytes()[k]
                        == 0))
                &&& {
                    let fnew = final(self).pte(pid as int, vpn as int).pfn as int;
                    &&& !old(self).mem.ft()[fnew].protected
                    &&& (!old(self).mem.ft()[fnew].mapped ==> (forall|i: int|
                        0 <= i < fnew ==> ((#[trigger] old(self).mem.ft()[i]).mapped || old(
                            self,
                        ).mem.ft()[i].protected)))
                    &&& (old(self).mem.ft()[fnew].mapped ==> {
                        &&& (forall|i: int|
                            0 <= i < old(self).mem.n() ==> ((#[trigger] old(
                                self,
                            ).mem.ft()[i]).mapped || old(self).mem.ft()[i].protected))
                        &&& (old(self).mem.replacement == crate::defs::Replacement::FIFO ==> Some(
                            fnew as PFN,
                        ) == old(self).mem.fifo_victim())
                        &&& (old(self).mem.replacement == crate::defs::Replacement::LRU ==> old(
                            self,
                        ).mem.lru_min(fnew))
                        &&& (old(self).mem.replacement == crate::defs::Replacement::CLOCKSWEEP
                            ==> ((exists|j: int|
                            old(self).mem.eligible(j) && !old(self).mem.ref_bits@[j]) ==> !old(
                            self,
                        ).mem.ref_bits@[fnew]))
                    })
                }
            },
    {
        let f = match self.allocate_frame() {
            Ok(f) => f,
            Err(e) => {
                return Err(e);
            }
        };
        proof {
            let s0 = *old(self);
            let m = *self;
            assert(m.running(pid as int));
            if s0.mem.ft()[f as int].mapped {
                let fte0 = s0.mem.ft()[f as int];
                let opid = fte0.process->Some_0.pid as int;
                let w = fte0.vpn as int;
                let orun = s0.procs@[opid].state is RUNNING;
                assert(s0.running(pid as int));
                let pb = s0.ptbr(pid as int);
                assert(s0.mem.ft()[pb].protected);
                assert(pb != f as int && pb != 0);
                if orun {
                    if pid as int == opid {
                        assert(s0.pte(opid, w).valid);
                        assert(w != vpn as int);
                        assert(m.pt(opid) == s0.pt(opid).update(w, m.pte(opid, w)));
                        assert(m.pte(pid as int, vpn as int) == s0.pte(pid as int, vpn as int));
                    } else {
                        assert(s0.running(opid));
                        assert(pb != s0.ptbr(opid));
                        assert(m.mem.mem@[pb] == s0.mem.mem@[pb]);
                    }
                } else {
                    assert(m.mem.mem@[pb] == s0.mem.mem@[pb]);
                }
            }
            assert(self.pte(pid as int, vpn as int) == old(self).pte(pid as int, vpn as int));
        }
        let ghost ma = *self;
        let b = self.procs[pid as usize].saved_ptbr as usize;
        let e = self.mem.get_pte(b, vpn as usize);
        let ghost h0 = e.swap_entry;
        let data: Vec<u8>;
        if e.swap_entry != 0 {
            proof {
                assert(ma.swap.contents().contains_key(h0));
                assert(ma.swap.contents()[h0] == old(self).swap.contents()[h0]);
            }
            data = match self.swap.swap_in(e.swap_entry) {
                Ok(d) => d,
                Err(err) => {
                    proof {
                        assert(false);
                    }
                    return Err(err);
                }
            };
            self.add_time(DISK_ACCESS_TIME);
        } else {
            data = zero_page();
        }
        let fu = f as usize;
        self.mem.put_frame(fu, Frame::Data(data));
        let me = self.procs[pid as usize];
        self.mem.set_fte(
            fu,
            FrameTableEntry { protected: false, mapped: true, process: Some(me), vpn: vpn },
        );
        self.mem.fifo_push(f);
        self.mem.set_pte(
            b,
            vpn as usize,
            PageTableEntry { valid: true, dirty: false, pfn: f, swap_entry: 0 },
        );
        proof {
            let s1 = *self;
            let pi = pid as int;
            let vi = vpn as int;
            assert(ma.mem.ft()[f as int].mapped <==> ma.mem.fifo_queue@.contains(f as PFN));
            assert(s1.mem.ft() =~= ma.mem.ft().update(
                f as int,
                FrameTableEntry { protected: false, mapped: true, process: Some(me), vpn: vpn },
            ));
            assert(s1.mem.inv()) by {
                assert forall|i: int|
                    0 <= i < s1.mem.n() implies ((#[trigger] s1.mem.ft()[i]).mapped <==> s1
                    .mem.fifo_queue@.contains(i as PFN)) by {
                    assert(ma.mem.ft()[i].mapped <==> ma.mem.fifo_queue@.contains(i as PFN));
                    if i != f as int {
                        assert(s1.mem.fifo_queue@ == ma.mem.fifo_queue@.push(f));
                        assert(s1.mem.fifo_queue@.contains(i as PFN) <==> ma
                            .mem.fifo_queue@.contains(i as PFN)) by {
                            if ma.mem.fifo_queue@.contains(i as PFN) {
                                let j = choose|j: int|
                                    0 <= j < ma.mem.fifo_queue@.len() && ma.mem.fifo_queue@[j]
                                        == i as PFN;
                                assert(s1.mem.fifo_queue@[j] == i as PFN);
                            }
                            if s1.mem.fifo_queue@.contains(i as PFN) {
                                let j = choose|j: int|
                                    0 <= j < s1.mem.fifo_queue@.len() && s1.mem.fifo_queue@[j]
                                        == i as PFN;
                                assert(j < ma.mem.fifo_queue@.len());
                                assert(ma.mem.fifo_queue@[j] == i as PFN);
                            }
                        }
                    } else {
                        assert(s1.mem.fifo_queue@[s1.mem.fifo_queue@.len() - 1] == f);
                    }
                }
            }
            assert forall|p: int| #[trigger] s1.running(p) implies {
                &&& 0 < s1.ptbr(p) < s1.mem.n()
                &&& s1.mem.mem@[s1.ptbr(p)] is PageTable
                &&& s1.pt(p).len() == NUM_PAGES
                &&& s1.mem.ft()[s1.ptbr(p)].protected
                &&& !s1.mem.ft()[s1.ptbr(p)].mapped
            } by {
                assert(ma.running(p));
                assert(ma.mem.ft()[ma.ptbr(p)].protected);
                if ma.ptbr(p) != b as int {
                    assert(s1.mem.mem@[ma.ptbr(p)] == ma.mem.mem@[ma.ptbr(p)]);
                }
            }
            assert forall|p: int, q: int|
                s1.running(p) && s1.running(q) && p != q implies s1.ptbr(p) != s1.ptbr(q) by {
                assert(ma.running(p) && ma.running(q));
            }
            // rows other than ours are untouched
            assert forall|p: int, v2: int|
                s1.running(p) && 0 <= v2 < NUM_PAGES && !(p == pi && v2 == vi) implies s1.pte(
                p,
                v2,
            ) == ma.pte(p, v2) by {
                assert(ma.running(p));
                let pb2 = ma.ptbr(p);
                assert(ma.mem.ft()[pb2].protected);
                assert(pb2 != f as int && pb2 != 0);
                if p == pi {
                    assert(s1.pt(p) == ma.pt(p).update(vi, s1.pte(pi, vi)));
                } else {
                    assert(ma.running(pi));
                    assert(pb2 != ma.ptbr(pi));
                    assert(s1.mem.mem@[pb2] == ma.mem.mem@[pb2]);
                }
            }
            assert forall|p: int, v2: int|
                s1.running(p) && 0 <= v2 < NUM_PAGES && (#[trigger] s1.pte(p, v2)).valid implies {
                &&& 0 <= s1.pte(p, v2).pfn < s1.mem.n()
                &&& s1.mem.ft()[s1.pte(p, v2).pfn as int].mapped
                &&& s1.mem.ft()[s1.pte(p, v2).pfn as int].process == Some(s1.procs@[p])
                &&& s1.mem.ft()[s1.pte(p, v2).pfn as int].vpn == v2
                &&& s1.pte(p, v2).swap_entry == 0
            } by {
                if p == pi && v2 == vi {
                    assert(s1.pte(pi, vi).pfn == f);
                    assert(s1.mem.ft()[f as int].mapped);
                } else {
                    assert(s1.pte(p, v2) == ma.pte(p, v2));
                    assert(ma.running(p));
                    assert(ma.pte(p, v2).valid);
                    let f1 = ma.pte(p, v2).pfn as int;
                    assert(ma.mem.ft()[f1].mapped);
                    assert(f1 != f as int);
                    assert(s1.mem.ft()[f1] == ma.mem.ft()[f1]);
                }
            }
            assert forall|f2: int|
                0 <= f2 < s1.mem.n() && (#[trigger] s1.mem.ft()[f2]).mapped implies {
                &&& 0 <= s1.mem.ft()[f2].process->Some_0.pid < MAX_PID
                &&& !(s1.procs@[s1.mem.ft()[f2].process->Some_0.pid as int].state
                    is UNINITIALIZED)
                &&& (s1.procs@[s1.mem.ft()[f2].process->Some_0.pid as int].state is RUNNING ==> {
                    &&& s1.mem.ft()[f2].process == Some(
                        s1.procs@[s1.mem.ft()[f2].process->Some_0.pid as int],
                    )
                    &&& s1.pte(
                        s1.mem.ft()[f2].process->Some_0.pid as int,
                        s1.mem.ft()[f2].vpn as int,
                    ).valid
                    &&& s1.pte(
                        s1.mem.ft()[f2].process->Some_0.pid as int,
                        s1.mem.ft()[f2].vpn as int,
                    ).pfn == f2
                })
            } by {
                if f2 == f as int {
                    assert(s1.pte(pi, vi).valid && s1.pte(pi, vi).pfn == f);
                } else {
                    assert(s1.mem.ft()[f2] == ma.mem.ft()[f2]);
                    assert(ma.mem.ft()[f2].mapped);
                    let fp = ma.mem.ft()[f2].process->Some_0.pid as int;
                    let fv = ma.mem.ft()[f2].vpn as int;
                    if s1.procs@[fp].state is RUNNING {
                        assert(ma.running(fp));
                        assert(ma.pte(fp, fv).valid && ma.pte(fp, fv).pfn == f2);
                        if fp == pi && fv == vi {
                            assert(ma.pte(pi, vi).valid);
                            assert(false);
                        }
                        assert(s1.pte(fp, fv) == ma.pte(fp, fv));
                    }
                }
            }
            assert forall|p: int, v2: int|
                s1.running(p) && 0 <= v2 < NUM_PAGES && (#[trigger] s1.pte(p, v2)).swap_entry
                    != 0 implies {
                &&& s1.swap.contents().contains_key(s1.pte(p, v2).swap_entry)
                &&& s1.swap.contents()[s1.pte(p, v2).swap_entry].len() == PAGE_SIZE
            } by {
                assert(!(p == pi && v2 == vi));
                assert(s1.pte(p, v2) == ma.pte(p, v2));
                assert(ma.running(p));
                assert(ma.swap.contents().contains_key(ma.pte(p, v2).swap_entry));
                assert(ma.swap.contents()[ma.pte(p, v2).swap_entry].len() == PAGE_SIZE);
                if h0 != 0 {
                    assert(ma.pte(pi, vi).swap_entry == h0);
                    assert(ma.pte(p, v2).swap_entry != h0);
                    assert(s1.swap.contents() == ma.swap.contents().remove(h0));
                }
            }
            assert forall|p1: int, v1: int, p2: int, v2: int|
                s1.running(p1) && s1.running(p2) && 0 <= v1 < NUM_PAGES && 0 <= v2 < NUM_PAGES && (
                #[trigger] s1.pte(p1, v1)).swap_entry != 0 && (#[trigger] s1.pte(
                p2,
                v2,
            )).swap_entry == s1.pte(p1, v1).swap_entry implies (p1 == p2 && v1 == v2) by {
                assert(!(p1 == pi && v1 == vi));
                assert(!(p2 == pi && v2 == vi));
                assert(s1.pte(p1, v1) == ma.pte(p1, v1));
                assert(s1.pte(p2, v2) == ma.pte(p2, v2));
                assert(ma.running(p1) && ma.running(p2));
            }
            assert(s1.inv());
        }
        Ok(())
    }

    /// Translate a virtual address for a process, the top-level entry point
    /// of the core.  The address is split into a virtual page number and an
    /// offset; a pid or page number out of range is an `AddressError` and a
    /// reference from a STOPPED process an `InvalidProcessState`.  A first
    /// reference from a fresh process creates it (allocating its page
    /// table); an invalid entry goes through the page fault handler.  On a
    /// hit the physical address is `pfn * PAGE_SIZE + offset`, a write sets
    /// the dirty bit, the replacement engine is told of the access, and the
    /// memory latency is charged.  With no intervening eviction the entry —
    /// and so the returned address — never changes between repeated calls.
    #[verifier::rlimit(100)]
    pub fn translate(&mut self, pid: u32, vaddr: crate::defs::VAddr, kind: crate::defs::AccessKind) -> (r: Result<
        PAddr,
        VmError,
    >)
        requires
            old(self).inv(),
        ensures
            final(self).inv(),
            (pid >= MAX_PID || (vaddr as int) >= 16777216) ==> (r == Err::<PAddr, VmError>(
                VmError::AddressError,
            ) && *final(self) == *old(self)),
            (pid < MAX_PID && (vaddr as int) < 16777216) ==> {
                let p = pid as int;
                let v = (vaddr as int) / (PAGE_SIZE as int);
                let off = (vaddr as int) % (PAGE_SIZE as int);
                &&& (old(self).procs@[p].state is STOPPED ==> r == Err::<PAddr, VmError>(
                    VmError::InvalidProcessState,
                ) && *final(self) == *old(self))
                &&& ((old(self).running(p) && old(self).pte(p, v).valid) ==> {
                    &&& r == Ok::<PAddr, VmError>(
                        ((old(self).pte(p, v).pfn as int) * (PAGE_SIZE as int) + off) as u32,
                    )
                    &&& final(self).pte(p, v).pfn == old(self).pte(p, v).pfn
                    &&& final(self).pte(p, v).valid
                    &&& final(self).pte(p, v).dirty == (old(self).pte(p, v).dirty
                        || kind is Write)
                    &&& final(self).pte(p, v).swap_entry == 0
                    &&& final(self).procs@ == old(self).procs@
                    &&& final(self).swap == old(self).swap
                    &&& (forall|p2: int, v2: int|
                        final(self).running(p2) && 0 <= v2 < NUM_PAGES && !(p2 == p && v2 == v)
                            ==> final(self).pte(p2, v2) == old(self).pte(p2, v2))
                    &&& (kind is Read ==> final(self).pte(p, v) == old(self).pte(p, v))
                    &&& final(self).elapsed == sat_add(
                        old(self).elapsed,
                        MEMORY_ACCESS_TIME as u64,
                    )
                })
                &&& ((old(self).running(p) && !old(self).pte(p, v).valid) ==> {
                    &&& ((r is Err) <==> (forall|i: int|
                        0 <= i < old(self).mem.n() ==> old(self).mem.ft()[i].protected))
                    &&& (r matches Err(e) ==> e == VmError::OutOfMemory)
                    &&& (r is Ok ==> {
                        let fnew = final(self).pte(p, v).pfn as int;
                        &&& !old(self).mem.ft()[fnew].protected
                        &&& (!old(self).mem.ft()[fnew].mapped ==> (forall|i: int|
                            0 <= i < fnew ==> ((#[trigger] old(self).mem.ft()[i]).mapped || old(
                                self,
                            ).mem.ft()[i].protected)))
                        &&& (old(self).mem.ft()[fnew].mapped ==> {
                            &&& (old(self).mem.replacement == crate::defs::Replacement::FIFO
                                ==> Some(fnew as PFN) == old(self).mem.fifo_victim())
                            &&& (old(self).mem.replacement == crate::defs::Replacement::LRU ==> old(
                                self,
                            ).mem.lru_min(fnew))
                            &&& (old(self).mem.replacement
                                == crate::defs::Replacement::CLOCKSWEEP ==> ((exists|j: int|
                                old(self).mem.eligible(j) && !old(self).mem.ref_bits@[j])
                                ==> !old(self).mem.ref_bits@[fnew]))
                        })
                    })
                })
                &&& ((old(self).procs@[p].state is UNINITIALIZED) ==> {
                    &&& ((r is Err) <==> !(exists|i: int, j: int|
                        0 <= i < old(self).mem.n() && 0 <= j < old(self).mem.n() && i != j && !old(
                            self,
                        ).mem.ft()[i].protected && !old(self).mem.ft()[j].protected))
                    &&& (r matches Err(e) ==> e == VmError::OutOfMemory)
                })
                &&& (r matches Ok(a) ==> {
                    &&& final(self).running(p)
                    &&& final(self).pte(p, v).valid
                    &&& a == ((final(self).pte(p, v).pfn as int) * (PAGE_SIZE as int)
                        + off) as u32
                })
            },
    {
        if pid >= MAX_PID {
            return Err(VmError::AddressError);
        }
        let vpn32: u32 = vaddr / 16384;
        let offset: u32 = vaddr % 16384;
        if vpn32 >= 1024 {
            proof {
                assert((vaddr as int) >= 16777216);
            }
            return Err(VmError::AddressError);
        }
        proof {
            assert((vaddr as int) < 16777216);
        }
        let vpn: u16 = vpn32 as u16;
        let ghost pi = pid as int;
        let ghost vi = (vaddr as int) / (PAGE_SIZE as int);
        proof {
            assert(vi == vpn as int);
            assert((vaddr as int) % (PAGE_SIZE as int) == offset as int);
        }
        let st = self.procs[pid as usize].state;
        if matches!(st, ProcessState::STOPPED) {
            return Err(VmError::InvalidProcessState);
        }
        if matches!(st, ProcessState::UNINITIALIZED) {
            match self.create_process(pid) {
                Ok(_) => {}
                Err(e) => {
                    return Err(e);
                }
            }
            let ghost sc = *self;
            proof {
                assert(sc.pte(pi, vi) == pte_default());
            }
            match self.handle_fault(pid, vpn) {
                Ok(_) => {
                    proof {
                        let bb = sc.ptbr(pi);
                        assert(!(forall|i: int|
                            0 <= i < sc.mem.n() ==> sc.mem.ft()[i].protected));
                        let i0 = choose|i: int|
                            0 <= i < sc.mem.n() && !sc.mem.ft()[i].protected;
                        assert(sc.mem.ft()[bb].protected);
                        assert(i0 != bb);
                        assert(!old(self).mem.ft()[i0].protected);
                        assert(!old(self).mem.ft()[bb].protected);
                    }
                }
                Err(e2) => {
                    proof {
                        let bb = sc.ptbr(pi);
                        assert(!old(self).mem.ft()[bb].protected);
                        assert forall|i: int, j: int|
                            0 <= i < old(self).mem.n() && 0 <= j < old(self).mem.n() && i != j
                                implies !(!old(self).mem.ft()[i].protected && !old(
                                self,
                            ).mem.ft()[j].protected) by {
                            if i != bb {
                                assert(sc.mem.ft()[i].protected == old(self).mem.ft()[i].protected);
                                assert(sc.mem.ft()[i].protected);
                            } else {
                                assert(sc.mem.ft()[j].protected == old(self).mem.ft()[j].protected);
                                assert(sc.mem.ft()[j].protected);
                            }
                        }
                    }
                    return Err(e2);
                }
            }
        } else {
            proof {
                assert(self.running(pi));
            }
            let b0 = self.procs[pid as usize].saved_ptbr as usize;
            let e0 = self.mem.get_pte(b0, vpn as usize);
            if !e0.valid {
                match self.handle_fault(pid, vpn) {
                    Ok(_) => {}
                    Err(e2) => {
                        return Err(e2);
                    }
                }
            }
        }
        let ghost mh = *self;
        proof {
            assert(mh.running(pi));
            assert(mh.pte(pi, vi).valid);
        }
        let b = self.procs[pid as usize].saved_ptbr as usize;
        let e = self.mem.get_pte(b, vpn as usize);
        if matches!(kind, crate::defs::AccessKind::Write) {
            self.mem.set_pte(
                b,
                vpn as usize,
                PageTableEntry { valid: true, dirty: true, pfn: e.pfn, swap_entry: 0 },
            );
            proof {
                let s1 = *self;
                assert(s1.mem.inv()) by {
                    assert forall|i: int|
                        0 <= i < s1.mem.n() implies ((#[trigger] s1.mem.ft()[i]).mapped <==> s1
                        .mem.fifo_queue@.contains(i as PFN)) by {
                        assert(mh.mem.ft()[i].mapped <==> mh.mem.fifo_queue@.contains(i as PFN));
                    }
                }
                assert forall|p: int| #[trigger] s1.running(p) implies {
                    &&& 0 < s1.ptbr(p) < s1.mem.n()
                    &&& s1.mem.mem@[s1.ptbr(p)] is PageTable
                    &&& s1.pt(p).len() == NUM_PAGES
                    &&& s1.mem.ft()[s1.ptbr(p)].protected
                    &&& !s1.mem.ft()[s1.ptbr(p)].mapped
                } by {
                    assert(mh.running(p));
                    if mh.ptbr(p) != b as int {
                        assert(s1.mem.mem@[mh.ptbr(p)] == mh.mem.mem@[mh.ptbr(p)]);
                    }
                }
                assert forall|p: int, q: int|
                    s1.running(p) && s1.running(q) && p != q implies s1.ptbr(p) != s1.ptbr(q) by {
                    assert(mh.running(p) && mh.running(q));
                }
                assert forall|p2: int, v2: int|
                    s1.running(p2) && 0 <= v2 < NUM_PAGES && !(p2 == pi && v2 == vi) implies s1.pte(
                    p2,
                    v2,
                ) == mh.pte(p2, v2) by {
                    assert(mh.running(p2));
                    let pb2 = mh.ptbr(p2);
                    if p2 == pi {
                        assert(s1.pt(p2) == mh.pt(p2).update(vi, s1.pte(pi, vi)));
                    } else {
                        assert(mh.running(pi));
                        assert(pb2 != mh.ptbr(pi));
                        assert(s1.mem.mem@[pb2] == mh.mem.mem@[pb2]);
                    }
                }
                assert(s1.pte(pi, vi).pfn == mh.pte(pi, vi).pfn);
                assert forall|p: int, v2: int|
                    s1.running(p) && 0 <= v2 < NUM_PAGES && (#[trigger] s1.pte(
                        p,
                        v2,
                    )).valid implies {
                    &&& 0 <= s1.pte(p, v2).pfn < s1.mem.n()
                    &&& s1.mem.ft()[s1.pte(p, v2).pfn as int].mapped
                    &&& s1.mem.ft()[s1.pte(p, v2).pfn as int].process == Some(s1.procs@[p])
                    &&& s1.mem.ft()[s1.pte(p, v2).pfn as int].vpn == v2
                    &&& s1.pte(p, v2).swap_entry == 0
                } by {
                    if p == pi && v2 == vi {
                        assert(mh.pte(pi, vi).valid);
                        assert(mh.mem.ft()[mh.pte(pi, vi).pfn as int].mapped);
                    } else {
                        assert(s1.pte(p, v2) == mh.pte(p, v2));
                        assert(mh.running(p));
                        assert(mh.pte(p, v2).valid);
                        assert(mh.mem.ft()[mh.pte(p, v2).pfn as int].mapped);
                    }
                }
                assert forall|f2: int|
                    0 <= f2 < s1.mem.n() && (#[trigger] s1.mem.ft()[f2]).mapped implies {
                    &&& 0 <= s1.mem.ft()[f2].process->Some_0.pid < MAX_PID
                    &&& !(s1.procs@[s1.mem.ft()[f2].process->Some_0.pid as int].state
                        is UNINITIALIZED)
                    &&& (s1.procs@[s1.mem.ft()[f2].process->Some_0.pid as int].state
                        is RUNNING ==> {
                        &&& s1.mem.ft()[f2].process == Some(
                            s1.procs@[s1.mem.ft()[f2].process->Some_0.pid as int],
                        )
                        &&& s1.pte(
                            s1.mem.ft()[f2].process->Some_0.pid as int,
                            s1.mem.ft()[f2].vpn as int,
                        ).valid
                        &&& s1.pte(
                            s1.mem.ft()[f2].process->Some_0.pid as int,
                            s1.mem.ft()[f2].vpn as int,
                        ).pfn == f2
                    })
                } by {
                    assert(s1.mem.ft()[f2] == mh.mem.ft()[f2]);
                    assert(mh.mem.ft()[f2].mapped);
                    let fp = mh.mem.ft()[f2].process->Some_0.pid as int;
                    let fv = mh.mem.ft()[f2].vpn as int;
                    if s1.procs@[fp].state is RUNNING {
                        assert(mh.running(fp));
                        assert(mh.pte(fp, fv).valid && mh.pte(fp, fv).pfn == f2);
                        if fp == pi && fv == vi {
                            assert(s1.pte(pi, vi).valid && s1.pte(pi, vi).pfn == mh.pte(
                                pi,
                                vi,
                            ).pfn);
                        } else {
                            assert(s1.pte(fp, fv) == mh.pte(fp, fv));
                        }
                    }
                }
                assert forall|p: int, v2: int|
                    s1.running(p) && 0 <= v2 < NUM_PAGES && (#[trigger] s1.pte(p, v2)).swap_entry
                        != 0 implies {
                    &&& s1.swap.contents().contains_key(s1.pte(p, v2).swap_entry)
                    &&& s1.swap.contents()[s1.pte(p, v2).swap_entry].len() == PAGE_SIZE
                } by {
                    assert(!(p == pi && v2 == vi));
                    assert(s1.pte(p, v2) == mh.pte(p, v2));
                    assert(mh.running(p));
                    assert(mh.swap.contents().contains_key(mh.pte(p, v2).swap_entry));
                }
                assert forall|p1: int, v1: int, p2: int, v2: int|
                    s1.running(p1) && s1.running(p2) && 0 <= v1 < NUM_PAGES && 0 <= v2 < NUM_PAGES
                        && (#[trigger] s1.pte(p1, v1)).swap_entry != 0 && (#[trigger] s1.pte(
                        p2,
                        v2,
                    )).swap_entry == s1.pte(p1, v1).swap_entry implies (p1 == p2 && v1 == v2) by {
                    assert(!(p1 == pi && v1 == vi));
                    assert(!(p2 == pi && v2 == vi));
                    assert(s1.pte(p1, v1) == mh.pte(p1, v1));
                    assert(s1.pte(p2, v2) == mh.pte(p2, v2));
                    assert(mh.running(p1) && mh.running(p2));
                }
                assert(s1.inv());
            }
        }
        let ghost mw = *self;
        self.mem.notify_access(e.pfn);
        proof {
            lemma_inv_bookkeeping_independent(mw, *self);
        }
        self.add_time(200);
        proof {
            lemma_inv_bookkeeping_independent(mw, *self);
            assert(self.pte(pi, vi) == mw.pte(pi, vi));
        }
        let pa: u32 = (e.pfn as u32) * 16384 + offset;
        Ok(pa)
    }

    /// How many frames below `i` are free: neither mapped nor protected.
    pub open spec fn count_free_upto(self, i: int) -> int
        decreases i,
    {
        if i <= 0 {
            0
        } else {
            self.count_free_upto(i - 1) + if !self.mem.ft()[i - 1].mapped && !self.mem.ft()[i
                - 1].protected {
                1int
            } else {
                0int
            }
        }
    }

    /// The number of physical frames in this session.
    pub fn frame_count(&self) -> (n: usize)
        ensures
            n == self.mem.n(),
    {
        self.mem.mem.len()
    }

    /// How many frames are free: neither mapped nor protected.
    pub fn free_frame_count(&self) -> (c: usize)
        requires
            self.inv(),
        ensures
            c == self.count_free_upto(self.mem.n()),
    {
        let n = self.mem.mem.len();
        let mut c: usize = 0;
        let mut i: usize = 0;
        while i < n
            invariant
                self.inv(),
                n == self.mem.mem@.len(),
                i <= n,
                c == self.count_free_upto(i as int),
                c <= i,
            decreases n - i,
        {
            let e = self.mem.get_fte(i);
            if !e.mapped && !e.protected {
                c = c + 1;
            }
            i = i + 1;
        }
        c
    }

    /// The lifecycle state of a process; a pid out of range reads as
    /// UNINITIALIZED.
    pub fn process_state(&self, pid: u32) -> (st: ProcessState)
        requires
            self.inv(),
        ensures
            pid < MAX_PID ==> st == self.procs@[pid as int].state,
            pid >= MAX_PID ==> st == ProcessState::UNINITIALIZED,
    {
        if pid >= MAX_PID {
            ProcessState::UNINITIALIZED
        } else {
            self.procs[pid as usize].state
        }
    }

    /// Read a process's page table entry; None unless the process is RUNNING
    /// and the page number in range.
    pub fn pte_lookup(&self, pid: u32, vpn: u16) -> (r: Option<PageTableEntry>)
        requires
            self.inv(),
        ensures
            ((pid as int) < MAX_PID && self.running(pid as int) && (vpn as int) < NUM_PAGES) ==> r
                == Some(self.pte(pid as int, vpn as int)),
            !((pid as int) < MAX_PID && self.running(pid as int) && (vpn as int) < NUM_PAGES) ==> r
                is None,
    {
        if pid >= MAX_PID || vpn >= 1024 {
            return None;
        }
        let p = self.procs[pid as usize];
        if !matches!(p.state, ProcessState::RUNNING) {
            return None;
        }
        proof {
            assert(self.running(pid as int));
        }
        Some(self.mem.get_pte(p.saved_ptbr as usize, vpn as usize))
    }

    /// Read a frame table entry; None for a frame number out of range.
    pub fn fte_lookup(&self, pfn: u16) -> (r: Option<FrameTableEntry>)
        requires
            self.inv(),
        ensures
            (pfn as int) < self.mem.n() ==> r == Some(self.mem.ft()[pfn as int]),
            (pfn as int) >= self.mem.n() ==> r is None,
    {
        if (pfn as usize) < self.mem.mem.len() {
            Some(self.mem.get_fte(pfn as usize))
        } else {
            None
        }
    }

    /// The physical address a hit on `(pid, vaddr)` translates to.
    pub open spec fn hit_paddr(self, p: int, vaddr: int) -> int {
        (self.pte(p, vaddr / (PAGE_SIZE as int)).pfn as int) * (PAGE_SIZE as int) + vaddr % (
        PAGE_SIZE as int)
    }
}

/// Frame 0 always holds the frame table and is always protected: every
/// state satisfying the session invariant — which construction establishes
/// and every operation of the core preserves — keeps the frame table
/// resident and unevictable in frame 0.
pub proof fn lemma_frame_table_resident(s: Simulation)
    requires
        s.inv(),
    ensures
        s.mem.mem@[0] is FrameTable,
        s.mem.ft()[0].protected,
        !s.mem.ft()[0].mapped,
{
}

/// Repeated translations return the same physical address: as long as a
/// page's table entry keeps its frame (no eviction of that page occurred —
/// and a read hit leaves every entry unchanged, per `translate`'s
/// contract), the translated address is the same on every call.
pub proof fn lemma_translate_repeatable(s1: Simulation, s2: Simulation, p: int, vaddr: int)
    requires
        s1.pte(p, vaddr / (PAGE_SIZE as int)).pfn == s2.pte(p, vaddr / (PAGE_SIZE as int)).pfn,
    ensures
        s1.hit_paddr(p, vaddr) == s2.hit_paddr(p, vaddr),
{
}

} // verus!
