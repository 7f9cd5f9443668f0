//! The swap store: a backing-store abstraction mapping opaque single-use
//! handles to page-sized byte buffers, with optional corruption checking.

use vstd::prelude::*;

use crate::defs::{SwapEntry, VmError, Word, PAGE_SIZE};

verus! {

/// Sum of the bytes of a buffer; what the corruption check records and
/// verifies.  A page holds at most 16384 bytes, so the sum stays far below
/// any machine limit.
pub open spec fn checksum(s: Seq<Word>) -> int
    decreases s.len(),
{
    if s.len() == 0 {
        0
    } else {
        checksum(s.drop_last()) + s.last()
    }
}

proof fn lemma_checksum_bound(s: Seq<Word>)
    ensures
        0 <= checksum(s) <= 255 * s.len(),
    decreases s.len(),
{
    if s.len() > 0 {
        lemma_checksum_bound(s.drop_last());
    }
}

proof fn lemma_checksum_take_step(s: Seq<Word>, i: int)
    requires
        0 <= i < s.len(),
    ensures
        checksum(s.take(i + 1)) == checksum(s.take(i)) + s[i],
{
    assert(s.take(i + 1).drop_last() =~= s.take(i));
}

/// One saved page.  A consumed (swapped-in) handle leaves a dead slot behind.
pub struct SwapSlot {
    pub live: bool,
    pub bytes: Vec<Word>,
    pub sum: u64,
}

/// The in-memory backing store.  Handle `h` names slot `h - 1`; handle 0 is
/// never issued, so page table entries may use 0 for "no swap entry".
pub struct SwapStore {
    pub slots: Vec<SwapSlot>,
    pub check: bool,
}

impl SwapStore {
    /// The outstanding swapped-out pages, by handle.
    pub open spec fn contents(self) -> Map<SwapEntry, Seq<Word>> {
        Map::new(
            |h: SwapEntry| 1 <= h <= self.slots@.len() && self.slots@[h as int - 1].live,
            |h: SwapEntry| self.slots@[h as int - 1].bytes@,
        )
    }

    /// Every live slot holds a page-sized buffer and the checksum recorded
    /// for it.
    pub open spec fn wf(self) -> bool {
        forall|k: int|
            0 <= k < self.slots@.len() && (#[trigger] self.slots@[k]).live ==> {
                &&& self.slots@[k].bytes@.len() == PAGE_SIZE
                &&& self.slots@[k].sum as int == checksum(self.slots@[k].bytes@)
            }
    }

    pub fn new(check: bool) -> (s: SwapStore)
        ensures
            s.wf(),
            s.check == check,
            s.contents() == Map::<SwapEntry, Seq<Word>>::empty(),
    {
        let s = SwapStore { slots: Vec::new(), check: check };
        proof {
            assert(s.contents() =~= Map::<SwapEntry, Seq<Word>>::empty());
        }
        s
    }

    /// Save a page and return a fresh handle for it: one the store has never
    /// issued before and that names no outstanding page.
    pub fn swap_out(&mut self, bytes: Vec<Word>) -> (h: SwapEntry)
        requires
            old(self).wf(),
            bytes@.len() == PAGE_SIZE,
        ensures
            final(self).wf(),
            final(self).check == old(self).check,
            h != 0,
            !old(self).contents().contains_key(h),
            final(self).contents() == old(self).contents().insert(h, bytes@),
    {
        let sum = compute_checksum(&bytes);
        self.slots.push(SwapSlot { live: true, bytes: bytes, sum: sum });
        let h: u64 = self.slots.len() as u64;
        proof {
            assert(self.contents() =~= old(self).contents().insert(h, bytes@));
        }
        h
    }

    /// How many slots the store has ever issued; each swap-out adds exactly
    /// one, and nothing else does.
    pub fn slot_count(&self) -> (n: usize)
        ensures
            n == self.slots@.len(),
    {
        self.slots.len()
    }

    /// Retrieve and permanently invalidate a handle.  A handle that names an
    /// outstanding page yields exactly the bytes that were swapped out and is
    /// consumed; any other handle (never issued, or already consumed) reports
    /// `InvalidHandle` and leaves the store unchanged.  With an uncorrupted
    /// store the checksum verification never fails, so `SwapCorruption` is
    /// impossible by construction.
    pub fn swap_in(&mut self, h: SwapEntry) -> (r: Result<Vec<Word>, VmError>)
        requires
            old(self).wf(),
        ensures
            final(self).wf(),
            final(self).check == old(self).check,
            old(self).contents().contains_key(h) ==> {
                &&& r matches Ok(b) && b@ == old(self).contents()[h]
                &&& final(self).contents() == old(self).contents().remove(h)
            },
            !old(self).contents().contains_key(h) ==> {
                &&& r == Err::<Vec<Word>, VmError>(VmError::InvalidHandle)
                &&& final(self).contents() == old(self).contents()
            },
    {
        if h == 0 || h > self.slots.len() as u64 {
            return Err(VmError::InvalidHandle);
        }
        let idx: usize = (h - 1) as usize;
        let slot = self.slots.remove(idx);
        if !slot.live {
            self.slots.insert(idx, slot);
            proof {
                assert(self.slots@ =~= old(self).slots@);
            }
            return Err(VmError::InvalidHandle);
        }
        self.slots.insert(idx, SwapSlot { live: false, bytes: Vec::new(), sum: 0 });
        proof {
            assert(self.slots@ =~= old(self).slots@.update(idx as int, SwapSlot { live: false, bytes: self.slots@[idx as int].bytes, sum: 0 }));
            assert(self.contents() =~= old(self).contents().remove(h));
        }
        if self.check {
            let sum = compute_checksum(&slot.bytes);
            if sum != slot.sum {
                return Err(VmError::SwapCorruption);
            }
        }
        Ok(slot.bytes)
    }
}

/// Computes the checksum of a buffer.
pub fn compute_checksum(bytes: &Vec<Word>) -> (r: u64)
    requires
        bytes@.len() <= PAGE_SIZE,
    ensures
        r as int == checksum(bytes@),
{
    let mut acc: u64 = 0;
    let mut i: usize = 0;
    while i < bytes.len()
        invariant
            i <= bytes@.len(),
            bytes@.len() <= PAGE_SIZE,
            acc as int == checksum(bytes@.take(i as int)),
        decreases bytes@.len() - i,
    {
        proof {
            lemma_checksum_bound(bytes@.take(i as int));
            lemma_checksum_take_step(bytes@, i as int);
        }
        acc = acc + (bytes[i] as u64);
        i = i + 1;
    }
    proof {
        assert(bytes@.take(bytes@.len() as int) =~= bytes@);
    }
    acc
}

/// A page-sized buffer of zero bytes, for a first-touch fault.
pub fn zero_page() -> (v: Vec<Word>)
    ensures
        v@.len() == PAGE_SIZE,
        forall|i: int| 0 <= i < v@.len() ==> v@[i] == 0,
{
    let mut v: Vec<Word> = Vec::new();
    let mut i: usize = 0;
    while i < 16384
        invariant
            i <= 16384,
            v@.len() == i,
            forall|j: int| 0 <= j < i ==> v@[j] == 0,
        decreases 16384 - i,
    {
        v.push(0);
        i = i + 1;
    }
    v
}

/// Round trip: swapping a page out and then back in returns exactly the bytes
/// that were written, and the handle is single-use: after the swap-in it no
/// longer names any page, so a second swap-in with the same handle reports
/// `InvalidHandle` (the error case of `swap_in`'s contract).
pub proof fn lemma_swap_round_trip(
    before: SwapStore,
    after_out: SwapStore,
    after_in: SwapStore,
    b: Seq<Word>,
    h: SwapEntry,
)
    requires
        h != 0,
        !before.contents().contains_key(h),
        after_out.contents() == before.contents().insert(h, b),
        after_in.contents() == after_out.contents().remove(h),
    ensures
        after_out.contents().contains_key(h),
        after_out.contents()[h] == b,
        !after_in.contents().contains_key(h),
{
}

} // verus!
