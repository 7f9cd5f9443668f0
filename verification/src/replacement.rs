//! The replacement engine: selects an eviction victim among unprotected,
//! mapped frames, per the configured policy, and keeps the per-policy
//! bookkeeping (allocation queue, reference bits, timestamps, RNG state).

use vstd::prelude::*;

use crate::defs::{Memory, Replacement, PFN};

verus! {

/// Position `k` steps after `h` on a circular sweep over `n` frames.
pub open spec fn wrap_pos(h: int, k: int, n: int) -> int {
    if h + k >= n {
        h + k - n
    } else {
        h + k
    }
}

/// The linear-congruential step of the deterministic RNG.
pub open spec fn lcg_next(s: u64) -> u64 {
    (((s as int) * 6364136223846793005 + 1442695040888963407) % 0x10000000000000000) as u64
}

impl Memory {
    /// The victim FIFO selects: the head of the allocation queue.
    pub open spec fn fifo_victim(self) -> Option<PFN> {
        if self.fifo_queue@.len() == 0 {
            None
        } else {
            Some(self.fifo_queue@[0])
        }
    }

    /// Frame `v` carries the least timestamp among eligible frames, ties
    /// broken by the lowest frame number: the frame LRU evicts.
    pub open spec fn lru_min(self, v: int) -> bool {
        &&& self.eligible(v)
        &&& forall|j: int|
            #[trigger] self.eligible(j) ==> (self.stamps@[v] < self.stamps@[j] || (self.stamps@[v]
                == self.stamps@[j] && v <= j))
    }

    /// How many of the frames below `i` are eligible for eviction.
    pub open spec fn count_eligible_upto(self, i: int) -> int
        decreases i,
    {
        if i <= 0 {
            0
        } else {
            self.count_eligible_upto(i - 1) + if self.eligible(i - 1) {
                1int
            } else {
                0int
            }
        }
    }

    /// Whether frame `i` may be chosen as an eviction victim.
    pub fn eligible_frame(&self, i: usize) -> (b: bool)
        requires
            self.inv(),
            i < self.mem@.len(),
        ensures
            b == self.eligible(i as int),
    {
        let e = self.get_fte(i);
        e.mapped && !e.protected
    }

    /// Record a translator hit on frame `pfn` for the policies that need it:
    /// LRU stamps the frame with the current logical time, CLOCKSWEEP sets
    /// its reference bit; RANDOM and FIFO ignore accesses.
    pub fn notify_access(&mut self, pfn: PFN)
        requires
            old(self).inv(),
            (pfn as int) < old(self).n(),
        ensures
            final(self).inv(),
            final(self).mem@ == old(self).mem@,
            final(self).fifo_queue@ == old(self).fifo_queue@,
            final(self).replacement == old(self).replacement,
            final(self).rng_state == old(self).rng_state,
            final(self).clock_hand == old(self).clock_hand,
            old(self).replacement == Replacement::LRU ==> {
                &&& final(self).stamps@ == old(self).stamps@.update(pfn as int, old(self).time)
                &&& final(self).ref_bits@ == old(self).ref_bits@
                &&& final(self).time >= old(self).time
                &&& old(self).time < 18446744073709551615u64 ==> final(self).time == old(self).time
                    + 1
            },
            old(self).replacement == Replacement::CLOCKSWEEP ==> {
                &&& final(self).ref_bits@ == old(self).ref_bits@.update(pfn as int, true)
                &&& final(self).stamps@ == old(self).stamps@
                &&& final(self).time == old(self).time
            },
            (old(self).replacement == Replacement::RANDOM || old(self).replacement
                == Replacement::FIFO) ==> {
                &&& final(self).stamps@ == old(self).stamps@
                &&& final(self).ref_bits@ == old(self).ref_bits@
                &&& final(self).time == old(self).time
            },
    {
        match self.replacement {
            Replacement::LRU => {
                let now = self.time;
                self.stamps.set(pfn as usize, now);
                if self.time < 18446744073709551615u64 {
                    self.time = self.time + 1;
                }
            }
            Replacement::CLOCKSWEEP => {
                self.ref_bits.set(pfn as usize, true);
            }
            _ => {}
        }
    }

    /// Push a newly allocated frame at the tail of the allocation queue.
    pub fn fifo_push(&mut self, f: PFN)
        ensures
            final(self).fifo_queue@ == old(self).fifo_queue@.push(f),
            final(self).mem@ == old(self).mem@,
            final(self).replacement == old(self).replacement,
            final(self).ref_bits@ == old(self).ref_bits@,
            final(self).stamps@ == old(self).stamps@,
            final(self).clock_hand == old(self).clock_hand,
            final(self).time == old(self).time,
            final(self).rng_state == old(self).rng_state,
    {
        self.fifo_queue.push(f);
    }

    /// Drop the first occurrence of `f` from the allocation queue, if any.
    pub fn fifo_remove(&mut self, f: PFN)
        ensures
            final(self).mem@ == old(self).mem@,
            final(self).replacement == old(self).replacement,
            final(self).ref_bits@ == old(self).ref_bits@,
            final(self).stamps@ == old(self).stamps@,
            final(self).clock_hand == old(self).clock_hand,
            final(self).time == old(self).time,
            final(self).rng_state == old(self).rng_state,
            old(self).fifo_queue@.contains(f) ==> exists|k: int|
                {
                    &&& 0 <= k < old(self).fifo_queue@.len()
                    &&& old(self).fifo_queue@[k] == f
                    &&& (forall|j: int| 0 <= j < k ==> old(self).fifo_queue@[j] != f)
                    &&& final(self).fifo_queue@ == old(self).fifo_queue@.remove(k)
                },
            !old(self).fifo_queue@.contains(f) ==> final(self).fifo_queue@ == old(
                self,
            ).fifo_queue@,
    {
        let mut i: usize = 0;
        while i < self.fifo_queue.len()
            invariant
                *self == *old(self),
                i <= self.fifo_queue@.len(),
                forall|j: int| 0 <= j < i ==> self.fifo_queue@[j] != f,
            decreases self.fifo_queue@.len() - i,
        {
            if self.fifo_queue[i] == f {
                self.fifo_queue.remove(i);
                return ;
            }
            i = i + 1;
        }
    }

    /// Advance the deterministic RNG and return its new state.
    pub fn next_rand(&mut self) -> (x: u64)
        ensures
            final(self).rng_state == lcg_next(old(self).rng_state),
            x == final(self).rng_state,
            final(self).mem@ == old(self).mem@,
            final(self).fifo_queue@ == old(self).fifo_queue@,
            final(self).replacement == old(self).replacement,
            final(self).ref_bits@ == old(self).ref_bits@,
            final(self).stamps@ == old(self).stamps@,
            final(self).clock_hand == old(self).clock_hand,
            final(self).time == old(self).time,
    {
        let s = self.rng_state;
        proof {
            assert((s as u128) * 6364136223846793005u128 + 1442695040888963407u128
                < 0xffffffffffffffffffffffffffffffffu128) by (nonlinear_arith);
        }
        let wide: u128 = (s as u128) * 6364136223846793005u128 + 1442695040888963407u128;
        let x: u64 = (wide % 0x10000000000000000u128) as u64;
        self.rng_state = x;
        x
    }

    /// FIFO victim: the head of the allocation queue (its entries are all
    /// eligible, because the queue holds exactly the mapped frames and no
    /// mapped frame is protected).
    fn select_fifo(&self) -> (r: Option<PFN>)
        requires
            self.inv(),
        ensures
            r == self.fifo_victim(),
            r matches Some(v) ==> self.eligible(v as int),
            (r is None) <==> (forall|j: int| !self.eligible(j)),
    {
        if self.fifo_queue.len() == 0 {
            proof {
                assert forall|j: int| !self.eligible(j) by {
                    if self.eligible(j) {
                        assert(self.fifo_queue@.contains(j as PFN));
                        assert(false);
                    }
                }
            }
            None
        } else {
            let v = self.fifo_queue[0];
            proof {
                assert(self.fifo_queue@.contains(v));
                assert(self.ft()[v as int].mapped);
                assert(self.eligible(v as int));
            }
            Some(v)
        }
    }

    /// LRU victim: the eligible frame with the least timestamp, ties broken
    /// by the lowest frame number.
    fn select_lru(&self) -> (r: Option<PFN>)
        requires
            self.inv(),
        ensures
            r matches Some(v) ==> self.lru_min(v as int),
            (r is None) <==> (forall|j: int| !self.eligible(j)),
    {
        let n = self.mem.len();
        let mut best: Option<PFN> = None;
        let mut i: usize = 0;
        while i < n
            invariant
                self.inv(),
                n == self.mem@.len(),
                i <= n,
                best is None ==> forall|j: int| 0 <= j < i ==> !self.eligible(j),
                best matches Some(b) ==> {
                    &&& self.eligible(b as int)
                    &&& (b as int) < i
                    &&& forall|j: int|
                        0 <= j < i && #[trigger] self.eligible(j) ==> (self.stamps@[b as int]
                            < self.stamps@[j] || (self.stamps@[b as int] == self.stamps@[j] && (
                        b as int) <= j))
                },
            decreases n - i,
        {
            if self.eligible_frame(i) {
                match best {
                    None => {
                        best = Some(i as u16);
                    }
                    Some(b) => {
                        if self.stamps[i] < self.stamps[b as usize] {
                            best = Some(i as u16);
                        }
                    }
                }
            }
            i = i + 1;
        }
        best
    }

    /// CLOCKSWEEP victim.  Starting at the hand, an eligible frame with its
    /// reference bit set gets the bit cleared and is passed over; the first
    /// eligible frame found with a clear bit is selected.  Two sweeps always
    /// suffice: after one full sweep every eligible frame's bit is clear.
    fn select_clock(&mut self) -> (r: Option<PFN>)
        requires
            old(self).inv(),
        ensures
            final(self).inv(),
            final(self).mem@ == old(self).mem@,
            final(self).fifo_queue@ == old(self).fifo_queue@,
            final(self).stamps@ == old(self).stamps@,
            final(self).time == old(self).time,
            final(self).replacement == old(self).replacement,
            final(self).rng_state == old(self).rng_state,
            final(self).ref_bits@.len() == old(self).ref_bits@.len(),
            forall|i: int|
                0 <= i < old(self).ref_bits@.len() && final(self).ref_bits@[i] ==> old(
                    self,
                ).ref_bits@[i],
            r matches Some(v) ==> old(self).eligible(v as int),
            (r is None) <==> (forall|j: int| !old(self).eligible(j)),
            r is None ==> *final(self) == *old(self),
            r matches Some(v) ==> ((exists|j: int|
                old(self).eligible(j) && !old(self).ref_bits@[j]) ==> !old(self).ref_bits@[
                v as int]),
    {
        let n = self.mem.len();
        let mut any = false;
        let mut i: usize = 0;
        while i < n
            invariant
                old(self).inv(),
                self.inv(),
                *self == *old(self),
                n == self.mem@.len(),
                i <= n,
                any <==> exists|j: int| 0 <= j < i && old(self).eligible(j),
            decreases n - i,
        {
            if self.eligible_frame(i) {
                any = true;
            }
            i = i + 1;
        }
        if !any {
            return None;
        }
        let hand0 = self.clock_hand;
        // First sweep: clear set bits, stop at the first eligible clear one.
        let mut k: usize = 0;
        while k < n
            invariant
                old(self).inv(),
                self.inv(),
                self.mem@ == old(self).mem@,
                self.fifo_queue@ == old(self).fifo_queue@,
                self.stamps@ == old(self).stamps@,
                self.time == old(self).time,
                self.replacement == old(self).replacement,
                self.rng_state == old(self).rng_state,
                self.clock_hand == old(self).clock_hand,
                self.ref_bits@.len() == n,
                n == self.mem@.len(),
                hand0 == old(self).clock_hand,
                hand0 < n,
                k <= n,
                exists|j: int| old(self).eligible(j),
                forall|i2: int| 0 <= i2 < n && self.ref_bits@[i2] ==> old(self).ref_bits@[i2],
                // every eligible frame already visited had its bit set, and it is now clear
                forall|kk: int|
                    0 <= kk < k && old(self).eligible(
                        wrap_pos(hand0 as int, kk, n as int),
                    ) ==> (old(self).ref_bits@[wrap_pos(hand0 as int, kk, n as int)]
                        && !self.ref_bits@[wrap_pos(hand0 as int, kk, n as int)]),
                // bits at not-yet-visited positions are untouched
                forall|kk: int|
                    k <= kk < n ==> self.ref_bits@[wrap_pos(hand0 as int, kk, n as int)] == old(
                        self,
                    ).ref_bits@[wrap_pos(hand0 as int, kk, n as int)],
            decreases n - k,
        {
            let pos = if hand0 + k >= n {
                hand0 + k - n
            } else {
                hand0 + k
            };
            proof {
                assert(pos as int == wrap_pos(hand0 as int, k as int, n as int));
            }
            if self.eligible_frame(pos) {
                if self.ref_bits[pos] {
                    self.ref_bits.set(pos, false);
                } else {
                    self.clock_hand = if pos + 1 >= n {
                        0
                    } else {
                        pos + 1
                    };
                    proof {
                        // `pos` has not been visited yet, so its bit is as at
                        // entry: clear.
                        assert(self.ref_bits@[wrap_pos(hand0 as int, k as int, n as int)] == old(
                            self,
                        ).ref_bits@[wrap_pos(hand0 as int, k as int, n as int)]);
                        assert(!old(self).ref_bits@[pos as int]);
                    }
                    return Some(pos as u16);
                }
            }
            k = k + 1;
        }
        proof {
            // after a full sweep every eligible frame had its bit set at
            // entry (else it would have been selected), and it is clear now
            assert forall|p: int| old(self).eligible(p) implies (old(self).ref_bits@[p]
                && !self.ref_bits@[p]) by {
                let kk = if p >= hand0 as int {
                    p - hand0 as int
                } else {
                    p + n as int - hand0 as int
                };
                assert(0 <= kk < n as int);
                assert(wrap_pos(hand0 as int, kk, n as int) == p);
                assert(old(self).eligible(wrap_pos(hand0 as int, kk, n as int)));
            }
        }
        // Second sweep: every eligible frame now has a clear bit; take the
        // first one the hand reaches.
        let mut k: usize = 0;
        while k < n
            invariant
                old(self).inv(),
                self.inv(),
                self.mem@ == old(self).mem@,
                self.fifo_queue@ == old(self).fifo_queue@,
                self.stamps@ == old(self).stamps@,
                self.time == old(self).time,
                self.replacement == old(self).replacement,
                self.rng_state == old(self).rng_state,
                self.clock_hand == old(self).clock_hand,
                self.ref_bits@.len() == n,
                n == self.mem@.len(),
                hand0 == old(self).clock_hand,
                hand0 < n,
                k <= n,
                exists|j: int| old(self).eligible(j),
                forall|i2: int| 0 <= i2 < n && self.ref_bits@[i2] ==> old(self).ref_bits@[i2],
                forall|p: int| old(self).eligible(p) ==> old(self).ref_bits@[p],
                forall|kk: int|
                    0 <= kk < k ==> !old(self).eligible(wrap_pos(hand0 as int, kk, n as int)),
            decreases n - k,
        {
            let pos = if hand0 + k >= n {
                hand0 + k - n
            } else {
                hand0 + k
            };
            proof {
                assert(pos as int == wrap_pos(hand0 as int, k as int, n as int));
            }
            if self.eligible_frame(pos) {
                // no eligible frame had a clear bit at entry, so the
                // second-chance clause holds vacuously here
                self.clock_hand = if pos + 1 >= n {
                    0
                } else {
                    pos + 1
                };
                return Some(pos as u16);
            }
            k = k + 1;
        }
        proof {
            let j2 = choose|j: int| old(self).eligible(j);
            let kk = if j2 >= hand0 as int {
                j2 - hand0 as int
            } else {
                j2 + n as int - hand0 as int
            };
            assert(wrap_pos(hand0 as int, kk, n as int) == j2);
            assert(false);
        }
        None
    }

    /// RANDOM victim: the `x`-th eligible frame for a uniformly drawn `x`.
    fn select_random(&mut self) -> (r: Option<PFN>)
        requires
            old(self).inv(),
        ensures
            final(self).inv(),
            final(self).mem@ == old(self).mem@,
            final(self).fifo_queue@ == old(self).fifo_queue@,
            final(self).stamps@ == old(self).stamps@,
            final(self).ref_bits@ == old(self).ref_bits@,
            final(self).clock_hand == old(self).clock_hand,
            final(self).time == old(self).time,
            final(self).replacement == old(self).replacement,
            r matches Some(v) ==> old(self).eligible(v as int),
            (r is None) <==> (forall|j: int| !old(self).eligible(j)),
            r is None ==> *final(self) == *old(self),
    {
        let n = self.mem.len();
        let mut count: usize = 0;
        let mut i: usize = 0;
        while i < n
            invariant
                old(self).inv(),
                self.inv(),
                *self == *old(self),
                n == self.mem@.len(),
                i <= n,
                count == old(self).count_eligible_upto(i as int),
                count <= i,
            decreases n - i,
        {
            if self.eligible_frame(i) {
                count = count + 1;
            }
            i = i + 1;
        }
        if count == 0 {
            proof {
                lemma_count_eligible_none(*old(self), n as int);
            }
            return None;
        }
        let x = self.next_rand();
        let target: usize = (x % (count as u64)) as usize;
        let mut seen: usize = 0;
        let mut i: usize = 0;
        while i < n
            invariant
                old(self).inv(),
                self.inv(),
                self.mem@ == old(self).mem@,
                self.fifo_queue@ == old(self).fifo_queue@,
                self.stamps@ == old(self).stamps@,
                self.ref_bits@ == old(self).ref_bits@,
                self.clock_hand == old(self).clock_hand,
                self.time == old(self).time,
                self.replacement == old(self).replacement,
                n == self.mem@.len(),
                i <= n,
                seen == old(self).count_eligible_upto(i as int),
                seen <= target,
                target < count,
                count == old(self).count_eligible_upto(n as int),
            decreases n - i,
        {
            if self.eligible_frame(i) {
                proof {
                    assert(self.eligible(i as int) == old(self).eligible(i as int));
                }
                if seen == target {
                    return Some(i as u16);
                }
                seen = seen + 1;
            }
            i = i + 1;
        }
        proof {
            assert(false);
        }
        None
    }

    /// Select an eviction victim per the configured policy, among frames with
    /// `mapped` set and `protected` clear.  Returns None exactly when no such
    /// frame exists.  Policy guarantees: FIFO takes the head of the
    /// allocation queue; LRU takes the least-recently-stamped eligible frame
    /// (lowest frame number on ties); CLOCKSWEEP never takes a frame whose
    /// reference bit is set while some eligible frame's bit is clear — an
    /// accessed frame survives until the sweep has cleared its bit and come
    /// around again.
    pub fn select_victim(&mut self) -> (r: Option<PFN>)
        requires
            old(self).inv(),
        ensures
            final(self).inv(),
            final(self).mem@ == old(self).mem@,
            final(self).fifo_queue@ == old(self).fifo_queue@,
            final(self).stamps@ == old(self).stamps@,
            final(self).time == old(self).time,
            final(self).replacement == old(self).replacement,
            final(self).ref_bits@.len() == old(self).ref_bits@.len(),
            forall|i: int|
                0 <= i < old(self).ref_bits@.len() && final(self).ref_bits@[i] ==> old(
                    self,
                ).ref_bits@[i],
            old(self).replacement != Replacement::CLOCKSWEEP ==> final(self).ref_bits@ == old(
                self,
            ).ref_bits@ && final(self).clock_hand == old(self).clock_hand,
            old(self).replacement != Replacement::RANDOM ==> final(self).rng_state == old(
                self,
            ).rng_state,
            r matches Some(v) ==> old(self).eligible(v as int),
            (r is None) <==> (forall|j: int| !old(self).eligible(j)),
            r is None ==> *final(self) == *old(self),
            old(self).replacement == Replacement::FIFO ==> r == old(self).fifo_victim(),
            old(self).replacement == Replacement::LRU ==> (r matches Some(v) ==> old(self).lru_min(
                v as int,
            )),
            old(self).replacement == Replacement::CLOCKSWEEP ==> (r matches Some(v) ==> ((exists|j: int| old(self).eligible(j) && !old(self).ref_bits@[j]) ==> !old(self).ref_bits@[v as int])),
    {
        match self.replacement {
            Replacement::RANDOM => self.select_random(),
            Replacement::FIFO => self.select_fifo(),
            Replacement::CLOCKSWEEP => self.select_clock(),
            Replacement::LRU => self.select_lru(),
        }
    }
}

/// If no frame below `i` is eligible by the count, none is eligible.
proof fn lemma_count_eligible_none(m: Memory, i: int)
    requires
        m.count_eligible_upto(i) == 0,
    ensures
        forall|j: int| 0 <= j < i ==> !m.eligible(j),
    decreases i,
{
    if i > 0 {
        lemma_count_eligible_pos(m, i - 1);
        assert(!m.eligible(i - 1));
        lemma_count_eligible_none(m, i - 1);
    }
}

/// The running count never goes negative.
proof fn lemma_count_eligible_pos(m: Memory, i: int)
    ensures
        m.count_eligible_upto(i) >= 0,
    decreases i,
{
    if i > 0 {
        lemma_count_eligible_pos(m, i - 1);
    }
}

/// FIFO evicts in strict allocation order: with the queue holding `f1`
/// before `f2`, the next victim is `f1`, and once `f1` has been evicted
/// (leaving the queue's tail) the victim after it is `f2`.
pub proof fn lemma_fifo_strict_order(m1: Memory, m2: Memory)
    requires
        m1.replacement == Replacement::FIFO,
        m2.replacement == Replacement::FIFO,
        m1.fifo_queue@.len() >= 2,
        m2.fifo_queue@ == m1.fifo_queue@.remove(0),
    ensures
        m1.fifo_victim() == Some(m1.fifo_queue@[0]),
        m2.fifo_victim() == Some(m1.fifo_queue@[1]),
{
}

/// LRU: with three distinct eligible frames `a`, `b`, `c` stamped so that
/// `b` is least recent and `a` most recent (the access order b, c, a — or
/// a, b, c, a), the next eviction takes `b`, and once `b` is gone the
/// following one takes `c` — never `a`.
pub proof fn lemma_lru_order(m1: Memory, m2: Memory, a: int, b: int, c: int)
    requires
        m1.eligible(a),
        m1.eligible(b),
        m1.eligible(c),
        a != b,
        b != c,
        a != c,
        forall|j: int| #[trigger] m1.eligible(j) ==> j == a || j == b || j == c,
        m1.stamps@[b] < m1.stamps@[c],
        m1.stamps@[c] < m1.stamps@[a],
        m2.stamps@ == m1.stamps@,
        m2.eligible(a),
        m2.eligible(c),
        !m2.eligible(b),
        forall|j: int| #[trigger] m2.eligible(j) ==> j == a || j == c,
    ensures
        m1.lru_min(b),
        forall|v: int| #[trigger] m1.lru_min(v) ==> v == b,
        m2.lru_min(c),
        forall|v: int| #[trigger] m2.lru_min(v) ==> v == c,
{
    assert forall|v: int| #[trigger] m1.lru_min(v) implies v == b by {
        assert(m1.eligible(b));
    }
    assert forall|v: int| #[trigger] m2.lru_min(v) implies v == c by {
        assert(m2.eligible(c));
    }
}

} // verus!
