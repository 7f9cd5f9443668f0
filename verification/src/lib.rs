//! A simulator for the virtual-memory subsystem of an operating system:
//! per-process address translation, physical-frame allocation, page
//! replacement under memory pressure, and a swap store backing evicted pages.
//!
//! The data model lives in `defs`: physical memory is self-hosting, with the
//! frame table in frame 0 and each process's page table in a dedicated,
//! protected frame.  The replacement engine (`replacement`) selects eviction
//! victims under the RANDOM, FIFO, CLOCKSWEEP or LRU discipline.  The swap
//! store (`swap`) maps single-use handles to page-sized buffers.  The paging
//! core (`paging`) ties them into one simulation session: the physical
//! memory manager, the page fault handler, the process table and the
//! address translator.

pub mod defs;
pub mod paging;
pub mod replacement;
pub mod swap;
