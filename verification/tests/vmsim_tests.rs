use vmsim::defs::{
    AccessKind, Frame, FrameTableEntry, Memory, PageTableEntry, Process, ProcessState, Replacement,
    VmError, MAX_PID, NUM_FRAMES, NUM_PAGES, PAGE_SIZE,
};
use vmsim::paging::{system_init, Simulation};
use vmsim::swap::{compute_checksum, SwapStore};

#[test]
fn test_system_init() -> Result<(), String> {
    let mut test_mem = Memory::new(Replacement::RANDOM);
    system_init(&mut test_mem);

    // Test that the first physical frame in memory is the frame table
    if let Frame::FrameTable(entries) = &test_mem.mem[0] {
        // Ensure the frame table is protected
        assert!(entries[0].protected)
    } else {
        return Err(String::from("First frame in memory is not the frame table!"));
    }
    Ok(())
}

#[test]
fn constructors_give_default_fields() {
    let p = Process::new(7, ProcessState::RUNNING);
    assert_eq!(p.pid, 7);
    assert_eq!(p.state, ProcessState::RUNNING);
    assert_eq!(p.saved_ptbr, 0);

    let d = Process::default();
    assert_eq!(d.pid, 0);
    assert_eq!(d.state, ProcessState::UNINITIALIZED);
    assert_eq!(d.saved_ptbr, 0);

    let e = PageTableEntry::new();
    assert!(!e.valid && !e.dirty);
    assert_eq!(e.pfn, 0);
    assert_eq!(e.swap_entry, 0);

    let f = FrameTableEntry::new();
    assert!(!f.protected && !f.mapped);
    assert!(f.process.is_none());
    assert_eq!(f.vpn, 0);
}

#[test]
fn memory_new_sizes() {
    let m = Memory::new(Replacement::LRU);
    assert_eq!(m.mem.len(), NUM_FRAMES as usize);
    assert_eq!(m.replacement, Replacement::LRU);
    assert_eq!(MAX_PID, 800);
    assert_eq!(NUM_PAGES, 1024);
    assert_eq!(PAGE_SIZE, 16384);
}

// Frame 0 holds the frame table, protected, across a whole run.
#[test]
fn frame_zero_always_protected_frame_table() {
    let mut sim = Simulation::new(Replacement::FIFO, 8, 1, false);
    for vpn in 0..6u32 {
        let _ = sim.translate(1, vpn * 16384, AccessKind::Write);
    }
    let _ = sim.terminate_process(1);
    let _ = sim.translate(2, 0, AccessKind::Read);
    assert!(matches!(sim.mem.mem[0], Frame::FrameTable(_)));
    let fte0 = sim.fte_lookup(0).unwrap();
    assert!(fte0.protected);
    assert!(!fte0.mapped);
}

// Repeated reads of the same address translate identically until eviction.
#[test]
fn repeated_translation_is_stable() {
    let mut sim = Simulation::new(Replacement::LRU, 16, 1, false);
    let a1 = sim.translate(3, 12345, AccessKind::Read).unwrap();
    let a2 = sim.translate(3, 12345, AccessKind::Read).unwrap();
    let a3 = sim.translate(3, 12345, AccessKind::Read).unwrap();
    assert_eq!(a1, a2);
    assert_eq!(a2, a3);
    assert_eq!(a1 % 16384, 12345 % 16384);
}

// With 64 frames: the frame table takes one, a new process's page table one
// more, and its first fault one data frame: 61 frames stay free.
#[test]
fn first_fault_leaves_sixty_one_frames() {
    let mut sim = Simulation::new(Replacement::RANDOM, 64, 9, false);
    let pa = sim.translate(1, 0, AccessKind::Read).unwrap();
    // frame 0 is the frame table, frame 1 the page table, frame 2 the data
    assert_eq!(pa, 2 * 16384);
    let e = sim.pte_lookup(1, 0).unwrap();
    assert!(e.valid);
    assert_eq!(sim.free_frame_count(), 61);
}

#[test]
fn fifo_evicts_in_allocation_order() {
    // 5 frames: frame table, page table, and 3 data frames.
    let mut sim = Simulation::new(Replacement::FIFO, 5, 1, false);
    for vpn in 0..3u32 {
        sim.translate(1, vpn * 16384, AccessKind::Read).unwrap();
    }
    // all three data frames full; the next two faults evict vpn 0 then vpn 1
    sim.translate(1, 3 * 16384, AccessKind::Read).unwrap();
    assert!(!sim.pte_lookup(1, 0).unwrap().valid);
    assert!(sim.pte_lookup(1, 1).unwrap().valid);
    assert!(sim.pte_lookup(1, 2).unwrap().valid);
    sim.translate(1, 4 * 16384, AccessKind::Read).unwrap();
    assert!(!sim.pte_lookup(1, 1).unwrap().valid);
    assert!(sim.pte_lookup(1, 2).unwrap().valid);
    assert!(sim.pte_lookup(1, 3).unwrap().valid);
}

#[test]
fn lru_evicts_least_recently_used() {
    let mut sim = Simulation::new(Replacement::LRU, 5, 1, false);
    // access order: A (vpn 0), B (vpn 1), C (vpn 2), A again
    for vpn in 0..3u32 {
        sim.translate(1, vpn * 16384, AccessKind::Read).unwrap();
    }
    sim.translate(1, 0, AccessKind::Read).unwrap();
    // next two evictions must take B then C, never A
    sim.translate(1, 3 * 16384, AccessKind::Read).unwrap();
    assert!(sim.pte_lookup(1, 0).unwrap().valid);
    assert!(!sim.pte_lookup(1, 1).unwrap().valid);
    assert!(sim.pte_lookup(1, 2).unwrap().valid);
    sim.translate(1, 4 * 16384, AccessKind::Read).unwrap();
    assert!(sim.pte_lookup(1, 0).unwrap().valid);
    assert!(!sim.pte_lookup(1, 2).unwrap().valid);
}

#[test]
fn clocksweep_accessed_frame_survives() {
    let mut sim = Simulation::new(Replacement::CLOCKSWEEP, 5, 1, false);
    for vpn in 0..3u32 {
        sim.translate(1, vpn * 16384, AccessKind::Read).unwrap();
    }
    // one sweep: every bit was set, so all get cleared and vpn 0 goes
    sim.translate(1, 3 * 16384, AccessKind::Read).unwrap();
    assert!(!sim.pte_lookup(1, 0).unwrap().valid);
    // touch vpn 1: its reference bit is set again
    sim.translate(1, 1 * 16384, AccessKind::Read).unwrap();
    // under pressure the frame with the clear bit (vpn 2's) goes, not vpn 1's
    sim.translate(1, 4 * 16384, AccessKind::Read).unwrap();
    assert!(sim.pte_lookup(1, 1).unwrap().valid);
    assert!(!sim.pte_lookup(1, 2).unwrap().valid);
}

#[test]
fn swap_round_trip_returns_same_bytes() {
    let mut store = SwapStore::new(true);
    let mut bytes = vec![0u8; PAGE_SIZE as usize];
    for (i, b) in bytes.iter_mut().enumerate() {
        *b = (i % 251) as u8;
    }
    let copy = bytes.clone();
    let h = store.swap_out(bytes);
    assert_ne!(h, 0);
    let back = store.swap_in(h).unwrap();
    assert_eq!(back, copy);
    // the handle is single-use
    assert_eq!(store.swap_in(h).unwrap_err(), VmError::InvalidHandle);
}

#[test]
fn swap_in_of_unknown_handle_fails() {
    let mut store = SwapStore::new(false);
    assert_eq!(store.swap_in(0).unwrap_err(), VmError::InvalidHandle);
    assert_eq!(store.swap_in(42).unwrap_err(), VmError::InvalidHandle);
}

#[test]
fn checksum_is_byte_sum() {
    assert_eq!(compute_checksum(&vec![]), 0);
    assert_eq!(compute_checksum(&vec![1, 2, 3]), 6);
    assert_eq!(compute_checksum(&vec![255, 255]), 510);
}

// A clean evicted page writes nothing to the swap store; a dirty one writes
// exactly one entry.
#[test]
fn clean_eviction_writes_nothing_dirty_writes_once() {
    // 4 frames: frame table, page table, 2 data frames.
    let mut sim = Simulation::new(Replacement::FIFO, 4, 1, false);
    sim.translate(1, 0, AccessKind::Write).unwrap(); // vpn 0, dirtied
    sim.translate(1, 16384, AccessKind::Read).unwrap(); // vpn 1, clean
    assert_eq!(sim.swap.slot_count(), 0);
    // evicts vpn 0 (dirty): exactly one swap entry appears
    sim.translate(1, 2 * 16384, AccessKind::Read).unwrap();
    assert_eq!(sim.swap.slot_count(), 1);
    let e0 = sim.pte_lookup(1, 0).unwrap();
    assert!(!e0.valid);
    assert_ne!(e0.swap_entry, 0);
    // evicts vpn 1 (clean): no new swap entry
    sim.translate(1, 3 * 16384, AccessKind::Read).unwrap();
    assert_eq!(sim.swap.slot_count(), 1);
    let e1 = sim.pte_lookup(1, 1).unwrap();
    assert!(!e1.valid);
    assert_eq!(e1.swap_entry, 0);
}

// A dirtied page comes back from the swap store with its contents.
#[test]
fn swapped_out_page_swaps_back_in() {
    let mut sim = Simulation::new(Replacement::FIFO, 4, 1, true);
    sim.translate(1, 100, AccessKind::Write).unwrap();
    sim.translate(1, 16384, AccessKind::Read).unwrap();
    sim.translate(1, 2 * 16384, AccessKind::Read).unwrap(); // evicts vpn 0, dirty
    assert!(!sim.pte_lookup(1, 0).unwrap().valid);
    // touching vpn 0 again faults it back in from the swap store
    let pa = sim.translate(1, 100, AccessKind::Read).unwrap();
    assert_eq!(pa % 16384, 100);
    let e0 = sim.pte_lookup(1, 0).unwrap();
    assert!(e0.valid);
    assert_eq!(e0.swap_entry, 0);
}

// OutOfMemory comes exactly when every frame is protected.
#[test]
fn out_of_memory_iff_all_frames_protected() {
    // 2 frames: the frame table and one page table leave nothing to evict.
    let mut sim = Simulation::new(Replacement::RANDOM, 2, 1, false);
    sim.translate(1, 0, AccessKind::Read).unwrap_err();
    assert_eq!(
        sim.translate(1, 0, AccessKind::Read).unwrap_err(),
        VmError::OutOfMemory
    );
    // a second process cannot even get a page table
    assert_eq!(sim.create_process(2).unwrap_err(), VmError::OutOfMemory);
    // with a third frame there is an unprotected frame and no error
    let mut sim3 = Simulation::new(Replacement::RANDOM, 3, 1, false);
    assert!(sim3.translate(1, 0, AccessKind::Read).is_ok());
}

// Shrunk pool: 1 frame table + 1 page table + 1 data frame under FIFO.
// Each further access evicts the earliest-allocated data frame, never the
// protected frames.
#[test]
fn three_frame_pool_evicts_only_the_data_frame() {
    let mut sim = Simulation::new(Replacement::FIFO, 3, 1, false);
    sim.translate(1, 0, AccessKind::Read).unwrap();
    assert_eq!(sim.free_frame_count(), 0);
    sim.translate(1, 16384, AccessKind::Read).unwrap();
    assert!(!sim.pte_lookup(1, 0).unwrap().valid);
    assert!(sim.pte_lookup(1, 1).unwrap().valid);
    sim.translate(1, 2 * 16384, AccessKind::Read).unwrap();
    assert!(!sim.pte_lookup(1, 1).unwrap().valid);
    assert!(sim.pte_lookup(1, 2).unwrap().valid);
    // the frame table and the page table were never touched
    assert!(sim.fte_lookup(0).unwrap().protected);
    assert!(matches!(sim.mem.mem[0], Frame::FrameTable(_)));
    assert!(sim.fte_lookup(1).unwrap().protected);
    assert!(matches!(sim.mem.mem[1], Frame::PageTable(_)));
}

#[test]
fn address_errors() {
    let mut sim = Simulation::new(Replacement::RANDOM, 8, 1, false);
    // pid out of range
    assert_eq!(
        sim.translate(MAX_PID, 0, AccessKind::Read).unwrap_err(),
        VmError::AddressError
    );
    // virtual address beyond 24 bits
    assert_eq!(
        sim.translate(1, 1 << 24, AccessKind::Read).unwrap_err(),
        VmError::AddressError
    );
    // largest valid address works
    assert!(sim.translate(1, (1 << 24) - 1, AccessKind::Read).is_ok());
}

#[test]
fn stopped_process_cannot_reference_memory() {
    let mut sim = Simulation::new(Replacement::LRU, 8, 1, false);
    sim.translate(5, 0, AccessKind::Read).unwrap();
    sim.terminate_process(5).unwrap();
    assert_eq!(sim.process_state(5), ProcessState::STOPPED);
    assert_eq!(
        sim.translate(5, 0, AccessKind::Read).unwrap_err(),
        VmError::InvalidProcessState
    );
    // terminating twice fails too
    assert_eq!(
        sim.terminate_process(5).unwrap_err(),
        VmError::InvalidProcessState
    );
    // terminating a never-created process fails
    assert_eq!(
        sim.terminate_process(6).unwrap_err(),
        VmError::InvalidProcessState
    );
}

#[test]
fn termination_frees_the_page_table_frame() {
    let mut sim = Simulation::new(Replacement::FIFO, 8, 1, false);
    sim.translate(1, 0, AccessKind::Read).unwrap();
    let free_before = sim.free_frame_count();
    sim.terminate_process(1).unwrap();
    // the page table frame is free again; the orphaned data frame is not
    assert_eq!(sim.free_frame_count(), free_before + 1);
    // and the orphaned data frame can be reclaimed by a new process
    sim.translate(2, 0, AccessKind::Read).unwrap();
    assert!(sim.pte_lookup(2, 0).unwrap().valid);
}

#[test]
fn free_frame_refuses_protected_and_live_frames() {
    let mut sim = Simulation::new(Replacement::FIFO, 8, 1, false);
    sim.translate(1, 0, AccessKind::Read).unwrap(); // data in frame 2
    assert_eq!(sim.free_frame(99).unwrap_err(), VmError::AddressError);
    // the frame table and the page table are protected
    assert_eq!(sim.free_frame(0).unwrap_err(), VmError::InvalidProcessState);
    assert_eq!(sim.free_frame(1).unwrap_err(), VmError::InvalidProcessState);
    // a frame a running process maps is refused too
    assert_eq!(sim.free_frame(2).unwrap_err(), VmError::InvalidProcessState);
    // once the owner stops, its orphaned data frame can be freed
    sim.terminate_process(1).unwrap();
    let before = sim.free_frame_count();
    sim.free_frame(2).unwrap();
    assert_eq!(sim.free_frame_count(), before + 1);
    // freeing an already free frame is harmless
    sim.free_frame(2).unwrap();
    assert_eq!(sim.free_frame_count(), before + 1);
}

#[test]
fn access_times_accumulate() {
    let mut sim = Simulation::new(Replacement::FIFO, 8, 1, false);
    sim.translate(1, 0, AccessKind::Read).unwrap();
    assert_eq!(sim.elapsed, 200); // first touch: no disk traffic
    sim.translate(1, 0, AccessKind::Read).unwrap();
    assert_eq!(sim.elapsed, 400); // hit
}

#[test]
fn translated_address_composes_pfn_and_offset() {
    let mut sim = Simulation::new(Replacement::FIFO, 8, 1, false);
    let pa = sim.translate(1, 5, AccessKind::Read).unwrap();
    // frame 0: frame table, frame 1: page table, frame 2: first data frame
    assert_eq!(pa, 2 * 16384 + 5);
    let pa2 = sim.translate(1, 16384 + 7, AccessKind::Read).unwrap();
    assert_eq!(pa2, 3 * 16384 + 7);
}

#[test]
fn write_sets_dirty_bit() {
    let mut sim = Simulation::new(Replacement::FIFO, 8, 1, false);
    sim.translate(1, 0, AccessKind::Read).unwrap();
    assert!(!sim.pte_lookup(1, 0).unwrap().dirty);
    sim.translate(1, 0, AccessKind::Write).unwrap();
    assert!(sim.pte_lookup(1, 0).unwrap().dirty);
    // a later read keeps it dirty
    sim.translate(1, 0, AccessKind::Read).unwrap();
    assert!(sim.pte_lookup(1, 0).unwrap().dirty);
}
