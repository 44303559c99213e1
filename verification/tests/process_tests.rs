use lib::process::{
    ProcessTable, Process, State, Switch, FRAME_BYTES, KSTACK_SIZE, PROCS_MAX,
};

const STACK_BASE: usize = 0x8010_0000;
const STRIDE: usize = 0x2100;

fn top(i: usize) -> usize {
    STACK_BASE + i * STRIDE + KSTACK_SIZE
}

#[test]
fn unused_process() {
    let p = Process::unused();
    assert_eq!(p.pid, -1);
    assert_eq!(p.state, State::Unused);
    assert_eq!(p.sp, 0);
    assert_eq!(p.pt_root_phys, 0);
    assert!(p.stack.iter().all(|&b| b == 0));
}

#[test]
fn new_table_is_empty() {
    let t = ProcessTable::new(STACK_BASE, STRIDE);
    assert!(t.all_unused());
    assert_eq!(t.current_index(), None);
    assert_eq!(t.idle_index(), None);
    for i in 0..PROCS_MAX {
        assert_eq!(t.get(i).state, State::Unused);
    }
}

#[test]
fn alloc_pcb_takes_lowest_free_slot() {
    let mut t = ProcessTable::new(STACK_BASE, STRIDE);
    assert_eq!(t.alloc_pcb(), Some(0));
    assert_eq!(t.alloc_pcb(), Some(1));
    assert_eq!(t.get(0).pid, 1);
    assert_eq!(t.get(1).pid, 2);
    assert_eq!(t.get(1).state, State::Runnable);
    assert!(!t.all_unused());
}

#[test]
fn alloc_pcb_none_when_full() {
    let mut t = ProcessTable::new(STACK_BASE, STRIDE);
    for i in 0..PROCS_MAX {
        assert_eq!(t.alloc_pcb(), Some(i));
    }
    assert_eq!(t.alloc_pcb(), None);
}

#[test]
fn create_process_builds_initial_frame() {
    let mut t = ProcessTable::new(STACK_BASE, STRIDE);
    let slot = t.create_process(0x8020_1234);
    assert_eq!(slot, 0);
    let p = t.get(slot);
    assert_eq!(p.pid, 1);
    assert_eq!(p.state, State::Runnable);
    assert_eq!(p.sp, top(0) - FRAME_BYTES);
    let frame = &p.stack[KSTACK_SIZE - FRAME_BYTES..];
    assert_eq!(&frame[0..4], &[0x34, 0x12, 0x20, 0x80]);
    assert!(frame[4..].iter().all(|&b| b == 0));
    assert!(p.stack[..KSTACK_SIZE - FRAME_BYTES].iter().all(|&b| b == 0));
}

#[test]
fn create_process_truncates_entry_to_32_bits() {
    let mut t = ProcessTable::new(STACK_BASE, STRIDE);
    let slot = t.create_process(0x1_0000_00FFusize as usize);
    let p = t.get(slot);
    assert_eq!(&p.stack[KSTACK_SIZE - FRAME_BYTES..KSTACK_SIZE - FRAME_BYTES + 4], &[0xFF, 0, 0, 0]);
}

#[test]
fn pick_next_with_empty_table_is_idle() {
    let t = ProcessTable::new(STACK_BASE, STRIDE);
    assert_eq!(t.pick_next(None), None);
}

#[test]
fn pick_next_round_robin() {
    let mut t = ProcessTable::new(STACK_BASE, STRIDE);
    t.create_process(0x100);
    t.create_process(0x200);
    t.create_process(0x300);
    assert_eq!(t.pick_next(None), Some(0));
    assert_eq!(t.pick_next(Some(0)), Some(1));
    assert_eq!(t.pick_next(Some(1)), Some(2));
    assert_eq!(t.pick_next(Some(2)), Some(0));
    assert_eq!(t.pick_next(Some(7)), Some(0));
}

#[test]
fn init_and_boot_switches_to_first_process() {
    let mut t = ProcessTable::new(STACK_BASE, STRIDE);
    let sw = t.init_and_boot(0x8020_0000, 0x8020_0100);
    assert_eq!(t.idle_index(), Some(0));
    assert_eq!(t.get(0).pid, 0);
    assert_eq!(t.get(1).pid, 2);
    assert_eq!(t.get(2).pid, 3);
    assert_eq!(sw, Some(Switch { prev: Some(0), next: 1, kernel_stack_top: top(1) }));
    assert_eq!(t.current_index(), Some(1));
}

#[test]
fn yield_alternates_between_processes() {
    let mut t = ProcessTable::new(STACK_BASE, STRIDE);
    t.init_and_boot(0x8020_0000, 0x8020_0100);
    let sw = t.yield_now().unwrap();
    assert_eq!((sw.prev, sw.next, sw.kernel_stack_top), (Some(1), 2, top(2)));
    let sw = t.yield_now().unwrap();
    assert_eq!((sw.prev, sw.next), (Some(2), 1));
    let sw = t.yield_now().unwrap();
    assert_eq!((sw.prev, sw.next), (Some(1), 2));
}

#[test]
fn idle_is_never_picked_while_a_process_is_runnable() {
    let mut t = ProcessTable::new(STACK_BASE, STRIDE);
    t.init_and_boot(0x8020_0000, 0x8020_0100);
    for _ in 0..10 {
        let sw = t.yield_now().unwrap();
        assert_ne!(sw.next, 0);
    }
}

#[test]
fn yield_with_single_process_does_nothing() {
    let mut t = ProcessTable::new(STACK_BASE, STRIDE);
    let a = t.create_process(0x100);
    assert_eq!(t.yield_now(), Some(Switch { prev: None, next: a, kernel_stack_top: top(a) }));
    assert_eq!(t.yield_now(), None);
    assert_eq!(t.current_index(), Some(a));
}

#[test]
fn yield_to_idle_when_nothing_eligible() {
    let mut t = ProcessTable::new(STACK_BASE, STRIDE);
    // Only the idle process (pid 0) exists: boot needs three free slots, so fill all but three.
    for _ in 0..PROCS_MAX - 3 {
        t.alloc_pcb();
    }
    let sw = t.init_and_boot(0x10, 0x20);
    assert_eq!(t.idle_index(), Some(PROCS_MAX - 3));
    assert_eq!(sw.map(|s| s.next), Some(PROCS_MAX - 2));
}

#[test]
fn unused_count_tracks_allocation() {
    let mut t = ProcessTable::new(STACK_BASE, STRIDE);
    assert_eq!(t.unused_count(), PROCS_MAX);
    t.alloc_pcb();
    t.create_process(0x10);
    assert_eq!(t.unused_count(), PROCS_MAX - 2);
    t.init_and_boot(0x20, 0x30);
    assert_eq!(t.unused_count(), PROCS_MAX - 5);
}

#[test]
fn every_runnable_process_runs_within_procs_max_yields() {
    let mut t = ProcessTable::new(STACK_BASE, STRIDE);
    for k in 0..5 {
        t.create_process(0x100 * (k + 1));
    }
    let mut seen = [false; PROCS_MAX];
    for _ in 0..PROCS_MAX {
        t.yield_now();
        seen[t.current_index().unwrap()] = true;
    }
    assert_eq!(seen, [true, true, true, true, true, false, false, false]);
}

#[test]
fn new_table_stacks_are_zero() {
    let t = ProcessTable::new(STACK_BASE, STRIDE);
    for i in 0..PROCS_MAX {
        assert!(t.get(i).stack.iter().all(|&b| b == 0));
        assert_eq!(t.get(i).pid, -1);
    }
}
