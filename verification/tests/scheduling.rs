use riscv_kernel::page_allocator::{PageAllocator, PAGE_SIZE};
use riscv_kernel::process::{Process, STACK_PAGES};
use riscv_kernel::scheduler::{init_sanity_check, Scheduler};

const REGION_BASE: usize = 0x8000_0000;

const INIT_PC: usize = 0x8000_1000;
const PROC1_PC: usize = 0x8000_2000;
const PROC2_PC: usize = 0x8000_3000;

fn fresh(pages: usize) -> PageAllocator {
    PageAllocator::init_allocator(REGION_BASE, pages * PAGE_SIZE)
}

#[test]
fn round_robin_visits_all_three_in_order_with_period_three() {
    let mut allocator = fresh(64);
    let mut scheduler =
        Scheduler::new_scheduler(INIT_PC, PROC1_PC, PROC2_PC, &mut allocator).unwrap();
    // Two full rounds: the workers first, then the initial context,
    // repeating in exactly that cycle.
    assert_eq!(scheduler.next().get_pc(), PROC1_PC);
    assert_eq!(scheduler.next().get_pc(), PROC2_PC);
    assert_eq!(scheduler.next().get_pc(), INIT_PC);
    assert_eq!(scheduler.next().get_pc(), PROC1_PC);
    assert_eq!(scheduler.next().get_pc(), PROC2_PC);
    assert_eq!(scheduler.next().get_pc(), INIT_PC);
    assert_eq!(scheduler.next().get_pc(), PROC1_PC);
}

#[test]
fn chosen_context_carries_its_frame() {
    let mut allocator = fresh(64);
    let mut scheduler =
        Scheduler::new_scheduler(INIT_PC, PROC1_PC, PROC2_PC, &mut allocator).unwrap();
    let chosen = scheduler.next();
    assert_eq!(chosen.get_pc(), PROC1_PC);
    let frame = chosen.get_frame();
    // The saved stack pointer sits at the top of the private stack;
    // every other register starts zeroed.
    assert_eq!(frame.registers[1], chosen.get_stack() + STACK_PAGES * PAGE_SIZE);
    for (slot, value) in frame.registers.iter().enumerate() {
        if slot != 1 {
            assert_eq!(*value, 0);
        }
    }
}

#[test]
fn new_processes_get_disjoint_stacks() {
    let mut allocator = fresh(64);
    let a = Process::new_process(PROC1_PC, &mut allocator).unwrap();
    let b = Process::new_process(PROC2_PC, &mut allocator).unwrap();
    assert_eq!(a.get_pc(), PROC1_PC);
    assert_eq!(b.get_pc(), PROC2_PC);
    assert_ne!(a.get_stack(), 0);
    // First fit hands out back-to-back runs: the second stack begins
    // exactly past the first.
    assert_eq!(b.get_stack(), a.get_stack() + STACK_PAGES * PAGE_SIZE);
}

#[test]
fn process_creation_fails_without_a_stack_sized_run() {
    let mut allocator = fresh(STACK_PAGES - 1);
    assert!(Process::new_process(PROC1_PC, &mut allocator).is_none());
}

#[test]
fn scheduler_creation_fails_when_a_stack_is_missing() {
    // Room for two stacks only, not three.
    let mut allocator = fresh(2 * STACK_PAGES + 5);
    assert!(Scheduler::new_scheduler(INIT_PC, PROC1_PC, PROC2_PC, &mut allocator).is_none());
}

#[test]
fn null_process_is_empty() {
    let p = Process::null_proc();
    assert_eq!(p.get_pc(), 0);
    assert_eq!(p.get_stack(), 0);
}

#[test]
fn scheduler_boot_check_is_trivial() {
    init_sanity_check();
}
