use riscv_kernel::kernel::KernelContext;
use riscv_kernel::page_allocator::{PageAllocator, PAGE_SIZE};
use riscv_kernel::paging::{MemoryLayout, PagingState};
use riscv_kernel::scheduler::Scheduler;
use riscv_kernel::trap::{echo_byte, m_trap, MCause, TrapContext, CONSOLE_DEVICE};
use riscv_kernel::KernelError;

const REGION_BASE: usize = 0x8000_0000;
const INIT_PC: usize = 0x8000_1000;
const PROC1_PC: usize = 0x8000_2000;
const PROC2_PC: usize = 0x8000_3000;

const INTERRUPT_BIT: u64 = 0x8000_0000_0000_0000;

fn booted_context() -> KernelContext {
    let mut allocator = PageAllocator::init_allocator(REGION_BASE, 128 * PAGE_SIZE);
    let layout = MemoryLayout {
        text_start: 0x8000_0000,
        text_end: 0x8000_2000,
        stack_start: 0x8000_4000,
        stack_end: 0x8000_5000,
        data_start: 0x8000_6000,
        data_end: 0x8000_6800,
        rodata_start: 0x8000_7000,
        rodata_end: 0x8000_7100,
        bss_start: 0x8000_8000,
        bss_end: 0x8000_9000,
        heap_start: 0x8000_a000,
        heap_end: 0x8000_b000,
        uart_base: 0x1000_0000,
    };
    let paging = PagingState::init(&mut allocator, &layout).unwrap();
    let scheduler = Scheduler::new_scheduler(INIT_PC, PROC1_PC, PROC2_PC, &mut allocator).unwrap();
    KernelContext {
        allocator,
        paging,
        scheduler,
    }
}

fn trap_with(cause: u64, return_pc: usize, tval: usize) -> TrapContext {
    TrapContext {
        return_pc,
        tval,
        cause,
        hart: 0,
    }
}

#[test]
fn cause_classification_matches_the_codes() {
    assert_eq!(MCause::new(0), MCause::InstrAddrMisaligned);
    assert_eq!(MCause::new(2), MCause::IllegalInstr);
    assert_eq!(MCause::new(8), MCause::EcallFromUMode);
    assert_eq!(MCause::new(9), MCause::EcallFromSMode);
    assert_eq!(MCause::new(11), MCause::EcallFromMMode);
    assert_eq!(MCause::new(12), MCause::InstrPageFault);
    assert_eq!(MCause::new(13), MCause::LoadPageFault);
    assert_eq!(MCause::new(15), MCause::StorePageFault);
    assert_eq!(MCause::new(16), MCause::UnknownException);
    assert_eq!(MCause::new(INTERRUPT_BIT | 7), MCause::MachineTimerInt);
    assert_eq!(MCause::new(INTERRUPT_BIT | 11), MCause::MachineExternalInt);
    assert_eq!(MCause::new(INTERRUPT_BIT | 2), MCause::UnknownInt);
}

#[test]
fn interrupts_and_exceptions_are_told_apart() {
    assert!(MCause::MachineTimerInt.is_interrupt());
    assert!(MCause::MachineExternalInt.is_interrupt());
    assert!(!MCause::EcallFromUMode.is_interrupt());
    assert!(!MCause::LoadPageFault.is_interrupt());
}

#[test]
fn cause_number_strips_the_interrupt_bit() {
    assert_eq!(MCause::cause_number(INTERRUPT_BIT | 7), 7);
    assert_eq!(MCause::cause_number(13), 13);
}

#[test]
fn system_call_resumes_at_the_next_instruction() {
    let mut ctx = booted_context();
    let outcome = m_trap(&mut ctx, &trap_with(8, 0x8000_0100, 0), None).unwrap();
    assert_eq!(outcome.return_pc, 0x8000_0104);
    assert!(!outcome.reprogram_timer);
    assert!(!outcome.echo_console);
    assert_eq!(outcome.acknowledge_device, None);
    assert_eq!(outcome.switch_to, None);
}

#[test]
fn page_fault_installs_a_mapping_and_retries() {
    let mut ctx = booted_context();
    let faulting_pc = 0x8000_0200;
    let tval = 0x9000_0123;
    assert_eq!(ctx.paging.virtual_to_physical(tval), None);
    let outcome = m_trap(&mut ctx, &trap_with(13, faulting_pc, tval), None).unwrap();
    // Resumes at the very same program counter, with the fault resolved.
    assert_eq!(outcome.return_pc, faulting_pc);
    assert_eq!(ctx.paging.virtual_to_physical(tval), Some(tval as u64));
}

#[test]
fn all_three_page_fault_kinds_resolve() {
    let mut ctx = booted_context();
    for (cause, tval) in [(12u64, 0xa000_0000usize), (13, 0xb000_0000), (15, 0xc000_0000)] {
        let outcome = m_trap(&mut ctx, &trap_with(cause, 0x8000_0300, tval), None).unwrap();
        assert_eq!(outcome.return_pc, 0x8000_0300);
        assert_eq!(ctx.paging.virtual_to_physical(tval), Some(tval as u64));
    }
}

#[test]
fn timer_interrupt_schedules_round_robin() {
    let mut ctx = booted_context();
    let timer = INTERRUPT_BIT | 7;
    let o1 = m_trap(&mut ctx, &trap_with(timer, 0x8000_0400, 0), None).unwrap();
    assert!(o1.reprogram_timer);
    assert_eq!(o1.return_pc, PROC1_PC);
    // The chosen context itself is handed out for the exit path to
    // restore and publish.
    let chosen = o1.switch_to.unwrap();
    assert_eq!(chosen.get_pc(), PROC1_PC);
    assert_ne!(chosen.get_frame().registers[1], 0);
    let o2 = m_trap(&mut ctx, &trap_with(timer, o1.return_pc, 0), None).unwrap();
    assert_eq!(o2.return_pc, PROC2_PC);
    let o3 = m_trap(&mut ctx, &trap_with(timer, o2.return_pc, 0), None).unwrap();
    assert_eq!(o3.return_pc, INIT_PC);
    let o4 = m_trap(&mut ctx, &trap_with(timer, o3.return_pc, 0), None).unwrap();
    assert_eq!(o4.return_pc, PROC1_PC);
}

#[test]
fn console_interrupt_echoes_and_acknowledges() {
    let mut ctx = booted_context();
    let external = INTERRUPT_BIT | 11;
    let outcome = m_trap(
        &mut ctx,
        &trap_with(external, 0x8000_0500, 0),
        Some(CONSOLE_DEVICE),
    )
    .unwrap();
    assert_eq!(outcome.return_pc, 0x8000_0500);
    assert!(outcome.echo_console);
    assert_eq!(outcome.acknowledge_device, Some(CONSOLE_DEVICE));
}

#[test]
fn unknown_device_interrupt_is_acknowledged_but_ignored() {
    let mut ctx = booted_context();
    let external = INTERRUPT_BIT | 11;
    let outcome = m_trap(&mut ctx, &trap_with(external, 0x8000_0500, 0), Some(5)).unwrap();
    assert!(!outcome.echo_console);
    assert_eq!(outcome.acknowledge_device, Some(5));
    let quiet = m_trap(&mut ctx, &trap_with(external, 0x8000_0500, 0), None).unwrap();
    assert!(!quiet.echo_console);
    assert_eq!(quiet.acknowledge_device, None);
}

#[test]
fn unknown_cause_is_fatal() {
    let mut ctx = booted_context();
    assert_eq!(
        m_trap(&mut ctx, &trap_with(2, 0x8000_0600, 0), None),
        Err(KernelError::UnknownCause)
    );
    assert_eq!(
        m_trap(&mut ctx, &trap_with(INTERRUPT_BIT | 2, 0x8000_0600, 0), None),
        Err(KernelError::UnknownCause)
    );
}

#[test]
fn console_bytes_echo_with_newline_folding() {
    assert_eq!(echo_byte(10), 10);
    assert_eq!(echo_byte(13), 10);
    assert_eq!(echo_byte(b'a'), b'a');
    assert_eq!(echo_byte(0), 0);
}
