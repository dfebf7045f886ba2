//! Trap classification and dispatch.
//!
//! Every exception and interrupt funnels through one dispatch step: the
//! raw cause register is classified into a closed enumeration, and each
//! recognized cause either resolves directly (a system call skips to the
//! next instruction, a page fault installs an identity mapping and
//! retries) or drives the scheduler (a timer tick picks the next
//! context). Causes outside the enumeration are fatal: the dispatcher
//! does not guess.

use crate::kernel::KernelContext;
use crate::process::Process;
use crate::page_allocator::count_free;
use crate::paging::{spec_leaf_entry, spec_mapped_address, spec_same_page, MAX_TABLES};
use crate::KernelError;
use vstd::prelude::*;

verus! {

/// The interrupt bit of the cause register: its top bit.
pub const MASK_INTERRUPT_BIT: u64 = 0x8000_0000_0000_0000;

/// The closed enumeration of trap causes this kernel recognizes.
#[derive(Clone, Copy, Eq, PartialEq, Structural, Debug)]
pub enum MCause {
    InstrAddrMisaligned,
    InstrAccessFault,
    IllegalInstr,
    Breakpoint,
    LoadAddrMisaligned,
    LoadAccessFault,
    StoreAddrMisaligned,
    StoreAccessFault,
    EcallFromUMode,
    EcallFromSMode,
    EcallFromMMode,
    InstrPageFault,
    LoadPageFault,
    StorePageFault,
    UnknownException,
    UserSoftInt,
    SupervisorSoftInt,
    MachineSoftInt,
    UserTimerInt,
    SupervisorTimerInt,
    MachineTimerInt,
    UserExternalInt,
    SupervisorExternalInt,
    MachineExternalInt,
    UnknownInt,
}

/// The classification of a raw cause register value: its top bit says
/// interrupt, the remaining bits select the cause.
pub open spec fn spec_cause_of(cause: u64) -> MCause {
    if cause >= 0x8000_0000_0000_0000 {
        let code = cause - 0x8000_0000_0000_0000;
        if code == 0 {
            MCause::UserSoftInt
        } else if code == 1 {
            MCause::SupervisorSoftInt
        } else if code == 3 {
            MCause::MachineSoftInt
        } else if code == 4 {
            MCause::UserTimerInt
        } else if code == 5 {
            MCause::SupervisorTimerInt
        } else if code == 7 {
            MCause::MachineTimerInt
        } else if code == 8 {
            MCause::UserExternalInt
        } else if code == 9 {
            MCause::SupervisorExternalInt
        } else if code == 11 {
            MCause::MachineExternalInt
        } else {
            MCause::UnknownInt
        }
    } else {
        if cause == 0 {
            MCause::InstrAddrMisaligned
        } else if cause == 1 {
            MCause::InstrAccessFault
        } else if cause == 2 {
            MCause::IllegalInstr
        } else if cause == 3 {
            MCause::Breakpoint
        } else if cause == 4 {
            MCause::LoadAddrMisaligned
        } else if cause == 5 {
            MCause::LoadAccessFault
        } else if cause == 6 {
            MCause::StoreAddrMisaligned
        } else if cause == 7 {
            MCause::StoreAccessFault
        } else if cause == 8 {
            MCause::EcallFromUMode
        } else if cause == 9 {
            MCause::EcallFromSMode
        } else if cause == 11 {
            MCause::EcallFromMMode
        } else if cause == 12 {
            MCause::InstrPageFault
        } else if cause == 13 {
            MCause::LoadPageFault
        } else if cause == 15 {
            MCause::StorePageFault
        } else {
            MCause::UnknownException
        }
    }
}

/// Whether this cause is an interrupt rather than an exception.
pub open spec fn spec_is_interrupt(c: MCause) -> bool {
    match c {
        MCause::UserSoftInt => true,
        MCause::SupervisorSoftInt => true,
        MCause::MachineSoftInt => true,
        MCause::UserTimerInt => true,
        MCause::SupervisorTimerInt => true,
        MCause::MachineTimerInt => true,
        MCause::UserExternalInt => true,
        MCause::SupervisorExternalInt => true,
        MCause::MachineExternalInt => true,
        MCause::UnknownInt => true,
        _ => false,
    }
}

impl MCause {
    /// Classify a raw cause register value.
    pub fn new(cause: u64) -> (r: MCause)
        ensures
            r == spec_cause_of(cause),
    {
        if cause >= MASK_INTERRUPT_BIT {
            // Interrupt: classify by the code under the top bit.
            match cause - MASK_INTERRUPT_BIT {
                0 => MCause::UserSoftInt,
                1 => MCause::SupervisorSoftInt,
                3 => MCause::MachineSoftInt,
                4 => MCause::UserTimerInt,
                5 => MCause::SupervisorTimerInt,
                7 => MCause::MachineTimerInt,
                8 => MCause::UserExternalInt,
                9 => MCause::SupervisorExternalInt,
                11 => MCause::MachineExternalInt,
                _ => MCause::UnknownInt,
            }
        } else {
            // Exception.
            match cause {
                0 => MCause::InstrAddrMisaligned,
                1 => MCause::InstrAccessFault,
                2 => MCause::IllegalInstr,
                3 => MCause::Breakpoint,
                4 => MCause::LoadAddrMisaligned,
                5 => MCause::LoadAccessFault,
                6 => MCause::StoreAddrMisaligned,
                7 => MCause::StoreAccessFault,
                8 => MCause::EcallFromUMode,
                9 => MCause::EcallFromSMode,
                11 => MCause::EcallFromMMode,
                12 => MCause::InstrPageFault,
                13 => MCause::LoadPageFault,
                15 => MCause::StorePageFault,
                _ => MCause::UnknownException,
            }
        }
    }

    /// Whether this cause is an interrupt rather than an exception.
    pub fn is_interrupt(self) -> (r: bool)
        ensures
            r == spec_is_interrupt(self),
    {
        match self {
            MCause::UserSoftInt => true,
            MCause::SupervisorSoftInt => true,
            MCause::MachineSoftInt => true,
            MCause::UserTimerInt => true,
            MCause::SupervisorTimerInt => true,
            MCause::MachineTimerInt => true,
            MCause::UserExternalInt => true,
            MCause::SupervisorExternalInt => true,
            MCause::MachineExternalInt => true,
            MCause::UnknownInt => true,
            _ => false,
        }
    }

    /// The cause code with the interrupt bit stripped.
    pub fn cause_number(cause: u64) -> (r: u64)
        ensures
            r == (if cause >= 0x8000_0000_0000_0000 {
                cause - 0x8000_0000_0000_0000
            } else {
                cause as int
            }),
    {
        if cause >= MASK_INTERRUPT_BIT {
            cause - MASK_INTERRUPT_BIT
        } else {
            cause
        }
    }
}

/// The transient hardware state read at trap entry: the faulting or
/// return program counter, the faulting address, the raw cause code and
/// the originating hardware thread id.
#[derive(Clone, Copy, Debug)]
pub struct TrapContext {
    pub return_pc: usize,
    pub tval: usize,
    pub cause: u64,
    pub hart: u64,
}

/// What one dispatch step decided: where to resume, and which hardware
/// actions the surrounding trap path must perform before returning.
#[derive(Clone, Copy, PartialEq, Eq, Debug)]
pub struct TrapOutcome {
    /// The program counter the trap exit path resumes at.
    pub return_pc: usize,
    /// Reprogram the timer comparator for one more fixed interval.
    pub reprogram_timer: bool,
    /// Read one byte from the console and echo it back.
    pub echo_console: bool,
    /// Acknowledge this claimed device interrupt at the controller.
    pub acknowledge_device: Option<u32>,
    /// On a timer tick, the context chosen to run: the trap exit path
    /// restores its frame and publishes it as the current process.
    pub switch_to: Option<Process>,
}

/// The device id of the console on the interrupt controller.
pub const CONSOLE_DEVICE: u32 = 10;

/// How a received console byte is echoed: carriage return and line feed
/// both become one newline, everything else echoes unchanged.
pub fn echo_byte(byte: u8) -> (r: u8)
    ensures
        r == (if byte == 10 || byte == 13 {
            10u8
        } else {
            byte
        }),
{
    match byte {
        10 | 13 => 10,
        _ => byte,
    }
}

/// One dispatch step of the trap handler.
///
/// A system call resumes at the faulting program counter plus one
/// instruction width; a page fault installs an identity mapping with
/// full permissions over the faulting address and resumes at the same
/// program counter; a timer interrupt asks the scheduler for the next
/// context and resumes at its saved program counter; an external
/// interrupt echoes the console or ignores the device, then acknowledges
/// it. Any cause outside the recognized set, and allocator exhaustion
/// while resolving a fault, are fatal.
pub fn m_trap(ctx: &mut KernelContext, trap: &TrapContext, pending_device: Option<u32>) -> (r:
    Result<TrapOutcome, KernelError>)
    requires
        old(ctx).wf(),
        trap.return_pc + 4 <= usize::MAX,
        old(ctx).scheduler.spec_counter() < u32::MAX,
    ensures
        final(ctx).wf(),
        match spec_cause_of(trap.cause) {
            MCause::EcallFromUMode | MCause::EcallFromSMode | MCause::EcallFromMMode => {
                &&& *final(ctx) == *old(ctx)
                &&& r matches Ok(o) && o.return_pc == trap.return_pc + 4 && !o.reprogram_timer
                    && !o.echo_console && o.acknowledge_device is None && o.switch_to is None
            },
            MCause::InstrPageFault | MCause::LoadPageFault | MCause::StorePageFault => {
                &&& final(ctx).scheduler == old(ctx).scheduler
                &&& r is Ok <==> (count_free(old(ctx).allocator@) >= old(ctx).paging.spec_tables_needed(trap.tval as int) && old(ctx).paging.num_tables() + 2
                    <= MAX_TABLES)
                &&& match r {
                    Ok(o) => {
                        &&& o.return_pc == trap.return_pc
                        &&& !o.reprogram_timer && !o.echo_console && o.acknowledge_device is None
                        &&& o.switch_to is None
                        &&& forall|va2: int|
                            spec_same_page(va2, trap.tval as int) ==> #[trigger] final(ctx).paging.spec_walk(va2) == Option::Some(
                                spec_mapped_address(trap.tval as int, va2),
                            )
                        &&& forall|va2: int|
                            spec_same_page(va2, trap.tval as int) ==> #[trigger] final(ctx).paging.spec_walk_leaf(va2) == Option::Some(
                                spec_leaf_entry(trap.tval as u64, 0xe) as int,
                            )
                        &&& forall|va2: int|
                            !spec_same_page(va2, trap.tval as int) ==> #[trigger] final(ctx).paging.spec_walk(va2) == old(ctx).paging.spec_walk(va2)
                    },
                    Err(e) => {
                        &&& e == KernelError::OutOfMemory
                        &&& forall|va2: int|
                            #[trigger] final(ctx).paging.spec_walk(va2) == old(ctx).paging.spec_walk(va2)
                    },
                }
            },
            MCause::MachineTimerInt => {
                &&& final(ctx).allocator == old(ctx).allocator
                &&& final(ctx).paging == old(ctx).paging
                &&& final(ctx).scheduler.spec_counter() == old(ctx).scheduler.spec_counter() + 1
                &&& r matches Ok(o) && o.return_pc == old(ctx).scheduler.spec_selected_pc(
                    old(ctx).scheduler.spec_counter(),
                ) && o.reprogram_timer && !o.echo_console && o.acknowledge_device is None
                    && o.switch_to == Option::Some(
                    old(ctx).scheduler.spec_selected(old(ctx).scheduler.spec_counter()),
                )
            },
            MCause::MachineExternalInt => {
                &&& *final(ctx) == *old(ctx)
                &&& r matches Ok(o) && o.return_pc == trap.return_pc && !o.reprogram_timer
                    && o.acknowledge_device == pending_device && o.echo_console == (pending_device
                    == Option::Some(CONSOLE_DEVICE)) && o.switch_to is None
            },
            _ => {
                &&& *final(ctx) == *old(ctx)
                &&& r == Err::<TrapOutcome, KernelError>(KernelError::UnknownCause)
            },
        },
{
    let mut return_pc = trap.return_pc;
    match MCause::new(trap.cause) {
        MCause::EcallFromUMode | MCause::EcallFromSMode | MCause::EcallFromMMode => {
            // A system call: acknowledge it and resume at the next
            // instruction.
            return_pc += 4;
            Ok(
                TrapOutcome {
                    return_pc,
                    reprogram_timer: false,
                    echo_console: false,
                    acknowledge_device: None,
                    switch_to: None,
                },
            )
        },
        MCause::InstrPageFault | MCause::LoadPageFault | MCause::StorePageFault => {
            // Demand paging: identity-map the faulting address with full
            // permissions and retry the faulting instruction.
            proof {
                assert(0xei64 & 0xei64 != 0i64) by (bit_vector);
            }
            match ctx.paging.map(
                &mut ctx.allocator,
                trap.tval,
                trap.tval,
                crate::paging::EntryBits::ReadWriteExecute.val(),
            ) {
                Ok(()) => Ok(
                    TrapOutcome {
                        return_pc,
                        reprogram_timer: false,
                        echo_console: false,
                        acknowledge_device: None,
                        switch_to: None,
                    },
                ),
                Err(e) => Err(e),
            }
        },
        MCause::MachineTimerInt => {
            // The sole preemption point: rearm the timer and hand the
            // processor to the next context in the round.
            let chosen = ctx.scheduler.next();
            Ok(
                TrapOutcome {
                    return_pc: chosen.get_pc(),
                    reprogram_timer: true,
                    echo_console: false,
                    acknowledge_device: None,
                    switch_to: Some(chosen),
                },
            )
        },
        MCause::MachineExternalInt => {
            // A device interrupt: echo the console, ignore anything
            // else, and acknowledge whatever was claimed.
            let echo_console = match pending_device {
                Some(device) => device == CONSOLE_DEVICE,
                None => false,
            };
            Ok(
                TrapOutcome {
                    return_pc,
                    reprogram_timer: false,
                    echo_console,
                    acknowledge_device: pending_device,
                    switch_to: None,
                },
            )
        },
        _ => Err(KernelError::UnknownCause),
    }
}

} // verus!
