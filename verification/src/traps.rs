//! The trapframe and the delivery of write faults to user space.

use vstd::prelude::*;
use vstd::array::spec_array_update;
use crate::mmu::{USTACKTOP, UXSTACKTOP, VirtAddr};

verus! {

/// Coprocessor 3 usable.
pub const STATUS_CU3: usize = 0x8000_0000;

/// Coprocessor 2 usable.
pub const STATUS_CU2: usize = 0x4000_0000;

/// Coprocessor 1 usable.
pub const STATUS_CU1: usize = 0x2000_0000;

/// Coprocessor 0 usable.
pub const STATUS_CU0: usize = 0x1000_0000;

/// Bootstrap exception vectors.
pub const STATUS_BEV: usize = 0x0040_0000;

/// Interrupt mask, line 0.
pub const STATUS_IM0: usize = 0x0100;

/// Interrupt mask, line 1.
pub const STATUS_IM1: usize = 0x0200;

/// Interrupt mask, line 2.
pub const STATUS_IM2: usize = 0x0400;

/// Interrupt mask, line 3.
pub const STATUS_IM3: usize = 0x0800;

/// Interrupt mask, line 4.
pub const STATUS_IM4: usize = 0x1000;

/// Interrupt mask, line 5.
pub const STATUS_IM5: usize = 0x2000;

/// Interrupt mask, line 6.
pub const STATUS_IM6: usize = 0x4000;

/// Interrupt mask, line 7.
pub const STATUS_IM7: usize = 0x8000;

/// User mode.
pub const STATUS_UM: usize = 0x0010;

/// Reserved bit.
pub const STATUS_R0: usize = 0x0008;

/// Error level.
pub const STATUS_ERL: usize = 0x0004;

/// Exception level.
pub const STATUS_EXL: usize = 0x0002;

/// Interrupts enabled.
pub const STATUS_IE: usize = 0x0001;

/// The status word of a fresh environment: timer interrupt unmasked,
/// interrupts enabled, exception level set, user mode.
pub const STATUS_INITIAL: usize = 0x8013;

/// Bytes that a saved trapframe occupies on the target: 38 words.
pub const TRAPFRAME_BYTES: usize = 152;

/// Index of the register that carries the return value (`v0`).
pub const REG_V0: usize = 2;

/// Index of the first argument register (`a0`).
pub const REG_A0: usize = 4;

/// Index of the stack pointer (`sp`).
pub const REG_SP: usize = 29;

/// The processor state saved on entry to the kernel and restored on exit.
#[derive(Clone, Copy, Debug)]
pub struct Trapframe {
    pub regs: [usize; 32],
    pub cp0_status: usize,
    pub hi: usize,
    pub lo: usize,
    pub cp0_badvaddr: usize,
    pub cp0_cause: usize,
    pub cp0_epc: usize,
}

/// What the kernel stores on the user exception stack when it hands a write
/// fault to user space: a copy of the faulting state, and where it goes.
#[derive(Clone, Copy, Debug)]
pub struct SavedFrame {
    pub at: VirtAddr,
    pub frame: Trapframe,
}

/// A trapframe with register `i` set to `v`.
pub open spec fn with_reg(tf: Trapframe, i: int, v: usize) -> Trapframe {
    Trapframe { regs: spec_array_update(tf.regs, i, v), ..tf }
}

/// The stack pointer from which a fault frame is pushed: the one at hand
/// while it lies on the exception stack, else the top of that stack.
pub open spec fn fault_stack_base(sp: usize) -> usize {
    if sp < USTACKTOP || sp >= UXSTACKTOP {
        UXSTACKTOP
    } else {
        sp
    }
}

/// Where the copy of the faulting state is stored.
pub open spec fn fault_frame_addr(sp: usize) -> usize {
    (fault_stack_base(sp) - TRAPFRAME_BYTES) as usize
}

/// The state in which the user handler at `entry` starts: its first argument
/// is the address of the stored copy, its stack begins one word below that,
/// and execution resumes at `entry`.
pub open spec fn fault_handler_frame(tf: Trapframe, entry: usize) -> Trapframe {
    let at = fault_frame_addr(tf.regs[REG_SP as int]);
    Trapframe {
        regs: spec_array_update(
            spec_array_update(tf.regs, REG_SP as int, (at - 4) as usize),
            REG_A0 as int,
            at,
        ),
        cp0_epc: entry,
        ..tf
    }
}

impl Trapframe {
    /// A trapframe with every register zero.
    pub fn new() -> (r: Self)
        ensures
            forall|i: int| 0 <= i < 32 ==> r.regs[i] == 0,
            r.cp0_status == 0,
            r.hi == 0,
            r.lo == 0,
            r.cp0_badvaddr == 0,
            r.cp0_cause == 0,
            r.cp0_epc == 0,
    {
        Trapframe { regs: [0; 32], cp0_status: 0, hi: 0, lo: 0, cp0_cause: 0, cp0_badvaddr: 0, cp0_epc: 0 }
    }

    /// Redirects a write fault on a page that is not writable to the user
    /// handler at `mod_entry`. Returns the copy of the faulting state together
    /// with the address on the user exception stack at which it is to be stored.
    pub fn do_tlb_mod(&mut self, mod_entry: usize) -> (r: SavedFrame)
        requires
            mod_entry != 0,
        ensures
            r.frame == *old(self),
            r.at.0 == fault_frame_addr(old(self).regs[REG_SP as int]),
            *final(self) == fault_handler_frame(*old(self), mod_entry),
    {
        let saved = *self;
        let sp = self.regs[REG_SP];
        if sp < USTACKTOP || sp >= UXSTACKTOP {
            self.regs[REG_SP] = UXSTACKTOP;
        }
        self.regs[REG_SP] -= TRAPFRAME_BYTES;
        let at = VirtAddr::new(self.regs[REG_SP]);
        self.regs[REG_A0] = self.regs[REG_SP];
        self.regs[REG_SP] -= 4;
        self.cp0_epc = mod_entry;
        proof {
            let want = fault_handler_frame(*old(self), mod_entry);
            assert(self.regs@ =~= want.regs@);
            assert(self.regs =~= want.regs);
        }
        SavedFrame { at, frame: saved }
    }
}

} // verus!
