//! The saved register snapshot of a suspended thread.
use vstd::prelude::*;

verus! {

/// Register holding the return address.
pub const REG_RA: usize = 1;

/// Register holding the stack pointer.
pub const REG_SP: usize = 2;

/// First argument register, also the register of a system call's result.
pub const REG_A0: usize = 10;

/// Register holding the system-call identifier.
pub const REG_A7: usize = 17;

/// Width in bytes of the trapping `ecall` instruction.
pub const ECALL_WIDTH: usize = 4;

/// Previous-privilege bit of `sstatus`: set when the trap came from supervisor mode.
pub const SSTATUS_SPP: usize = 0x100;

/// Previous-interrupt-enable bit of `sstatus`.
pub const SSTATUS_SPIE: usize = 0x20;

/// Registers saved when a trap is taken: the 32 general registers, the
/// status register as raw bits, and the address of the trapping instruction.
#[derive(Clone, Copy)]
pub struct Context {
    pub x: [usize; 32],
    pub sstatus: usize,
    pub sepc: usize,
}

impl Context {
    /// The initial context of a new thread: the stack pointer at `stack_top`,
    /// execution starting at `entry_point`, the arguments in `a0`, `a1`, ...,
    /// and the privilege bits chosen by `is_user`.
    pub fn new(stack_top: usize, entry_point: usize, arguments: &[usize], is_user: bool) -> (c:
        Context)
        requires
            arguments@.len() <= 8,
        ensures
            c.sepc == entry_point,
            c.x@[REG_SP as int] == stack_top,
            forall|i: int| 0 <= i < arguments@.len() ==> c.x@[REG_A0 + i] == arguments@[i],
            forall|i: int|
                0 <= i < 32 && i != REG_SP && !(REG_A0 <= i < REG_A0 + arguments@.len())
                    ==> c.x@[i] == 0,
            c.sstatus == if is_user {
                SSTATUS_SPIE
            } else {
                SSTATUS_SPIE | SSTATUS_SPP
            },
    {
        let mut x: [usize; 32] = [0usize; 32];
        x[REG_SP] = stack_top;
        let mut i: usize = 0;
        while i < arguments.len()
            invariant
                i <= arguments@.len() <= 8,
                x@.len() == 32,
                x@[REG_SP as int] == stack_top,
                forall|j: int| 0 <= j < i ==> x@[REG_A0 + j] == arguments@[j],
                forall|j: int|
                    0 <= j < 32 && j != REG_SP && !(REG_A0 <= j < REG_A0 + i) ==> x@[j] == 0,
            decreases arguments@.len() - i,
        {
            x[REG_A0 + i] = arguments[i];
            i = i + 1;
        }
        let sstatus: usize = if is_user {
            SSTATUS_SPIE
        } else {
            SSTATUS_SPIE | SSTATUS_SPP
        };
        Context { x, sstatus, sepc: entry_point }
    }

    /// The value of register `i`.
    pub fn reg(&self, i: usize) -> (r: usize)
        requires
            i < 32,
        ensures
            r == self.x@[i as int],
    {
        self.x[i]
    }

    /// Sets the return address, so that the thread continues at `ra` when
    /// its entry function returns.
    pub fn set_ra(&mut self, ra: usize)
        ensures
            final(self).x@ == old(self).x@.update(REG_RA as int, ra),
            final(self).sstatus == old(self).sstatus,
            final(self).sepc == old(self).sepc,
    {
        self.x[REG_RA] = ra;
    }
}

} // verus!
