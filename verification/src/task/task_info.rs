//! What the task system knows of a task: its state, the registers it was
//! stopped with, and the information of its thread and of its program.

use vstd::prelude::*;
use crate::memory::map::SATP;

verus! {

/// Where a task is in its life.
#[derive(Debug, Clone, Copy, PartialEq, Eq, Structural)]
pub enum TaskState {
    Running,
    Waiting,
    Sleeping,
}

/// The registers that calls and task setup use, by their RISC-V number.
#[derive(Debug, Clone, Copy, PartialEq, Eq)]
pub enum Register {
    RA,
    SP,
    A0,
    A1,
    A2,
    A3,
    A4,
    A5,
}

/// The number of a register.
pub open spec fn register_number(r: Register) -> usize {
    match r {
        Register::RA => 1,
        Register::SP => 2,
        Register::A0 => 10,
        Register::A1 => 11,
        Register::A2 => 12,
        Register::A3 => 13,
        Register::A4 => 14,
        Register::A5 => 15,
    }
}

impl Register {
    /// The number of the register.
    pub fn val(self) -> (v: usize)
        ensures
            v == register_number(self),
            v < 32,
    {
        match self {
            Register::RA => 1,
            Register::SP => 2,
            Register::A0 => 10,
            Register::A1 => 11,
            Register::A2 => 12,
            Register::A3 => 13,
            Register::A4 => 14,
            Register::A5 => 15,
        }
    }
}

/// The registers a task is stopped with: the general registers, the
/// program counter, the address-translation register and the hart it ran
/// on.
#[derive(Debug, Clone, Copy, PartialEq, Eq)]
pub struct Environment {
    pub regs: [usize; 32],
    pub epc: usize,
    pub satp: usize,
    pub hartid: usize,
}

impl Environment {
    /// Every register zero.
    pub fn new() -> (r: Self)
        ensures
            forall|i: int| 0 <= i < 32 ==> r.regs@[i] == 0,
            r.epc == 0,
            r.satp == 0,
            r.hartid == 0,
    {
        Environment { regs: [0usize; 32], epc: 0, satp: 0, hartid: 0 }
    }

    /// Register a2.
    pub fn a2(&self) -> (r: usize)
        ensures
            r == self.regs@[12],
    {
        self.regs[12]
    }

    /// Register a3.
    pub fn a3(&self) -> (r: usize)
        ensures
            r == self.regs@[13],
    {
        self.regs[13]
    }

    /// Register a4.
    pub fn a4(&self) -> (r: usize)
        ensures
            r == self.regs@[14],
    {
        self.regs[14]
    }

    /// Register a5.
    pub fn a5(&self) -> (r: usize)
        ensures
            r == self.regs@[15],
    {
        self.regs[15]
    }
}

/// What is known of a thread.
#[derive(Debug, Clone, Copy, PartialEq, Eq)]
pub struct ExecutionInfo {
    pub priority: usize,
    pub pid: usize,
    pub tid: usize,
    pub state: TaskState,
    pub is_kernel: bool,
    pub is_main: bool,
    pub trigger_time: usize,
    pub stack_top: usize,
    pub env: Environment,
}

/// What is known of a program.
#[derive(Debug, Clone, Copy, PartialEq, Eq)]
pub struct ProgramInfo {
    pub pid: usize,
    pub satp: SATP,
    pub state: TaskState,
    pub is_kernel: bool,
}

} // verus!
