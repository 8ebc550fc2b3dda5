//! Small kernel-wide value types: the interrupt numbers the controller is
//! programmed with, the registers a syscall handler saves, the system
//! call numbers the user side encodes, and the cooperative tasking
//! handles.  The interrupt plumbing, the `int 0x80` instruction and the
//! futures themselves live outside this crate.

use vstd::prelude::*;

verus! {

/// Where the interrupt controller's first line lands in the IDT.
pub const PIC_1_OFFSET: u8 = 32;

pub const PIC_2_OFFSET: u8 = 40;

/// The scratch registers a syscall or interrupt handler saves and
/// restores.
#[derive(Debug, Clone, Copy, Default, PartialEq, Eq, Structural)]
pub struct Registers {
    pub r11: usize,
    pub r10: usize,
    pub r9: usize,
    pub r8: usize,
    pub rdi: usize,
    pub rsi: usize,
    pub rdx: usize,
    pub rcx: usize,
    pub rax: usize,
}

/// The hardware interrupt lines the kernel handles.
#[derive(Debug, Clone, Copy, PartialEq, Eq, Structural)]
pub enum InterruptIndex {
    Timer,
    Keyboard,
}

impl InterruptIndex {
    /// The line's vector number: the controller offset plus its position.
    pub fn as_u8(self) -> (r: u8)
        ensures
            r == self.spec_u8(),
    {
        match self {
            InterruptIndex::Timer => PIC_1_OFFSET,
            InterruptIndex::Keyboard => 33,
        }
    }

    pub open spec fn spec_u8(self) -> u8 {
        match self {
            InterruptIndex::Timer => 32,
            InterruptIndex::Keyboard => 33,
        }
    }

    pub fn as_usize(self) -> (r: usize)
        ensures
            r == self.spec_u8(),
    {
        self.as_u8() as usize
    }
}

/// The system calls the kernel answers, with the numbers the user side
/// loads before `int 0x80`.
#[derive(Debug, Clone, Copy, PartialEq, Eq, Structural)]
pub enum SyscallNumber {
    Write,
    Exit,
    Read,
    RemoveChar,
    SpawnTask,
    Alloc,
    Dealloc,
    CheckFsEntryExists,
    GenerateTaskId,
    ListDir,
    MakeDir,
    MakeFile,
    WriteFile,
    ReadFile,
    RemoveDir,
    RemoveFile,
    Run,
    ClearScreen,
}

impl SyscallNumber {
    /// The number placed in the call register.
    pub fn as_u64(self) -> (r: u64)
        ensures
            r == self.spec_u64(),
    {
        match self {
            SyscallNumber::Write => 1,
            SyscallNumber::Exit => 2,
            SyscallNumber::Read => 3,
            SyscallNumber::RemoveChar => 4,
            SyscallNumber::SpawnTask => 5,
            SyscallNumber::Alloc => 6,
            SyscallNumber::Dealloc => 7,
            SyscallNumber::CheckFsEntryExists => 8,
            SyscallNumber::GenerateTaskId => 9,
            SyscallNumber::ListDir => 10,
            SyscallNumber::MakeDir => 11,
            SyscallNumber::MakeFile => 12,
            SyscallNumber::WriteFile => 13,
            SyscallNumber::ReadFile => 14,
            SyscallNumber::RemoveDir => 15,
            SyscallNumber::RemoveFile => 16,
            SyscallNumber::Run => 17,
            SyscallNumber::ClearScreen => 18,
        }
    }

    pub open spec fn spec_u64(self) -> u64 {
        match self {
            SyscallNumber::Write => 1,
            SyscallNumber::Exit => 2,
            SyscallNumber::Read => 3,
            SyscallNumber::RemoveChar => 4,
            SyscallNumber::SpawnTask => 5,
            SyscallNumber::Alloc => 6,
            SyscallNumber::Dealloc => 7,
            SyscallNumber::CheckFsEntryExists => 8,
            SyscallNumber::GenerateTaskId => 9,
            SyscallNumber::ListDir => 10,
            SyscallNumber::MakeDir => 11,
            SyscallNumber::MakeFile => 12,
            SyscallNumber::WriteFile => 13,
            SyscallNumber::ReadFile => 14,
            SyscallNumber::RemoveDir => 15,
            SyscallNumber::RemoveFile => 16,
            SyscallNumber::Run => 17,
            SyscallNumber::ClearScreen => 18,
        }
    }
}

/// A task's identity.  The executor or the task-id system call supplies
/// the fresh number; a global counter cannot live in verified code, so
/// the caller passes it in.
#[derive(Debug, Clone, Copy, PartialEq, Eq, Structural, PartialOrd, Ord, Hash)]
pub struct TaskId(pub u64);

impl TaskId {
    pub fn new(id: u64) -> (r: TaskId)
        ensures
            r.0 == id,
    {
        TaskId(id)
    }
}

/// The cooperative yield: pending once, then ready.  The future impl that
/// the executor polls wraps `poll_step` outside this crate.
#[derive(Debug, Clone, Copy, PartialEq, Eq, Structural)]
pub struct YieldNow {
    pub yielded: bool,
}

impl YieldNow {
    pub fn new() -> (r: YieldNow)
        ensures
            r.yielded == false,
    {
        YieldNow { yielded: false }
    }

    /// One poll: the first returns pending (false) and marks the yield
    /// taken, every later one is ready (true).
    pub fn poll_step(&mut self) -> (ready: bool)
        ensures
            ready == old(self).yielded,
            final(self).yielded == true,
    {
        if self.yielded {
            true
        } else {
            self.yielded = true;
            false
        }
    }
}

} // verus!
