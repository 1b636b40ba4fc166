//! A verified model of the multiprocessor execution engine of a small
//! Unix-style SMP kernel: the physical page allocator, spin- and sleep-style
//! locks with interrupt masking, per-CPU state and core bring-up, page tables,
//! legacy interrupt routing, trap dispatch, and the process table with its
//! scheduler and process lifecycle.
//!
//! Hardware effects (register writes, inter-processor startup pulses, the
//! context-switch instruction sequence) live outside this crate; here every
//! component is a plain data structure whose operations carry contracts, so
//! the state machines and invariants of the kernel core are checked by Verus.

use vstd::prelude::*;

pub mod cpu;
pub mod ioapic;
pub mod kalloc;
pub mod lock;
pub mod proc;
pub mod screen;
pub mod trap;
pub mod shell;
pub mod vm;

verus! {

/// Marks types whose all-zero bit pattern is a valid value, so that memory
/// handed out zero-filled by the allocator may be treated as one of them.
pub trait FromZeros {}

impl FromZeros for bool {}

impl FromZeros for char {}

impl FromZeros for isize {}

impl FromZeros for usize {}

impl FromZeros for i8 {}

impl FromZeros for u8 {}

impl FromZeros for i16 {}

impl FromZeros for u16 {}

impl FromZeros for i32 {}

impl FromZeros for u32 {}

impl FromZeros for i64 {}

impl FromZeros for u64 {}

/// The failures the kernel core reports as typed values. Invariant
/// violations (double free, releasing a lock that is not held) are excluded
/// by preconditions instead: the verified functions never reach them.
#[derive(Clone, Copy, PartialEq, Eq, Structural, Debug)]
pub enum KernelError {
    /// The physical page allocator has no page left.
    OutOfMemory,
    /// The process table has no free slot.
    TableFull,
    /// A page in the requested virtual range is already mapped.
    AlreadyMapped,
    /// A page in the requested virtual range is not mapped.
    UnmapOfUnmapped,
    /// A secondary core did not signal readiness within the retry bound.
    BringupTimeout,
}

} // verus!
