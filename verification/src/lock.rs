//! Synchronization primitives.
//!
//! The spin-style lock pairs an atomic ownership flag with interrupt
//! masking on the acquiring core: the core disables interrupts before it
//! begins to spin and re-enables them only when the outermost nested
//! acquisition is released, so no interrupt handler can run — and block, or
//! retake the lock — while the core holds any spin-style lock. The model's
//! acquisition step is the step in which the flag is won; the busy wait
//! preceding it has no observable effect.
//!
//! The sleep-style lock (`SleepLock`) parks the caller instead of spinning;
//! its acquire and release are scheduler operations, defined with the
//! process table.

use crate::cpu::Cpu;
use vstd::prelude::*;

verus! {

/// A spin-style mutual-exclusion lock protecting a payload of any type.
pub struct SpinLock<T> {
    /// The ownership flag.
    pub locked: bool,
    /// Core holding the lock; meaningful only while `locked`.
    pub owner: u32,
    /// The protected payload.
    pub value: T,
}

impl<T> SpinLock<T> {
    /// Whether core `cpu_id` holds this lock.
    pub open spec fn held_by(self, cpu_id: u32) -> bool {
        self.locked && self.owner == cpu_id
    }

    pub fn new(value: T) -> (r: SpinLock<T>)
        ensures
            !r.locked,
            r.value == value,
    {
        SpinLock { locked: false, owner: 0, value }
    }

    /// Wins the lock for `cpu` and disables interrupts on it for the whole
    /// hold. Acquiring a lock the same core already holds is a fatal
    /// reentrance error; one held by another core makes the caller spin
    /// until it is released. Both are excluded here: this atomic step is
    /// the successful acquisition of a free lock.
    pub fn acquire(&mut self, cpu: &mut Cpu)
        requires
            !old(self).locked,
            old(cpu).noff < u64::MAX,
        ensures
            final(self).locked,
            final(self).owner == old(cpu).id,
            final(self).held_by(old(cpu).id),
            final(self).value == old(self).value,
            *final(cpu) == (Cpu {
                noff: (old(cpu).noff + 1) as u64,
                intena: if old(cpu).noff == 0 {
                    old(cpu).intr_on
                } else {
                    old(cpu).intena
                },
                intr_on: false,
                ..*old(cpu)
            }),
    {
        cpu.push_off();
        self.locked = true;
        self.owner = cpu.id;
    }

    /// Releases a lock held by `cpu`, unwinding one level of the core's
    /// interrupt-disable nesting; interrupts return only with the outermost
    /// release, and only if they were enabled before the outermost acquire.
    /// Releasing a lock the core does not hold is a fatal error, excluded
    /// here.
    pub fn release(&mut self, cpu: &mut Cpu)
        requires
            old(self).held_by(old(cpu).id),
            old(cpu).noff > 0,
            !old(cpu).intr_on,
        ensures
            !final(self).locked,
            final(self).value == old(self).value,
            *final(cpu) == (Cpu {
                noff: (old(cpu).noff - 1) as u64,
                intr_on: old(cpu).noff == 1 && old(cpu).intena,
                ..*old(cpu)
            }),
    {
        self.locked = false;
        cpu.pop_off();
    }

    /// Reads the protected payload; callers must hold the lock.
    pub fn get(&self, cpu_id: u32) -> (r: &T)
        requires
            self.held_by(cpu_id),
        ensures
            *r == self.value,
    {
        &self.value
    }

    /// Mutable access to the protected payload; callers must hold the lock.
    pub fn get_mut(&mut self, cpu_id: u32) -> (r: &mut T)
        requires
            old(self).held_by(old(self).owner),
            old(self).held_by(cpu_id),
        ensures
            *r == old(self).value,
            final(self).value == *final(r),
            final(self).locked == old(self).locked,
            final(self).owner == old(self).owner,
    {
        &mut self.value
    }
}

/// A sleep-style mutual-exclusion lock: a spin-protected flag plus a wait
/// channel. A caller finding it taken parks SLEEPING on `chan` through the
/// scheduler's `sleep`, and the releaser hands the lock on with `wakeup`
/// of the same channel.
pub struct SleepLock {
    /// Whether some process holds the lock.
    pub locked: bool,
    /// Process id of the holder; meaningful only while `locked`.
    pub owner_pid: u64,
    /// The wait channel the lock's sleepers use.
    pub chan: u64,
}

impl SleepLock {
    pub fn new(chan: u64) -> (r: SleepLock)
        ensures
            !r.locked,
            r.chan == chan,
    {
        SleepLock { locked: false, owner_pid: 0, chan }
    }
}

} // verus!
