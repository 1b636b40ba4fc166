//! Trap dispatch: the single entry point for every transition from running
//! code into kernel control.
//!
//! Entry captures the interrupted process's register snapshot into its trap
//! frame, classifies the trap by vector — synchronous fault, device
//! interrupt, system call, or inter-processor interrupt — and routes it.
//! Device interrupts run a short handler that may wake sleepers and return
//! without rescheduling; the timer (and a reschedule IPI) preempts the
//! current process; system calls hand their operation code and arguments to
//! the externally supplied call table, whose result `complete_syscall`
//! writes back into the frame's result slot; a fault with no recovery
//! terminates the current process, or reports that the core must halt when
//! it struck kernel context. The register save/restore sequence itself is
//! hardware work outside this crate.

use crate::cpu::{Cpu, IPI_HALT, IPI_RESCHED};
use crate::proc::{Kernel, NPROC, Proc, ProcState, TrapFrame, wait_chan_of};
use vstd::prelude::*;

verus! {

/// Vector of the timer interrupt: hardware line 0.
pub const VEC_TIMER: u64 = 32;

/// Vector reserved for system calls.
pub const VEC_SYSCALL: u64 = 64;

/// Wait channels at and above this value are reserved for device lines:
/// the handler of line `irq` wakes `DEVICE_CHAN_BASE + irq`.
pub const DEVICE_CHAN_BASE: u64 = 0x2000000000000000;

/// The wait channel a device line's handler wakes.
pub open spec fn device_chan_of(irq: u64) -> u64 {
    (DEVICE_CHAN_BASE + irq) as u64
}

/// What a trap is, by vector.
#[derive(Clone, Copy, PartialEq, Eq, Structural, Debug)]
pub enum TrapKind {
    /// A synchronous exception with no registered recovery.
    Fault,
    /// The timer interrupt: the preemption tick.
    Timer,
    /// A device interrupt on hardware line `irq`.
    Device { irq: u64 },
    /// A system call.
    Syscall,
    /// The reschedule inter-processor interrupt.
    Resched,
    /// The halt-all inter-processor interrupt.
    Halt,
}

/// Classification of vector `v`: vectors below 32 are exceptions, 32 is
/// the timer, the rest up to 63 are device lines, 64 is the system call,
/// and the reserved inter-processor vectors ask to reschedule or halt;
/// anything else is an unhandled fault.
pub open spec fn classify_spec(v: u64) -> TrapKind {
    if v == VEC_SYSCALL {
        TrapKind::Syscall
    } else if v == VEC_TIMER {
        TrapKind::Timer
    } else if 32 < v < 64 {
        TrapKind::Device { irq: (v - 32) as u64 }
    } else if v == IPI_RESCHED {
        TrapKind::Resched
    } else if v == IPI_HALT {
        TrapKind::Halt
    } else {
        TrapKind::Fault
    }
}

pub fn classify(v: u64) -> (r: TrapKind)
    ensures
        r == classify_spec(v),
{
    if v == VEC_SYSCALL {
        TrapKind::Syscall
    } else if v == VEC_TIMER {
        TrapKind::Timer
    } else if v > 32 && v < 64 {
        TrapKind::Device { irq: v - 32 }
    } else if v == IPI_RESCHED {
        TrapKind::Resched
    } else if v == IPI_HALT {
        TrapKind::Halt
    } else {
        TrapKind::Fault
    }
}

/// How one trap was resolved.
#[derive(Clone, Copy, PartialEq, Eq, Structural, Debug)]
pub enum TrapOutcome {
    /// The handler ran; the interrupted context resumes unchanged.
    Resumed,
    /// The current process was preempted back to RUNNABLE; the core's
    /// scheduler context resumes.
    Yielded,
    /// A system call: its operation code and arguments, for the externally
    /// supplied call table; `complete_syscall` writes the result back.
    Syscall { op: u64, arg0: u64, arg1: u64, arg2: u64, arg3: u64 },
    /// An unrecoverable fault terminated the current process.
    Killed,
    /// No recoverable context exists: the core must halt.
    Halted,
}

impl Kernel {
    /// Captures the interrupted process's register snapshot into its trap
    /// frame: the first step of every trap entry with a process context.
    fn snapshot_frame(&mut self, cpu_id: usize, frame: TrapFrame)
        requires
            old(self).wf(),
            cpu_id < old(self).cpus@.len(),
            old(self).cpus@[cpu_id as int].current is Some,
        ensures
            final(self).wf(),
            final(self).cpus@ == old(self).cpus@,
            final(self).table_lock == old(self).table_lock,
            final(self).alloc == old(self).alloc,
            final(self).kpgtbl == old(self).kpgtbl,
            final(self).next_pid == old(self).next_pid,
            final(self).procs@ == old(self).procs@.update(
                old(self).cpus@[cpu_id as int].current->0 as int,
                (Proc {
                    tf: frame,
                    ..old(self).procs@[old(self).cpus@[cpu_id as int].current->0 as int]
                }),
            ),
    {
        let p = match self.cpus[cpu_id].current {
            Some(p) => p,
            None => { return ; },
        };
        proof {
            assert(p < NPROC) by {
                reveal(Kernel::running_ok);
            }
        }
        let pr = &mut self.procs[p];
        pr.tf = frame;
        proof {
            let pre = *old(self);
            let post = *self;
            assert(post.procs@ =~= pre.procs@.update(
                p as int,
                (Proc { tf: frame, ..pre.procs@[p as int] }),
            ));
            lemma_dispatch_state_only(pre, post);
        }
    }

    /// Writes a system call's result into the calling process's trap
    /// frame's result slot — the final step of a system call, before the
    /// return path restores the frame.
    pub fn complete_syscall(&mut self, cpu_id: usize, result: u64)
        requires
            old(self).wf(),
            cpu_id < old(self).cpus@.len(),
            old(self).cpus@[cpu_id as int].current is Some,
        ensures
            final(self).wf(),
            final(self).cpus@ == old(self).cpus@,
            final(self).table_lock == old(self).table_lock,
            final(self).alloc == old(self).alloc,
            final(self).kpgtbl == old(self).kpgtbl,
            final(self).next_pid == old(self).next_pid,
            final(self).procs@ == old(self).procs@.update(
                old(self).cpus@[cpu_id as int].current->0 as int,
                (Proc {
                    tf: (TrapFrame {
                        ret: result,
                        ..old(self).procs@[old(self).cpus@[cpu_id as int].current->0 as int].tf
                    }),
                    ..old(self).procs@[old(self).cpus@[cpu_id as int].current->0 as int]
                }),
            ),
    {
        let p = match self.cpus[cpu_id].current {
            Some(p) => p,
            None => { return ; },
        };
        proof {
            assert(p < NPROC) by {
                reveal(Kernel::running_ok);
            }
        }
        let pr = &mut self.procs[p];
        pr.tf.ret = result;
        proof {
            let pre = *old(self);
            let post = *self;
            assert(post.procs@ =~= pre.procs@.update(
                p as int,
                (Proc {
                    tf: (TrapFrame { ret: result, ..pre.procs@[p as int].tf }),
                    ..pre.procs@[p as int]
                }),
            ));
            lemma_dispatch_state_only(pre, post);
        }
    }

    /// Dispatches one trap on `cpu_id`: captures the snapshot, classifies
    /// `frame.vector`, runs the matching handler, and says how the return
    /// path must resume. A fault with a current process that has a parent
    /// terminates it as `exit` does, with the vector as the status; a fault
    /// without one — kernel context, or the root process — is `Halted`.
    pub fn dispatch(&mut self, cpu_id: usize, frame: TrapFrame) -> (r: TrapOutcome)
        requires
            old(self).wf(),
            cpu_id < old(self).cpus@.len(),
            !old(self).table_lock.locked,
        ensures
            final(self).wf(),
            final(self).table_lock == old(self).table_lock,
            final(self).alloc == old(self).alloc,
            final(self).kpgtbl == old(self).kpgtbl,
            final(self).next_pid == old(self).next_pid,
            ({
                let k = classify_spec(frame.vector);
                let cur = old(self).cpus@[cpu_id as int].current;
                let p = cur->0 as int;
                let snap = if cur is Some {
                    old(self).procs@.update(p, (Proc { tf: frame, ..old(self).procs@[p] }))
                } else {
                    old(self).procs@
                };
                match r {
                    TrapOutcome::Resumed => {
                        &&& (k is Device || ((k is Timer || k is Resched) && cur is None))
                        &&& final(self).cpus@ == old(self).cpus@
                        &&& (k matches TrapKind::Device { irq } ==> forall|i: int|
                            0 <= i < NPROC ==> final(self).procs@[i] == (if snap[i].state
                                == ProcState::Sleeping && snap[i].chan == device_chan_of(irq) {
                                (Proc { state: ProcState::Runnable, ..snap[i] })
                            } else {
                                snap[i]
                            }))
                        &&& ((k is Timer || k is Resched) ==> final(self).procs@ == snap)
                    },
                    TrapOutcome::Yielded => {
                        &&& (k is Timer || k is Resched)
                        &&& cur is Some
                        &&& final(self).procs@ == snap.update(
                            p,
                            (Proc { state: ProcState::Runnable, ..snap[p] }),
                        )
                        &&& final(self).cpus@ == old(self).cpus@.update(
                            cpu_id as int,
                            (Cpu { current: None, ..old(self).cpus@[cpu_id as int] }),
                        )
                    },
                    TrapOutcome::Syscall { op, arg0, arg1, arg2, arg3 } => {
                        &&& k is Syscall
                        &&& cur is Some
                        &&& op == frame.op
                        &&& arg0 == frame.arg0
                        &&& arg1 == frame.arg1
                        &&& arg2 == frame.arg2
                        &&& arg3 == frame.arg3
                        &&& final(self).procs@ == snap
                        &&& final(self).cpus@ == old(self).cpus@
                    },
                    TrapOutcome::Killed => {
                        let pp = snap[p].parent->0 as int;
                        &&& k is Fault
                        &&& cur is Some
                        &&& snap[p].parent is Some
                        &&& final(self).cpus@ == old(self).cpus@.update(
                            cpu_id as int,
                            (Cpu { current: None, ..old(self).cpus@[cpu_id as int] }),
                        )
                        &&& final(self).procs@.len() == NPROC
                        &&& final(self).procs@[p] == (Proc {
                            state: ProcState::Zombie,
                            exit_status: frame.vector,
                            ..snap[p]
                        })
                        &&& (forall|i: int|
                            0 <= i < NPROC && i != p ==> (#[trigger] final(self).procs@[i]).state
                                == (if i == pp && snap[pp].state == ProcState::Sleeping
                                && snap[pp].chan == wait_chan_of(pp) {
                                ProcState::Runnable
                            } else {
                                snap[i].state
                            }))
                        &&& (forall|i: int|
                            0 <= i < NPROC && i != p ==> (#[trigger] final(self).procs@[i]).parent
                                == (if snap[i].parent == Some(p as usize) {
                                Some(pp as usize)
                            } else {
                                snap[i].parent
                            }))
                        &&& (forall|i: int|
                            0 <= i < NPROC && i != p ==> (#[trigger] final(self).procs@[i]).pid
                                == snap[i].pid && final(self).procs@[i].space == snap[i].space
                                && final(self).procs@[i].kstack == snap[i].kstack
                                && final(self).procs@[i].chan == snap[i].chan
                                && final(self).procs@[i].exit_status == snap[i].exit_status
                                && final(self).procs@[i].tf == snap[i].tf
                                && final(self).procs@[i].ctx == snap[i].ctx)
                    },
                    TrapOutcome::Halted => {
                        &&& (k is Halt || ((k is Fault || k is Syscall) && (cur is None || (
                        k is Fault && snap[p].parent is None))))
                        &&& final(self).procs@ == snap
                        &&& final(self).cpus@ == old(self).cpus@
                    },
                }
            }),
    {
        let has_current = match self.cpus[cpu_id].current {
            Some(_) => true,
            None => false,
        };
        if has_current {
            self.snapshot_frame(cpu_id, frame);
        }
        let kind = classify(frame.vector);
        match kind {
            TrapKind::Timer | TrapKind::Resched => {
                if has_current {
                    self.yield_(cpu_id);
                    TrapOutcome::Yielded
                } else {
                    TrapOutcome::Resumed
                }
            },
            TrapKind::Device { irq } => {
                let chan = DEVICE_CHAN_BASE + irq;
                self.wake_on(chan);
                TrapOutcome::Resumed
            },
            TrapKind::Syscall => {
                if has_current {
                    TrapOutcome::Syscall {
                        op: frame.op,
                        arg0: frame.arg0,
                        arg1: frame.arg1,
                        arg2: frame.arg2,
                        arg3: frame.arg3,
                    }
                } else {
                    TrapOutcome::Halted
                }
            },
            TrapKind::Fault => {
                if has_current {
                    let p = match self.cpus[cpu_id].current {
                        Some(p) => p,
                        None => { return TrapOutcome::Halted; },
                    };
                    proof {
                        assert(p < NPROC) by {
                            reveal(Kernel::running_ok);
                        }
                    }
                    let has_parent = match self.procs[p].parent {
                        Some(_) => true,
                        None => false,
                    };
                    if has_parent {
                        self.exit(cpu_id, frame.vector);
                        TrapOutcome::Killed
                    } else {
                        TrapOutcome::Halted
                    }
                } else {
                    TrapOutcome::Halted
                }
            },
            TrapKind::Halt => TrapOutcome::Halted,
        }
    }
}

/// Changes that touch only saved register state — trap frames and contexts
/// of live processes — preserve every component of the kernel invariant.
proof fn lemma_dispatch_state_only(pre: Kernel, post: Kernel)
    requires
        pre.wf(),
        post.procs@.len() == NPROC,
        post.cpus@ == pre.cpus@,
        post.alloc == pre.alloc,
        post.kpgtbl == pre.kpgtbl,
        post.next_pid == pre.next_pid,
        forall|i: int|
            0 <= i < NPROC ==> (#[trigger] post.procs@[i]).space == pre.procs@[i].space
                && post.procs@[i].kstack == pre.procs@[i].kstack && post.procs@[i].pid
                == pre.procs@[i].pid && post.procs@[i].parent == pre.procs@[i].parent
                && post.procs@[i].state == pre.procs@[i].state,
    ensures
        post.wf(),
{
    crate::proc::lemma_state_only_wf(pre, post);
}

} // verus!
