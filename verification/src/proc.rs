//! Process table and scheduler: process descriptors, lifecycle, run-queue
//! policy, and the cross-core wake/sleep rendezvous.
//!
//! All cores share one fixed-capacity process table protected by one
//! spin-style lock. Every public operation here is one atomic step of the
//! kernel: it stands for acquiring the table lock, mutating, and releasing
//! it, so it requires the lock free at entry and leaves it free — except
//! `wakeup`, which the spec of the trap layer calls with the lock already
//! held. The context-switch register save/restore itself is hardware work
//! outside the model; its observable effect is the change of each core's
//! `current` process.

use crate::KernelError;
use crate::cpu::Cpu;
use crate::kalloc::PageAllocator;
use crate::lock::{SleepLock, SpinLock};
use crate::vm::{PageTable, Pte, new_kernel_space};
use vstd::prelude::*;

verus! {

/// Fixed capacity of the process table.
pub const NPROC: usize = 64;

/// Wait channels at and above this value are reserved: slot `i`'s parent
/// sleeps on `WAIT_CHAN_BASE + i` while waiting for a child to exit.
pub const WAIT_CHAN_BASE: u64 = 0x1000000000000000;

/// The wait channel of the process in slot `slot`.
pub open spec fn wait_chan_of(slot: int) -> u64 {
    (WAIT_CHAN_BASE + slot) as u64
}

/// Lifecycle of a process-table slot; the transitions form a closed cycle
/// from UNUSED back to UNUSED.
#[derive(Clone, Copy, PartialEq, Eq, Structural, Debug)]
pub enum ProcState {
    Unused,
    Embryo,
    Runnable,
    Running,
    Sleeping,
    Zombie,
}

/// The register snapshot captured when control enters the kernel: the
/// system-call number, up to four argument slots, one result slot, and the
/// interrupted program counter and stack pointer.
#[derive(Clone, Copy, PartialEq, Eq, Structural, Debug)]
pub struct TrapFrame {
    /// The trap number: which vector brought control into the kernel.
    pub vector: u64,
    pub op: u64,
    pub arg0: u64,
    pub arg1: u64,
    pub arg2: u64,
    pub arg3: u64,
    pub ret: u64,
    pub pc: u64,
    pub sp: u64,
}

impl TrapFrame {
    pub fn zeroed() -> (r: TrapFrame)
        ensures
            r == (TrapFrame {
                vector: 0,
                op: 0,
                arg0: 0,
                arg1: 0,
                arg2: 0,
                arg3: 0,
                ret: 0,
                pc: 0,
                sp: 0,
            }),
    {
        TrapFrame { vector: 0, op: 0, arg0: 0, arg1: 0, arg2: 0, arg3: 0, ret: 0, pc: 0, sp: 0 }
    }
}

/// The callee-saved register context used only while a process is not
/// running.
#[derive(Clone, Copy, PartialEq, Eq, Structural, Debug)]
pub struct Context {
    pub sp: u64,
    pub pc: u64,
}

/// The outcome of one `wait` step.
#[derive(Clone, Copy, PartialEq, Eq, Structural, Debug)]
pub enum WaitOutcome {
    /// A ZOMBIE child was reaped: its pid and exit status.
    Reaped { pid: u64, status: u64 },
    /// Children exist but none has exited; the caller went SLEEPING on its
    /// wait channel.
    Parked,
    /// The caller has no child; waiting would never end.
    NoChildren,
}

/// One process descriptor.
pub struct Proc {
    pub pid: u64,
    /// Weak back-reference to the parent's slot, never an owning link.
    pub parent: Option<usize>,
    pub state: ProcState,
    /// Wait channel; meaningful only while SLEEPING.
    pub chan: u64,
    /// Exit status; meaningful only once ZOMBIE.
    pub exit_status: u64,
    /// Exclusively owned address space.
    pub space: PageTable,
    /// Frame of the exclusively owned kernel stack; 0 when none.
    pub kstack: u64,
    /// Most recent user-mode register snapshot.
    pub tf: TrapFrame,
    /// Saved context; valid only while not RUNNING.
    pub ctx: Context,
}

/// The kernel core's shared state: one control block per core, the process
/// table and its lock, the physical page allocator, and the kernel's shared
/// address-space mappings.
pub struct Kernel {
    pub cpus: Vec<Cpu>,
    pub procs: Vec<Proc>,
    pub table_lock: SpinLock<()>,
    pub alloc: PageAllocator,
    pub kpgtbl: PageTable,
    pub next_pid: u64,
}

impl Kernel {
    /// Whether slot `i` holds a live (not UNUSED) process.
    pub open spec fn live(self, i: int) -> bool {
        self.procs@[i].state != ProcState::Unused
    }

    /// Whether the process in slot `i` owns physical frame `p`: its kernel
    /// stack, its address-space root, or a frame backing one of its user
    /// mappings.
    pub open spec fn slot_owns(self, i: int, p: u64) -> bool {
        self.procs@[i].space.owns_frame(p) || p == self.procs@[i].kstack
    }

    pub open spec fn cpus_wf(self) -> bool {
        &&& 1 <= self.cpus@.len() < 256
        &&& forall|c: int| 0 <= c < self.cpus@.len() ==> (#[trigger] self.cpus@[c]).id == c as u32
    }

    /// Exactly-one-RUNNING-per-core: a core's `current` process is RUNNING
    /// and in range; no two cores share a current process; every RUNNING
    /// process is current on some core.
    #[verifier::opaque]
    pub open spec fn running_ok(self) -> bool {
        &&& forall|c: int|
            0 <= c < self.cpus@.len() ==> match (#[trigger] self.cpus@[c]).current {
                Some(i) => i < NPROC && self.procs@[i as int].state == ProcState::Running,
                None => true,
            }
        &&& forall|c1: int, c2: int|
            0 <= c1 < self.cpus@.len() && 0 <= c2 < self.cpus@.len() && c1 != c2 && (
            #[trigger] self.cpus@[c1]).current is Some ==> self.cpus@[c1].current != (
            #[trigger] self.cpus@[c2]).current
        &&& forall|i: int|
            0 <= i < NPROC && (#[trigger] self.procs@[i]).state == ProcState::Running
                ==> exists|c: int|
                0 <= c < self.cpus@.len() && (#[trigger] self.cpus@[c]).current == Some(i as usize)
    }

    /// Frame accounting: every frame a live process owns is a managed frame
    /// off the free list, and no frame has two owners — neither two slots,
    /// nor two places within one slot. Together with the allocator's
    /// contract this is what makes a freshly allocated frame fresh.
    #[verifier::opaque]
    pub open spec fn frames_ok(self) -> bool {
        &&& forall|i: int, p: u64|
            0 <= i < NPROC && self.live(i) && #[trigger] self.slot_owns(i, p)
                ==> self.alloc.in_range(p) && !self.alloc.free_set().contains(p)
        &&& forall|i: int, j: int, p: u64|
            #![trigger self.slot_owns(i, p), self.slot_owns(j, p)]
            0 <= i < NPROC && 0 <= j < NPROC && i != j && self.live(i) && self.live(j) ==> !(
            self.slot_owns(i, p) && self.slot_owns(j, p))
        &&& forall|i: int|
            0 <= i < NPROC && self.live(i) ==> (#[trigger] self.procs@[i]).space.wf()
                && self.procs@[i].space.frames_distinct() && self.procs@[i].kstack != 0
                && self.procs@[i].space.root != 0 && !self.procs@[i].space.owns_frame(
                self.procs@[i].kstack,
            )
        &&& forall|i: int|
            0 <= i < NPROC && !self.live(i) ==> (#[trigger] self.procs@[i]).space.is_released()
                && self.procs@[i].kstack == 0
    }

    /// Live processes point at live, non-ZOMBIE parents, never at
    /// themselves; so reaping a slot can never leave a dangling parent link.
    #[verifier::opaque]
    pub open spec fn parents_ok(self) -> bool {
        forall|i: int|
            0 <= i < NPROC && self.live(i) ==> match (#[trigger] self.procs@[i]).parent {
                Some(pp) => pp < NPROC && pp != i && self.procs@[pp as int].state
                    != ProcState::Unused && self.procs@[pp as int].state != ProcState::Zombie,
                None => true,
            }
    }

    /// Pids of live processes are below the next pid to hand out, so a new
    /// pid is always fresh.
    #[verifier::opaque]
    pub open spec fn pids_ok(self) -> bool {
        forall|i: int|
            0 <= i < NPROC && self.live(i) ==> (#[trigger] self.procs@[i]).pid < self.next_pid
    }

    /// A live child's pid is strictly above its parent's: parenthood always
    /// points at an older process, so the parent relation can hold no cycle.
    #[verifier::opaque]
    pub open spec fn pid_order_ok(self) -> bool {
        forall|i: int, pp: int|
            #![trigger self.procs@[i].parent, self.procs@[pp].pid]
            0 <= i < NPROC && 0 <= pp < NPROC && self.live(i) && self.procs@[i].parent == Some(
                pp as usize,
            ) ==> self.procs@[pp].pid < self.procs@[i].pid
    }

    /// The kernel's shared mappings are identical in every live address
    /// space.
    #[verifier::opaque]
    pub open spec fn kernel_shared_ok(self) -> bool {
        forall|i: int, v: u64|
            #![trigger self.procs@[i].space.mappings().contains_key(v)]
            0 <= i < NPROC && self.live(i) && !crate::vm::is_user_vpn(v) ==> (
            self.procs@[i].space.mappings().contains_key(v) == self.kpgtbl.mappings().contains_key(
                v,
            ) && (self.procs@[i].space.mappings().contains_key(v)
                ==> self.procs@[i].space.mappings()[v] == self.kpgtbl.mappings()[v]))
    }

    pub open spec fn wf(self) -> bool {
        &&& self.procs@.len() == NPROC
        &&& self.cpus_wf()
        &&& self.running_ok()
        &&& self.frames_ok()
        &&& self.parents_ok()
        &&& self.pids_ok()
        &&& self.pid_order_ok()
        &&& self.kernel_shared_ok()
        &&& self.alloc.wf()
        &&& self.alloc.base > 0
        &&& self.kpgtbl.wf()
        &&& self.kpgtbl.kernel_only()
        &&& self.kpgtbl.root == 0
        &&& self.next_pid >= 1
    }

    /// A fresh kernel: `ncpu` cores (core 0, the boot core, already
    /// started), an empty process table, and an allocator managing `total`
    /// frames from `base` up. The kernel's shared mappings start empty and
    /// are installed with `kernel_map` before the first process is created.
    pub fn new(ncpu: usize, base: u64, total: u64) -> (r: Kernel)
        requires
            1 <= ncpu < 256,
            1 <= base,
            base + total <= u64::MAX,
            total <= usize::MAX,
        ensures
            r.wf(),
            r.cpus@.len() == ncpu,
            r.cpus@[0].started,
            forall|c: int|
                1 <= c < ncpu ==> !(#[trigger] r.cpus@[c]).started && r.cpus@[c].init_pulses == 0
                    && r.cpus@[c].startup_pulses == 0,
            forall|i: int| 0 <= i < NPROC ==> (#[trigger] r.procs@[i]).state == ProcState::Unused,
            r.alloc.base == base,
            r.alloc.total == total,
            r.alloc.free_count() == total,
            !r.table_lock.locked,
            r.next_pid == 1,
            r.kpgtbl.mappings() == Map::<u64, Pte>::empty(),
    {
        let mut cpus: Vec<Cpu> = Vec::new();
        let mut c: usize = 0;
        while c < ncpu
            invariant
                c <= ncpu,
                ncpu < 256,
                cpus@.len() == c,
                forall|k: int|
                    0 <= k < c ==> (#[trigger] cpus@[k]).id == k as u32 && cpus@[k].current is None
                        && (cpus@[k].started <==> k == 0) && cpus@[k].init_pulses == 0
                        && cpus@[k].startup_pulses == 0,
            decreases ncpu - c,
        {
            let mut cpu = Cpu::init(c as u32);
            if c == 0 {
                cpu.started = true;
            }
            cpus.push(cpu);
            c = c + 1;
        }
        let mut procs: Vec<Proc> = Vec::new();
        let mut i: usize = 0;
        while i < NPROC
            invariant
                i <= NPROC,
                procs@.len() == i,
                forall|k: int|
                    0 <= k < i ==> (#[trigger] procs@[k]).state == ProcState::Unused
                        && procs@[k].space.is_released() && procs@[k].kstack == 0 && procs@[k].pid
                        == 0,
            decreases NPROC - i,
        {
            let p = Proc {
                pid: 0,
                parent: None,
                state: ProcState::Unused,
                chan: 0,
                exit_status: 0,
                space: PageTable::empty(),
                kstack: 0,
                tf: TrapFrame::zeroed(),
                ctx: Context { sp: 0, pc: 0 },
            };
            procs.push(p);
            i = i + 1;
        }
        let r = Kernel {
            cpus,
            procs,
            table_lock: SpinLock::new(()),
            alloc: PageAllocator::new(base, total),
            kpgtbl: PageTable::empty(),
            next_pid: 1,
        };
        proof {
            assert(r.running_ok()) by {
                reveal(Kernel::running_ok);
            }
            assert(r.frames_ok()) by {
                reveal(Kernel::frames_ok);
            }
            assert(r.parents_ok()) by {
                reveal(Kernel::parents_ok);
            }
            assert(r.pids_ok()) by {
                reveal(Kernel::pids_ok);
            }
            assert(r.pid_order_ok()) by {
                reveal(Kernel::pid_order_ok);
            }
            assert(r.kernel_shared_ok()) by {
                reveal(Kernel::kernel_shared_ok);
            }
        }
        r
    }

    /// Installs one shared kernel mapping, at boot, before any process
    /// exists. The aliased frame lies outside the allocator's managed pool.
    #[verifier::rlimit(100)]
    pub fn kernel_map(&mut self, vpn: u64, pfn: u64, perm: crate::vm::Perm) -> (r: Result<
        (),
        KernelError,
    >)
        requires
            old(self).wf(),
            !crate::vm::is_user_vpn(vpn),
            !old(self).alloc.in_range(pfn),
            forall|i: int| 0 <= i < NPROC ==> !old(self).live(i),
        ensures
            final(self).wf(),
            forall|i: int| 0 <= i < NPROC ==> !final(self).live(i),
            final(self).procs@ == old(self).procs@,
            final(self).cpus@ == old(self).cpus@,
            final(self).alloc.free_list@ == old(self).alloc.free_list@,
            final(self).table_lock == old(self).table_lock,
            match r {
                Ok(()) => {
                    &&& !old(self).kpgtbl.mappings().contains_key(vpn)
                    &&& final(self).kpgtbl.mappings() == old(self).kpgtbl.mappings().insert(
                        vpn,
                        (Pte { vpn, pfn, perm }),
                    )
                },
                Err(e) => {
                    &&& e == KernelError::AlreadyMapped
                    &&& old(self).kpgtbl.mappings().contains_key(vpn)
                    &&& final(self).kpgtbl.entries@ == old(self).kpgtbl.entries@
                },
            },
    {
        let r = self.kpgtbl.map(vpn, pfn, perm);
        proof {
            let pre = *old(self);
            let post = *self;
            assert forall|i: int|
                0 <= i < post.kpgtbl.entries@.len() implies !crate::vm::is_user_vpn(
                #[trigger] post.kpgtbl.entries@[i].vpn,
            ) by {
                if i < pre.kpgtbl.entries@.len() {
                    assert(!crate::vm::is_user_vpn(pre.kpgtbl.entries@[i].vpn));
                }
            }
            assert(post.procs@ == pre.procs@);
            assert(post.cpus@ == pre.cpus@);
            assert(post.alloc == pre.alloc);
            assert forall|i: int| 0 <= i < NPROC implies !post.live(i) by {
                assert(!pre.live(i));
            }
            assert(post.cpus_wf()) by {
                assert forall|c: int| 0 <= c < post.cpus@.len() implies (
                #[trigger] post.cpus@[c]).id == c as u32 by {
                    assert(pre.cpus@[c].id == c as u32);
                }
            }
            assert(post.running_ok()) by {
                reveal(Kernel::running_ok);
                assert forall|c: int|
                    0 <= c < post.cpus@.len() implies match (#[trigger] post.cpus@[c]).current {
                    Some(i) => i < NPROC && post.procs@[i as int].state == ProcState::Running,
                    None => true,
                } by {
                    assert(pre.running_ok());
                    assert(post.cpus@[c] == pre.cpus@[c]);
                }
                assert forall|i: int|
                    0 <= i < NPROC && (#[trigger] post.procs@[i]).state
                        == ProcState::Running implies exists|c: int|
                    0 <= c < post.cpus@.len() && (#[trigger] post.cpus@[c]).current == Some(
                        i as usize,
                    ) by {
                    assert(!post.live(i));
                }
            }
            assert(post.frames_ok()) by {
                reveal(Kernel::frames_ok);
                assert forall|i: int| 0 <= i < NPROC implies !post.live(i) && (
                #[trigger] post.procs@[i]).space.is_released() && post.procs@[i].kstack == 0 by {
                    assert(!pre.live(i));
                    assert(post.procs@[i] == pre.procs@[i]);
                }
            }
            assert(post.parents_ok()) by {
                reveal(Kernel::parents_ok);
                assert forall|i: int| 0 <= i < NPROC implies !post.live(i) by {
                    assert(!pre.live(i));
                }
            }
            assert(post.pids_ok()) by {
                reveal(Kernel::pids_ok);
                assert forall|i: int| 0 <= i < NPROC implies !post.live(i) by {
                    assert(!pre.live(i));
                }
            }
            assert(post.pid_order_ok()) by {
                reveal(Kernel::pid_order_ok);
                assert forall|i: int| 0 <= i < NPROC implies !post.live(i) by {
                    assert(!pre.live(i));
                }
            }
            assert(post.kernel_shared_ok()) by {
                reveal(Kernel::kernel_shared_ok);
                assert forall|i: int| 0 <= i < NPROC implies !post.live(i) by {
                    assert(!pre.live(i));
                }
            }
            assert(post.wf());
        }
        r
    }

    /// The first UNUSED slot at or after `i`, in scan order.
    pub open spec fn first_unused(s: Seq<Proc>, i: int) -> Option<int>
        decreases s.len() - i,
    {
        if i < 0 || i >= s.len() {
            None
        } else if s[i].state == ProcState::Unused {
            Some(i)
        } else {
            Self::first_unused(s, i + 1)
        }
    }

    /// Creates a process: takes the first UNUSED slot in scan order, builds
    /// it a fresh address space (the kernel's shared mappings plus a newly
    /// allocated root frame) and a kernel stack, primes its context, and
    /// marks it RUNNABLE — EMBRYO is the slot's state between those two
    /// steps, internal to this one atomic step — with a fresh pid. The new
    /// process's parent is whatever process runs on the calling core; none
    /// during boot. Reports `TableFull` — and changes nothing — exactly
    /// when no slot is free, and `OutOfMemory` when a slot is free but
    /// fewer than two frames are.
    #[verifier::rlimit(100)]
    pub fn create(&mut self, cpu_id: usize) -> (r: Result<usize, KernelError>)
        requires
            old(self).wf(),
            cpu_id < old(self).cpus@.len(),
            !old(self).table_lock.locked,
            old(self).next_pid < u64::MAX,
        ensures
            final(self).wf(),
            final(self).cpus@ == old(self).cpus@,
            final(self).table_lock == old(self).table_lock,
            final(self).kpgtbl == old(self).kpgtbl,
            match r {
                Ok(p) => {
                    &&& Kernel::first_unused(old(self).procs@, 0) == Some(p as int)
                    &&& p < NPROC
                    &&& old(self).procs@[p as int].state == ProcState::Unused
                    &&& old(self).alloc.free_count() >= 2
                    &&& final(self).next_pid == old(self).next_pid + 1
                    &&& final(self).alloc.free_count() == old(self).alloc.free_count() - 2
                    &&& final(self).procs@.len() == NPROC
                    &&& (forall|i: int|
                        0 <= i < NPROC && i != p ==> final(self).procs@[i] == old(
                            self,
                        ).procs@[i])
                    &&& final(self).procs@[p as int].state == ProcState::Runnable
                    &&& final(self).procs@[p as int].pid == old(self).next_pid
                    &&& final(self).procs@[p as int].parent == old(
                        self,
                    ).cpus@[cpu_id as int].current
                    &&& final(self).procs@[p as int].space.mappings() == old(
                        self,
                    ).kpgtbl.mappings()
                    &&& final(self).procs@[p as int].kstack != 0
                },
                Err(e) => {
                    &&& final(self).procs@ == old(self).procs@
                    &&& final(self).next_pid == old(self).next_pid
                    &&& final(self).alloc.free_list@ == old(self).alloc.free_list@
                    &&& (e == KernelError::TableFull || e == KernelError::OutOfMemory)
                    &&& (e == KernelError::TableFull <==> Kernel::first_unused(
                        old(self).procs@,
                        0,
                    ) is None)
                    &&& (e == KernelError::OutOfMemory <==> Kernel::first_unused(
                        old(self).procs@,
                        0,
                    ) is Some && old(self).alloc.free_count() < 2)
                },
            },
    {
        let mut slot: usize = NPROC;
        let mut i: usize = 0;
        while i < NPROC && slot == NPROC
            invariant
                i <= NPROC,
                slot <= NPROC,
                self.procs@.len() == NPROC,
                self.procs@ == old(self).procs@,
                slot == NPROC ==> Kernel::first_unused(old(self).procs@, 0)
                    == Kernel::first_unused(old(self).procs@, i as int),
                slot < NPROC ==> Kernel::first_unused(old(self).procs@, 0) == Some(slot as int)
                    && old(self).procs@[slot as int].state == ProcState::Unused,
            decreases NPROC - i + (if slot == NPROC { 1int } else { 0int }),
        {
            if self.procs[i].state == ProcState::Unused {
                slot = i;
            } else {
                i = i + 1;
            }
        }
        if slot == NPROC {
            return Err(KernelError::TableFull);
        }
        if self.alloc.free_pages() < 2 {
            return Err(KernelError::OutOfMemory);
        }
        let ghost pre = *old(self);
        let space = match new_kernel_space(&mut self.alloc, &self.kpgtbl) {
            Ok(t) => t,
            Err(_) => {
                proof {
                    assert(false);
                }
                return Err(KernelError::OutOfMemory);
            },
        };
        let kstack = match self.alloc.allocate() {
            Ok(f) => f,
            Err(_) => {
                proof {
                    assert(false);
                }
                return Err(KernelError::OutOfMemory);
            },
        };
        proof {
            let mid = *self;
            assert forall|p: u64|
                #[trigger] mid.alloc.free_set().contains(p) implies pre.alloc.free_set().contains(
                p,
            ) by {}
            lemma_alloc_shrink(pre, mid);
            assert(!pre.alloc.free_set().contains(0)) by {
                reveal(Kernel::frames_ok);
                if pre.alloc.free_set().contains(0) {
                    assert(pre.alloc.in_range(0));
                }
            }
            assert forall|i2: int|
                0 <= i2 < NPROC && mid.live(i2) implies !(#[trigger] mid.slot_owns(
                i2,
                space.root,
            )) by {
                reveal(Kernel::frames_ok);
                assert(pre.live(i2));
                if mid.slot_owns(i2, space.root) {
                    assert(pre.slot_owns(i2, space.root));
                    assert(!pre.alloc.free_set().contains(space.root));
                }
            }
            assert forall|i2: int|
                0 <= i2 < NPROC && mid.live(i2) implies !(#[trigger] mid.slot_owns(
                i2,
                kstack,
            )) by {
                reveal(Kernel::frames_ok);
                assert(pre.live(i2));
                if mid.slot_owns(i2, kstack) {
                    assert(pre.slot_owns(i2, kstack));
                    assert(!pre.alloc.free_set().contains(kstack));
                }
            }
            assert(space.root != 0 && kstack != 0) by {
                assert(pre.alloc.free_set().contains(space.root));
                assert(pre.alloc.free_set().contains(kstack));
            }
        }
        let r = self.install_slot(cpu_id, slot, space, kstack);
        Ok(r)
    }

    /// Completes creation: installs a freshly built address space and stack
    /// into the UNUSED slot `slot`, whose process turns RUNNABLE under the
    /// next pid. The frames handed in are off the free list and owned by no
    /// live process.
    #[verifier::rlimit(100)]
    fn install_slot(&mut self, cpu_id: usize, slot: usize, space: PageTable, kstack: u64) -> (r:
        usize)
        requires
            old(self).wf(),
            cpu_id < old(self).cpus@.len(),
            slot < NPROC,
            old(self).procs@[slot as int].state == ProcState::Unused,
            old(self).next_pid < u64::MAX,
            space.wf(),
            space.frames_distinct(),
            forall|p: u64| space.owns_frame(p) <==> p == space.root,
            space.mappings() == old(self).kpgtbl.mappings(),
            old(self).alloc.in_range(space.root),
            !old(self).alloc.free_set().contains(space.root),
            old(self).alloc.in_range(kstack),
            !old(self).alloc.free_set().contains(kstack),
            kstack != space.root,
            kstack != 0,
            space.root != 0,
            forall|i: int|
                0 <= i < NPROC && old(self).live(i) ==> !(#[trigger] old(self).slot_owns(
                    i,
                    space.root,
                )),
            forall|i: int|
                0 <= i < NPROC && old(self).live(i) ==> !(#[trigger] old(self).slot_owns(
                    i,
                    kstack,
                )),
        ensures
            final(self).wf(),
            r == slot,
            final(self).cpus@ == old(self).cpus@,
            final(self).table_lock == old(self).table_lock,
            final(self).kpgtbl == old(self).kpgtbl,
            final(self).alloc == old(self).alloc,
            final(self).next_pid == old(self).next_pid + 1,
            final(self).procs@.len() == NPROC,
            forall|i: int| 0 <= i < NPROC && i != slot ==> final(self).procs@[i] == old(self).procs@[i],
            final(self).procs@[slot as int].state == ProcState::Runnable,
            final(self).procs@[slot as int].pid == old(self).next_pid,
            final(self).procs@[slot as int].parent == old(self).cpus@[cpu_id as int].current,
            final(self).procs@[slot as int].space.mappings() == old(self).kpgtbl.mappings(),
            final(self).procs@[slot as int].kstack == kstack,
    {
        let pid = self.next_pid;
        self.next_pid = self.next_pid + 1;
        let parent = self.cpus[cpu_id].current;
        proof {
            if parent is Some {
                let pq = parent->0;
                assert(pq < NPROC && old(self).procs@[pq as int].state == ProcState::Running) by {
                    reveal(Kernel::running_ok);
                }
                assert(old(self).procs@[pq as int].pid < old(self).next_pid) by {
                    reveal(Kernel::pids_ok);
                    assert(old(self).live(pq as int));
                }
            }
        }
        let ghost root = space.root;
        let pr = &mut self.procs[slot];
        pr.pid = pid;
        pr.parent = parent;
        pr.state = ProcState::Runnable;
        pr.chan = 0;
        pr.exit_status = 0;
        pr.space = space;
        pr.kstack = kstack;
        pr.tf = TrapFrame::zeroed();
        pr.ctx = Context { sp: 0, pc: 0 };
        proof {
            lemma_install_slot_wf(*old(self), *self, cpu_id as int, slot as int, root, kstack);
        }
        slot
    }

    /// The current process terminates with `status`: its children are
    /// handed to its own parent (an ancestor — orphans never point at a
    /// freed slot), the parent is woken if it sleeps on its wait channel,
    /// and the process turns ZOMBIE, keeping its address space and stack
    /// until the parent reaps it. It never runs again; control passes to
    /// the core's scheduler context. The root process (no parent) never
    /// exits.
    #[verifier::rlimit(100)]
    pub fn exit(&mut self, cpu_id: usize, status: u64)
        requires
            old(self).wf(),
            cpu_id < old(self).cpus@.len(),
            old(self).cpus@[cpu_id as int].current is Some,
            old(self).procs@[old(self).cpus@[cpu_id as int].current->0 as int].parent is Some,
            !old(self).table_lock.locked,
        ensures
            final(self).wf(),
            final(self).table_lock == old(self).table_lock,
            final(self).alloc == old(self).alloc,
            final(self).kpgtbl == old(self).kpgtbl,
            final(self).next_pid == old(self).next_pid,
            ({
                let p = old(self).cpus@[cpu_id as int].current->0 as int;
                let pp = old(self).procs@[p].parent->0 as int;
                &&& final(self).cpus@ == old(self).cpus@.update(
                    cpu_id as int,
                    (Cpu { current: None, ..old(self).cpus@[cpu_id as int] }),
                )
                &&& final(self).procs@.len() == NPROC
                &&& final(self).procs@[p] == (Proc {
                    state: ProcState::Zombie,
                    exit_status: status,
                    ..old(self).procs@[p]
                })
                &&& (forall|i: int|
                    0 <= i < NPROC && i != p ==> (#[trigger] final(self).procs@[i]).state == (
                    if i == pp && old(self).procs@[pp].state == ProcState::Sleeping && old(
                        self,
                    ).procs@[pp].chan == wait_chan_of(pp) {
                        ProcState::Runnable
                    } else {
                        old(self).procs@[i].state
                    }))
                &&& (forall|i: int|
                    0 <= i < NPROC && i != p ==> (#[trigger] final(self).procs@[i]).parent == (
                    if old(self).procs@[i].parent == Some(p as usize) {
                        Some(pp as usize)
                    } else {
                        old(self).procs@[i].parent
                    }))
                &&& (forall|i: int|
                    0 <= i < NPROC && i != p ==> (#[trigger] final(self).procs@[i]).pid == old(
                        self,
                    ).procs@[i].pid && final(self).procs@[i].space == old(self).procs@[i].space
                        && final(self).procs@[i].kstack == old(self).procs@[i].kstack
                        && final(self).procs@[i].chan == old(self).procs@[i].chan
                        && final(self).procs@[i].exit_status == old(self).procs@[i].exit_status
                        && final(self).procs@[i].tf == old(self).procs@[i].tf
                        && final(self).procs@[i].ctx == old(self).procs@[i].ctx)
            }),
    {
        let p = match self.cpus[cpu_id].current {
            Some(p) => p,
            None => { return ; },
        };
        proof {
            assert(p < NPROC && self.procs@[p as int].state == ProcState::Running) by {
                reveal(Kernel::running_ok);
            }
        }
        let pp = match self.procs[p].parent {
            Some(pp) => pp,
            None => { return ; },
        };
        proof {
            assert(pp < NPROC && pp != p && self.procs@[pp as int].state != ProcState::Unused
                && self.procs@[pp as int].state != ProcState::Zombie) by {
                reveal(Kernel::parents_ok);
            }
            assert(self.procs@[pp as int].pid < self.procs@[p as int].pid) by {
                reveal(Kernel::pid_order_ok);
            }
        }
        let mut i: usize = 0;
        while i < NPROC
            invariant
                i <= NPROC,
                old(self).wf(),
                p < NPROC,
                pp < NPROC,
                p != pp,
                old(self).procs@[p as int].parent == Some(pp),
                old(self).procs@[p as int].state == ProcState::Running,
                old(self).procs@[pp as int].state != ProcState::Unused,
                old(self).procs@[pp as int].state != ProcState::Zombie,
                old(self).procs@[pp as int].pid < old(self).procs@[p as int].pid,
                self.cpus@ == old(self).cpus@,
                self.table_lock == old(self).table_lock,
                self.alloc == old(self).alloc,
                self.kpgtbl == old(self).kpgtbl,
                self.next_pid == old(self).next_pid,
                self.procs@.len() == NPROC,
                forall|j: int|
                    0 <= j < NPROC && (i <= j || j == p as int || old(self).procs@[j].parent
                        != Some(p)) ==> self.procs@[j] == old(self).procs@[j],
                forall|j: int|
                    0 <= j < i && j != p as int && old(self).procs@[j].parent == Some(p)
                        ==> self.procs@[j] == (Proc {
                        parent: Some(pp),
                        ..old(self).procs@[j]
                    }),
            decreases NPROC - i,
        {
            if i != p {
                let reparent = match self.procs[i].parent {
                    Some(q) => q == p,
                    None => false,
                };
                if reparent {
                    let pr = &mut self.procs[i];
                    pr.parent = Some(pp);
                }
            }
            i = i + 1;
        }
        let wchan = WAIT_CHAN_BASE + (pp as u64);
        let wake_parent = self.procs[pp].state == ProcState::Sleeping && self.procs[pp].chan
            == wchan;
        if wake_parent {
            let pr = &mut self.procs[pp];
            pr.state = ProcState::Runnable;
        }
        let pr = &mut self.procs[p];
        pr.state = ProcState::Zombie;
        pr.exit_status = status;
        let c = &mut self.cpus[cpu_id];
        c.current = None;
        proof {
            let pre = *old(self);
            let post = *self;
            assert(post.cpus@ =~= pre.cpus@.update(
                cpu_id as int,
                (Cpu { current: None, ..pre.cpus@[cpu_id as int] }),
            ));
            lemma_exit_wf(pre, post, cpu_id as int, p, pp, status, wake_parent);
        }
    }

    /// The first ZOMBIE child of the process in slot `p`, at or after `i`,
    /// in scan order.
    pub open spec fn first_zombie_child(s: Seq<Proc>, p: usize, i: int) -> Option<int>
        decreases s.len() - i,
    {
        if i < 0 || i >= s.len() {
            None
        } else if s[i].parent == Some(p) && s[i].state == ProcState::Zombie {
            Some(i)
        } else {
            Self::first_zombie_child(s, p, i + 1)
        }
    }

    /// Whether any live process is a child of the process in slot `p`.
    pub open spec fn has_child(s: Seq<Proc>, p: usize) -> bool {
        exists|i: int|
            0 <= i < s.len() && (#[trigger] s[i]).state != ProcState::Unused && s[i].parent
                == Some(p)
    }

    /// The caller — the process running on `cpu_id` — waits for a child to
    /// exit. The first ZOMBIE child in scan order is reaped: its address
    /// space and kernel stack go back to the allocator, its slot turns
    /// UNUSED and reusable, and its pid and exit status come back. With
    /// children but none ZOMBIE yet, the caller parks SLEEPING on its own
    /// wait channel — `exit` wakes it — and retries when scheduled again.
    /// With no children at all nothing changes: waiting would never end.
    #[verifier::rlimit(100)]
    pub fn wait(&mut self, cpu_id: usize) -> (r: WaitOutcome)
        requires
            old(self).wf(),
            cpu_id < old(self).cpus@.len(),
            old(self).cpus@[cpu_id as int].current is Some,
            !old(self).table_lock.locked,
        ensures
            final(self).wf(),
            final(self).table_lock == old(self).table_lock,
            final(self).kpgtbl == old(self).kpgtbl,
            final(self).next_pid == old(self).next_pid,
            ({
                let p = old(self).cpus@[cpu_id as int].current->0;
                match r {
                    WaitOutcome::Reaped { pid, status } => {
                        let j = Kernel::first_zombie_child(old(self).procs@, p, 0)->0;
                        &&& Kernel::first_zombie_child(old(self).procs@, p, 0) is Some
                        &&& pid == old(self).procs@[j].pid
                        &&& status == old(self).procs@[j].exit_status
                        &&& final(self).cpus@ == old(self).cpus@
                        &&& final(self).procs@.len() == NPROC
                        &&& (forall|i: int|
                            0 <= i < NPROC && i != j ==> final(self).procs@[i] == old(
                                self,
                            ).procs@[i])
                        &&& final(self).procs@[j].state == ProcState::Unused
                        &&& final(self).procs@[j].space.is_released()
                        &&& final(self).procs@[j].kstack == 0
                        &&& (forall|q: u64|
                            final(self).alloc.free_set().contains(q) <==> old(
                                self,
                            ).alloc.free_set().contains(q) || old(self).slot_owns(j, q))
                        &&& final(self).alloc.free_count() == old(self).alloc.free_count() + 2
                            + crate::vm::user_count(old(self).procs@[j].space.entries@)
                    },
                    WaitOutcome::Parked => {
                        &&& Kernel::first_zombie_child(old(self).procs@, p, 0) is None
                        &&& Kernel::has_child(old(self).procs@, p)
                        &&& final(self).procs@ == old(self).procs@.update(
                            p as int,
                            (Proc {
                                state: ProcState::Sleeping,
                                chan: wait_chan_of(p as int),
                                ..old(self).procs@[p as int]
                            }),
                        )
                        &&& final(self).cpus@ == old(self).cpus@.update(
                            cpu_id as int,
                            (Cpu { current: None, ..old(self).cpus@[cpu_id as int] }),
                        )
                        &&& final(self).alloc.free_list@ == old(self).alloc.free_list@
                    },
                    WaitOutcome::NoChildren => {
                        &&& Kernel::first_zombie_child(old(self).procs@, p, 0) is None
                        &&& !Kernel::has_child(old(self).procs@, p)
                        &&& final(self).procs@ == old(self).procs@
                        &&& final(self).cpus@ == old(self).cpus@
                        &&& final(self).alloc.free_list@ == old(self).alloc.free_list@
                    },
                }
            }),
    {
        let p = match self.cpus[cpu_id].current {
            Some(p) => p,
            None => { return WaitOutcome::NoChildren; },
        };
        proof {
            assert(p < NPROC && self.procs@[p as int].state == ProcState::Running) by {
                reveal(Kernel::running_ok);
            }
        }
        let mut zombie: usize = NPROC;
        let mut any_child: bool = false;
        let mut i: usize = 0;
        while i < NPROC && zombie == NPROC
            invariant
                i <= NPROC,
                zombie <= NPROC,
                self.procs@.len() == NPROC,
                self.procs@ == old(self).procs@,
                zombie == NPROC ==> Kernel::first_zombie_child(old(self).procs@, p, 0)
                    == Kernel::first_zombie_child(old(self).procs@, p, i as int),
                zombie < NPROC ==> Kernel::first_zombie_child(old(self).procs@, p, 0) == Some(
                    zombie as int,
                ) && old(self).procs@[zombie as int].parent == Some(p) && old(
                    self,
                ).procs@[zombie as int].state == ProcState::Zombie,
                any_child ==> Kernel::has_child(old(self).procs@, p),
                !any_child ==> forall|k: int|
                    0 <= k < i ==> !((#[trigger] old(self).procs@[k]).state != ProcState::Unused
                        && old(self).procs@[k].parent == Some(p)),
            decreases NPROC - i + (if zombie == NPROC { 1int } else { 0int }),
        {
            let is_child = match self.procs[i].parent {
                Some(q) => q == p && self.procs[i].state != ProcState::Unused,
                None => false,
            };
            if is_child {
                any_child = true;
                if self.procs[i].state == ProcState::Zombie {
                    zombie = i;
                } else {
                    i = i + 1;
                }
            } else {
                i = i + 1;
            }
        }
        if zombie < NPROC {
            let j = zombie;
            let pid = self.procs[j].pid;
            let status = self.procs[j].exit_status;
            let ghost pre = *old(self);
            proof {
                reveal(Kernel::frames_ok);
                assert(pre.live(j as int));
                assert forall|q: u64|
                    #[trigger] pre.procs@[j as int].space.owns_frame(q) implies pre.alloc.in_range(
                    q,
                ) && !pre.alloc.free_set().contains(q) by {
                    assert(pre.slot_owns(j as int, q));
                }
                assert(!pre.procs@[j as int].space.owns_frame(pre.procs@[j as int].kstack));
                assert(pre.slot_owns(j as int, pre.procs@[j as int].kstack));
            }
            let pr = &mut self.procs[j];
            pr.space.release(&mut self.alloc);
            let kstack = pr.kstack;
            pr.kstack = 0;
            pr.parent = None;
            pr.state = ProcState::Unused;
            self.alloc.free(kstack);
            proof {
                let post = *self;
                assert forall|q: u64|
                    #![trigger post.alloc.free_set().contains(q)]
                    post.alloc.free_set().contains(q) <==> pre.alloc.free_set().contains(q)
                        || pre.slot_owns(j as int, q) by {
                    if q == kstack {
                        assert(pre.slot_owns(j as int, q));
                    }
                    if pre.procs@[j as int].space.owns_frame(q) {
                        assert(pre.slot_owns(j as int, q));
                    }
                    if pre.slot_owns(j as int, q) && q != kstack {
                        assert(pre.procs@[j as int].space.owns_frame(q));
                    }
                }
                lemma_reap_wf(pre, post, j as int);
            }
            WaitOutcome::Reaped { pid, status }
        } else if any_child {
            let pr = &mut self.procs[p];
            pr.state = ProcState::Sleeping;
            pr.chan = WAIT_CHAN_BASE + (p as u64);
            let c = &mut self.cpus[cpu_id];
            c.current = None;
            proof {
                let pre = *old(self);
                let post = *self;
                assert(post.procs@ =~= pre.procs@.update(
                    p as int,
                    (Proc {
                        state: ProcState::Sleeping,
                        chan: wait_chan_of(p as int),
                        ..pre.procs@[p as int]
                    }),
                ));
                assert(post.cpus@ =~= pre.cpus@.update(
                    cpu_id as int,
                    (Cpu { current: None, ..pre.cpus@[cpu_id as int] }),
                ));
                lemma_state_only_transfer(pre, post);
                lemma_pid_order_transfer(pre, post);
                lemma_park_running(pre, post, cpu_id as int, p);
            }
            WaitOutcome::Parked
        } else {
            proof {
                let pre = *old(self);
                let post = *self;
                lemma_state_only_transfer(pre, post);
                lemma_pid_order_transfer(pre, post);
                lemma_running_transfer(pre, post);
            }
            WaitOutcome::NoChildren
        }
    }

    /// Acquires sleep-style lock `sl` for the process running on `cpu_id`.
    /// A free lock is taken at once and the caller keeps running (`true`).
    /// A held lock parks the caller SLEEPING on the lock's wait channel
    /// (`false`); the holder's release wakes the channel and the caller,
    /// once scheduled again, retries. The brief spin protecting the flag is
    /// inside this atomic step.
    pub fn acquire_sleep_lock(&mut self, cpu_id: usize, sl: &mut SleepLock) -> (r: bool)
        requires
            old(self).wf(),
            cpu_id < old(self).cpus@.len(),
            old(self).cpus@[cpu_id as int].current is Some,
            !old(self).table_lock.locked,
        ensures
            final(self).wf(),
            final(self).table_lock == old(self).table_lock,
            final(self).alloc == old(self).alloc,
            final(self).kpgtbl == old(self).kpgtbl,
            final(self).next_pid == old(self).next_pid,
            ({
                let p = old(self).cpus@[cpu_id as int].current->0;
                if old(sl).locked {
                    &&& r == false
                    &&& *final(sl) == *old(sl)
                    &&& final(self).procs@ == old(self).procs@.update(
                        p as int,
                        (Proc {
                            state: ProcState::Sleeping,
                            chan: old(sl).chan,
                            ..old(self).procs@[p as int]
                        }),
                    )
                    &&& final(self).cpus@ == old(self).cpus@.update(
                        cpu_id as int,
                        (Cpu { current: None, ..old(self).cpus@[cpu_id as int] }),
                    )
                } else {
                    &&& r == true
                    &&& *final(sl) == (SleepLock {
                        locked: true,
                        owner_pid: old(self).procs@[p as int].pid,
                        ..*old(sl)
                    })
                    &&& final(self).procs@ == old(self).procs@
                    &&& final(self).cpus@ == old(self).cpus@
                }
            }),
    {
        let p = match self.cpus[cpu_id].current {
            Some(p) => p,
            None => { return false; },
        };
        proof {
            assert(p < NPROC && self.procs@[p as int].state == ProcState::Running) by {
                reveal(Kernel::running_ok);
            }
        }
        if sl.locked {
            let chan = sl.chan;
            let pr = &mut self.procs[p];
            pr.state = ProcState::Sleeping;
            pr.chan = chan;
            let c = &mut self.cpus[cpu_id];
            c.current = None;
            proof {
                let pre = *old(self);
                let post = *self;
                assert(post.procs@ =~= pre.procs@.update(
                    p as int,
                    (Proc {
                        state: ProcState::Sleeping,
                        chan: old(sl).chan,
                        ..pre.procs@[p as int]
                    }),
                ));
                assert(post.cpus@ =~= pre.cpus@.update(
                    cpu_id as int,
                    (Cpu { current: None, ..pre.cpus@[cpu_id as int] }),
                ));
                lemma_state_only_transfer(pre, post);
                lemma_pid_order_transfer(pre, post);
                lemma_park_running(pre, post, cpu_id as int, p);
            }
            false
        } else {
            sl.locked = true;
            sl.owner_pid = self.procs[p].pid;
            true
        }
    }

    /// Releases sleep-style lock `sl` — held by the calling process — and
    /// wakes every process sleeping on the lock's wait channel, handing the
    /// lock on. Releasing a lock nobody holds is a fatal error, excluded
    /// here.
    pub fn release_sleep_lock(&mut self, sl: &mut SleepLock)
        requires
            old(self).wf(),
            old(sl).locked,
            !old(self).table_lock.locked,
        ensures
            final(self).wf(),
            final(self).cpus@ == old(self).cpus@,
            final(self).table_lock == old(self).table_lock,
            final(self).alloc == old(self).alloc,
            final(self).kpgtbl == old(self).kpgtbl,
            final(self).next_pid == old(self).next_pid,
            *final(sl) == (SleepLock { locked: false, ..*old(sl) }),
            forall|i: int|
                0 <= i < NPROC ==> final(self).procs@[i] == (if old(self).procs@[i].state
                    == ProcState::Sleeping && old(self).procs@[i].chan == old(sl).chan {
                    (Proc { state: ProcState::Runnable, ..old(self).procs@[i] })
                } else {
                    old(self).procs@[i]
                }),
    {
        sl.locked = false;
        let chan = sl.chan;
        self.wake_on(chan);
    }

    /// Replaces the address space of the process running on `cpu_id`
    /// wholesale — the operation behind loading a new program image. The
    /// fresh space (the kernel's shared mappings plus `n` user pages from
    /// `vpn` up, each on a newly allocated frame with permissions `perm`)
    /// is built and verified to fit first; only then are the old mappings
    /// torn down and their frames freed. Reports `OutOfMemory` — and
    /// changes nothing — exactly when fewer than one plus `n` frames are
    /// free.
    #[verifier::rlimit(100)]
    pub fn replace_space(&mut self, cpu_id: usize, vpn: u64, n: usize, perm: crate::vm::Perm) -> (r:
        Result<(), KernelError>)
        requires
            old(self).wf(),
            cpu_id < old(self).cpus@.len(),
            old(self).cpus@[cpu_id as int].current is Some,
            !old(self).table_lock.locked,
            vpn + n <= crate::vm::KERNEL_VPN_BASE,
        ensures
            final(self).wf(),
            final(self).cpus@ == old(self).cpus@,
            final(self).table_lock == old(self).table_lock,
            final(self).kpgtbl == old(self).kpgtbl,
            final(self).next_pid == old(self).next_pid,
            ({
                let p = old(self).cpus@[cpu_id as int].current->0 as int;
                match r {
                    Ok(()) => {
                        &&& old(self).alloc.free_count() >= 1 + n
                        &&& final(self).procs@.len() == NPROC
                        &&& (forall|i: int|
                            0 <= i < NPROC && i != p ==> final(self).procs@[i] == old(
                                self,
                            ).procs@[i])
                        &&& final(self).procs@[p] == (Proc {
                            space: final(self).procs@[p].space,
                            ..old(self).procs@[p]
                        })
                        &&& (forall|v: u64|
                            #![trigger final(self).procs@[p].space.mappings().contains_key(v)]
                            final(self).procs@[p].space.mappings().contains_key(v) <==> old(
                                self,
                            ).kpgtbl.mappings().contains_key(v) || (vpn <= v < vpn + n))
                        &&& (forall|v: u64|
                            old(self).kpgtbl.mappings().contains_key(v)
                                ==> final(self).procs@[p].space.mappings()[v]
                                == old(self).kpgtbl.mappings()[v])
                        &&& (forall|v: u64|
                            vpn <= v < vpn + n ==> (
                            #[trigger] final(self).procs@[p].space.mappings()[v]).vpn == v
                                && final(self).procs@[p].space.mappings()[v].perm == perm)
                        &&& final(self).alloc.free_count() + 1 + n == old(self).alloc.free_count()
                            + 1 + crate::vm::user_count(old(self).procs@[p].space.entries@)
                    },
                    Err(e) => {
                        &&& e == KernelError::OutOfMemory
                        &&& old(self).alloc.free_count() < 1 + n
                        &&& final(self).procs@ == old(self).procs@
                        &&& final(self).alloc.free_list@ == old(self).alloc.free_list@
                    },
                }
            }),
    {
        let p = match self.cpus[cpu_id].current {
            Some(p) => p,
            None => { return Err(KernelError::OutOfMemory); },
        };
        proof {
            assert(p < NPROC && self.procs@[p as int].state == ProcState::Running) by {
                reveal(Kernel::running_ok);
            }
            assert(self.live(p as int));
            reveal(Kernel::frames_ok);
        }
        let free0 = self.alloc.free_pages();
        if free0 == 0 || free0 - 1 < n {
            return Err(KernelError::OutOfMemory);
        }
        let ghost pre = *old(self);
        let mut fresh_space = match new_kernel_space(&mut self.alloc, &self.kpgtbl) {
            Ok(t) => t,
            Err(_) => {
                proof {
                    assert(false);
                }
                return Err(KernelError::OutOfMemory);
            },
        };
        proof {
            crate::vm::lemma_map_of_props(pre.kpgtbl.entries@);
            assert forall|v: u64| vpn <= v < vpn + n implies !fresh_space.mappings().contains_key(
                v,
            ) by {
                if fresh_space.mappings().contains_key(v) {
                    let k = choose|k: int|
                        0 <= k < pre.kpgtbl.entries@.len() && pre.kpgtbl.entries@[k].vpn == v;
                    assert(!crate::vm::is_user_vpn(pre.kpgtbl.entries@[k].vpn));
                }
            }
            assert(fresh_space.frames_live(self.alloc));
        }
        let ghost root = fresh_space.root;
        match fresh_space.map_range(&mut self.alloc, vpn, n, perm) {
            Ok(()) => {},
            Err(_) => {
                proof {
                    assert(false);
                }
                return Err(KernelError::OutOfMemory);
            },
        }
        proof {
            let mid_a = self.alloc;
            crate::vm::lemma_map_of_props(fresh_space.entries@);
            assert forall|q: u64| #[trigger] fresh_space.owns_frame(q) implies
                pre.alloc.free_set().contains(q) by {
                if q != fresh_space.root {
                    let k = choose|k: int|
                        0 <= k < fresh_space.entries@.len() && crate::vm::is_user_vpn(
                            fresh_space.entries@[k].vpn,
                        ) && fresh_space.entries@[k].pfn == q;
                    let v = fresh_space.entries@[k].vpn;
                    assert(fresh_space.mappings().contains_key(v));
                    assert(fresh_space.mappings()[v] == fresh_space.entries@[k]);
                    assert(vpn <= v < vpn + n);
                }
            }
            assert(!fresh_space.owns_frame(pre.procs@[p as int].kstack)) by {
                assert(pre.slot_owns(p as int, pre.procs@[p as int].kstack));
                if fresh_space.owns_frame(pre.procs@[p as int].kstack) {
                    assert(pre.alloc.free_set().contains(pre.procs@[p as int].kstack));
                }
            }
        }
        proof {
            assert forall|q: u64|
                #[trigger] self.procs@[p as int].space.owns_frame(q) implies self.alloc.in_range(
                q,
            ) && !self.alloc.free_set().contains(q) by {
                reveal(Kernel::frames_ok);
                assert(pre.slot_owns(p as int, q));
                assert(!pre.alloc.free_set().contains(q));
                assert(pre.alloc.in_range(q));
                if self.alloc.free_set().contains(q) {
                    assert(pre.alloc.free_set().contains(q));
                }
            }
        }
        let ghost mid = *self;
        let ghost mid_space = fresh_space;
        let pr = &mut self.procs[p];
        pr.space.release(&mut self.alloc);
        pr.space = fresh_space;
        proof {
            let post = *self;
            assert forall|q: u64|
                #[trigger] post.alloc.free_set().contains(q) implies pre.alloc.free_set().contains(
                q,
            ) || pre.procs@[p as int].space.owns_frame(q) by {
                if !pre.procs@[p as int].space.owns_frame(q) {
                    assert(mid.alloc.free_set().contains(q));
                }
            }
            assert forall|q: u64| #[trigger] mid_space.owns_frame(q) implies post.alloc.in_range(q)
                && !post.alloc.free_set().contains(q) by {
                assert(pre.alloc.free_set().contains(q));
                assert(!mid.alloc.free_set().contains(q));
                if post.alloc.free_set().contains(q) {
                    assert(pre.procs@[p as int].space.owns_frame(q));
                    assert(pre.slot_owns(p as int, q));
                    assert(!pre.alloc.free_set().contains(q));
                }
            }
            lemma_replace_space_wf(pre, post, p as int, mid_space);
        }
        Ok(())
    }

    /// Flips every process SLEEPING on `chan` to RUNNABLE; everything else
    /// is untouched. The shared step of `wakeup` and of the sleep-style
    /// lock's release.
    pub(crate) fn wake_on(&mut self, chan: u64)
        requires
            old(self).wf(),
        ensures
            final(self).wf(),
            final(self).cpus@ == old(self).cpus@,
            final(self).table_lock == old(self).table_lock,
            final(self).alloc == old(self).alloc,
            final(self).kpgtbl == old(self).kpgtbl,
            final(self).next_pid == old(self).next_pid,
            forall|i: int|
                0 <= i < NPROC ==> final(self).procs@[i] == (if old(self).procs@[i].state
                    == ProcState::Sleeping && old(self).procs@[i].chan == chan {
                    (Proc { state: ProcState::Runnable, ..old(self).procs@[i] })
                } else {
                    old(self).procs@[i]
                }),
    {
        let mut i: usize = 0;
        while i < NPROC
            invariant
                i <= NPROC,
                old(self).wf(),
                self.procs@.len() == NPROC,
                old(self).procs@.len() == NPROC,
                self.cpus@ == old(self).cpus@,
                self.table_lock == old(self).table_lock,
                self.alloc == old(self).alloc,
                self.kpgtbl == old(self).kpgtbl,
                self.next_pid == old(self).next_pid,
                forall|j: int|
                    0 <= j < i ==> self.procs@[j] == (if old(self).procs@[j].state
                        == ProcState::Sleeping && old(self).procs@[j].chan == chan {
                        (Proc { state: ProcState::Runnable, ..old(self).procs@[j] })
                    } else {
                        old(self).procs@[j]
                    }),
                forall|j: int| i <= j < NPROC ==> self.procs@[j] == old(self).procs@[j],
            decreases NPROC - i,
        {
            let pr = &mut self.procs[i];
            if pr.state == ProcState::Sleeping && pr.chan == chan {
                pr.state = ProcState::Runnable;
            }
            i = i + 1;
        }
        proof {
            let pre = *old(self);
            let post = *self;
            lemma_state_only_transfer(pre, post);
            lemma_pid_order_transfer(pre, post);
            lemma_running_transfer(pre, post);
        }
    }

    /// Wakes every process sleeping on `chan`: each becomes RUNNABLE, to be
    /// picked up by a later scheduler scan on any core. Called by core
    /// `cpu_id` while it holds the process-table lock, so the flip is
    /// ordered before any scan that could observe it.
    pub fn wakeup(&mut self, cpu_id: usize, chan: u64)
        requires
            old(self).wf(),
            cpu_id < old(self).cpus@.len(),
            old(self).table_lock.held_by(old(self).cpus@[cpu_id as int].id),
        ensures
            final(self).wf(),
            final(self).cpus@ == old(self).cpus@,
            final(self).table_lock == old(self).table_lock,
            final(self).alloc == old(self).alloc,
            final(self).kpgtbl == old(self).kpgtbl,
            final(self).next_pid == old(self).next_pid,
            forall|i: int|
                0 <= i < NPROC ==> final(self).procs@[i] == (if old(self).procs@[i].state
                    == ProcState::Sleeping && old(self).procs@[i].chan == chan {
                    (Proc { state: ProcState::Runnable, ..old(self).procs@[i] })
                } else {
                    old(self).procs@[i]
                }),
    {
        self.wake_on(chan);
    }

    /// One scan of the per-core scheduling loop, on a core whose scheduler
    /// context is active (no current process): picks the first RUNNABLE
    /// slot in fixed table order, marks it RUNNING and makes it the core's
    /// current process — the context switch into it. With no RUNNABLE
    /// process the scan changes nothing.
    pub fn schedule(&mut self, cpu_id: usize) -> (r: Option<usize>)
        requires
            old(self).wf(),
            cpu_id < old(self).cpus@.len(),
            old(self).cpus@[cpu_id as int].current is None,
            !old(self).table_lock.locked,
        ensures
            final(self).wf(),
            final(self).table_lock == old(self).table_lock,
            final(self).alloc == old(self).alloc,
            final(self).kpgtbl == old(self).kpgtbl,
            final(self).next_pid == old(self).next_pid,
            match r {
                Some(p) => {
                    &&& first_runnable_from(old(self).procs@, 0) == Some(p as int)
                    &&& p < NPROC
                    &&& old(self).procs@[p as int].state == ProcState::Runnable
                    &&& final(self).procs@ == old(self).procs@.update(
                        p as int,
                        (Proc { state: ProcState::Running, ..old(self).procs@[p as int] }),
                    )
                    &&& final(self).cpus@ == old(self).cpus@.update(
                        cpu_id as int,
                        (Cpu { current: Some(p), ..old(self).cpus@[cpu_id as int] }),
                    )
                },
                None => {
                    &&& first_runnable_from(old(self).procs@, 0) is None
                    &&& final(self).procs@ == old(self).procs@
                    &&& final(self).cpus@ == old(self).cpus@
                },
            },
    {
        let mut i: usize = 0;
        while i < NPROC
            invariant
                i <= NPROC,
                old(self).wf(),
                cpu_id < self.cpus@.len(),
                old(self).cpus@[cpu_id as int].current is None,
                self.procs@ == old(self).procs@,
                self.cpus@ == old(self).cpus@,
                self.table_lock == old(self).table_lock,
                self.alloc == old(self).alloc,
                self.kpgtbl == old(self).kpgtbl,
                self.next_pid == old(self).next_pid,
                self.procs@.len() == NPROC,
                first_runnable_from(old(self).procs@, 0) == first_runnable_from(
                    old(self).procs@,
                    i as int,
                ),
            decreases NPROC - i,
        {
            let runnable = self.procs[i].state == ProcState::Runnable;
            if runnable {
                let pr = &mut self.procs[i];
                pr.state = ProcState::Running;
                let c = &mut self.cpus[cpu_id];
                c.current = Some(i);
                proof {
                    let pre = *old(self);
                    let post = *self;
                    assert(first_runnable_from(pre.procs@, i as int) == Some(i as int));
                    assert(post.procs@ =~= pre.procs@.update(
                        i as int,
                        (Proc { state: ProcState::Running, ..pre.procs@[i as int] }),
                    ));
                    assert(post.cpus@ =~= pre.cpus@.update(
                        cpu_id as int,
                        (Cpu { current: Some(i), ..pre.cpus@[cpu_id as int] }),
                    ));
                    assert forall|k: int|
                        0 <= k < NPROC ==> (#[trigger] post.procs@[k]).space
                            == pre.procs@[k].space && post.procs@[k].kstack == pre.procs@[k].kstack
                            && post.procs@[k].pid == pre.procs@[k].pid && post.procs@[k].parent
                            == pre.procs@[k].parent by {}
                    lemma_state_only_transfer(pre, post);
                    lemma_pid_order_transfer(pre, post);
                    assert(post.running_ok()) by {
                        reveal(Kernel::running_ok);
                        assert forall|c2: int|
                            0 <= c2 < post.cpus@.len() implies match (
                        #[trigger] post.cpus@[c2]).current {
                            Some(q) => q < NPROC && post.procs@[q as int].state
                                == ProcState::Running,
                            None => true,
                        } by {
                            if c2 != cpu_id && post.cpus@[c2].current is Some {
                                let q = post.cpus@[c2].current->0;
                                assert(pre.procs@[q as int].state == ProcState::Running);
                                assert(q != i);
                            }
                        }
                        assert forall|c1: int, c2: int|
                            0 <= c1 < post.cpus@.len() && 0 <= c2 < post.cpus@.len() && c1 != c2
                                && (#[trigger] post.cpus@[c1]).current is Some implies
                            post.cpus@[c1].current != (#[trigger] post.cpus@[c2]).current by {
                            if c1 != cpu_id && c2 != cpu_id {
                                assert(pre.cpus@[c1].current is Some);
                            } else if c1 == cpu_id {
                                if post.cpus@[c2].current is Some {
                                    let q = post.cpus@[c2].current->0;
                                    assert(pre.procs@[q as int].state == ProcState::Running);
                                    assert(q != i);
                                }
                            } else {
                                if post.cpus@[c1].current is Some {
                                    let q = post.cpus@[c1].current->0;
                                    assert(pre.procs@[q as int].state == ProcState::Running);
                                    assert(q != i);
                                }
                            }
                        }
                        assert forall|k: int|
                            0 <= k < NPROC && (#[trigger] post.procs@[k]).state
                                == ProcState::Running implies exists|c2: int|
                            0 <= c2 < post.cpus@.len() && (#[trigger] post.cpus@[c2]).current
                                == Some(k as usize) by {
                            if k == i {
                                assert(post.cpus@[cpu_id as int].current == Some(k as usize));
                            } else {
                                assert(pre.procs@[k].state == ProcState::Running);
                                let c2 = choose|c2: int|
                                    0 <= c2 < pre.cpus@.len() && (#[trigger] pre.cpus@[c2]).current
                                        == Some(k as usize);
                                assert(c2 != cpu_id);
                                assert(post.cpus@[c2].current == Some(k as usize));
                            }
                        }
                    }
                }
                return Some(i);
            }
            i = i + 1;
        }
        proof {
            let pre = *old(self);
            let post = *self;
            lemma_state_only_transfer(pre, post);
            lemma_pid_order_transfer(pre, post);
            lemma_running_transfer(pre, post);
        }
        None
    }

    /// A RUNNING process gives its core up — voluntarily, or preempted by
    /// the timer: it turns RUNNABLE again and control returns to the
    /// core's scheduler context.
    pub fn yield_(&mut self, cpu_id: usize)
        requires
            old(self).wf(),
            cpu_id < old(self).cpus@.len(),
            old(self).cpus@[cpu_id as int].current is Some,
            !old(self).table_lock.locked,
        ensures
            final(self).wf(),
            final(self).table_lock == old(self).table_lock,
            final(self).alloc == old(self).alloc,
            final(self).kpgtbl == old(self).kpgtbl,
            final(self).next_pid == old(self).next_pid,
            ({
                let p = old(self).cpus@[cpu_id as int].current->0;
                &&& final(self).procs@ == old(self).procs@.update(
                    p as int,
                    (Proc { state: ProcState::Runnable, ..old(self).procs@[p as int] }),
                )
                &&& final(self).cpus@ == old(self).cpus@.update(
                    cpu_id as int,
                    (Cpu { current: None, ..old(self).cpus@[cpu_id as int] }),
                )
            }),
    {
        let p = match self.cpus[cpu_id].current {
            Some(p) => p,
            None => { return ; },
        };
        proof {
            reveal(Kernel::running_ok);
        }
        let pr = &mut self.procs[p];
        pr.state = ProcState::Runnable;
        let c = &mut self.cpus[cpu_id];
        c.current = None;
        proof {
            let pre = *old(self);
            let post = *self;
            assert(post.procs@ =~= pre.procs@.update(
                p as int,
                (Proc { state: ProcState::Runnable, ..pre.procs@[p as int] }),
            ));
            assert(post.cpus@ =~= pre.cpus@.update(
                cpu_id as int,
                (Cpu { current: None, ..pre.cpus@[cpu_id as int] }),
            ));
            lemma_state_only_transfer(pre, post);
            lemma_pid_order_transfer(pre, post);
            assert(post.running_ok()) by {
                reveal(Kernel::running_ok);
                assert forall|c2: int|
                    0 <= c2 < post.cpus@.len() implies match (#[trigger] post.cpus@[c2]).current {
                    Some(q) => q < NPROC && post.procs@[q as int].state == ProcState::Running,
                    None => true,
                } by {
                    if c2 != cpu_id && post.cpus@[c2].current is Some {
                        let q = post.cpus@[c2].current->0;
                        assert(pre.procs@[q as int].state == ProcState::Running);
                        assert(pre.cpus@[c2].current != pre.cpus@[cpu_id as int].current);
                        assert(q != p);
                    }
                }
                assert forall|c1: int, c2: int|
                    0 <= c1 < post.cpus@.len() && 0 <= c2 < post.cpus@.len() && c1 != c2 && (
                    #[trigger] post.cpus@[c1]).current is Some implies post.cpus@[c1].current != (
                    #[trigger] post.cpus@[c2]).current by {
                    assert(pre.cpus@[c1].current is Some);
                }
                assert forall|k: int|
                    0 <= k < NPROC && (#[trigger] post.procs@[k]).state
                        == ProcState::Running implies exists|c2: int|
                    0 <= c2 < post.cpus@.len() && (#[trigger] post.cpus@[c2]).current == Some(
                        k as usize,
                    ) by {
                    assert(k != p);
                    assert(pre.procs@[k].state == ProcState::Running);
                    let c2 = choose|c2: int|
                        0 <= c2 < pre.cpus@.len() && (#[trigger] pre.cpus@[c2]).current == Some(
                            k as usize,
                        );
                    assert(c2 != cpu_id);
                    assert(post.cpus@[c2].current == Some(k as usize));
                }
            }
        }
    }

    /// Atomically releases spin lock `lk` and parks the calling process
    /// SLEEPING on `chan`; control passes to the core's scheduler context.
    /// The caller holds `lk` (and no other spin lock) and the table lock is
    /// free, so the state flip is protected by the table lock before `lk`
    /// is given up — a later `wakeup(chan)` under the same table lock
    /// cannot be lost. On being woken the process re-acquires `lk` before
    /// its critical section resumes.
    pub fn sleep<T>(&mut self, cpu_id: usize, chan: u64, lk: &mut SpinLock<T>)
        requires
            old(self).wf(),
            cpu_id < old(self).cpus@.len(),
            old(self).cpus@[cpu_id as int].current is Some,
            !old(self).table_lock.locked,
            old(lk).held_by(old(self).cpus@[cpu_id as int].id),
            old(self).cpus@[cpu_id as int].noff == 1,
            !old(self).cpus@[cpu_id as int].intr_on,
        ensures
            final(self).wf(),
            final(self).table_lock == old(self).table_lock,
            final(self).alloc == old(self).alloc,
            final(self).kpgtbl == old(self).kpgtbl,
            final(self).next_pid == old(self).next_pid,
            !final(lk).locked,
            final(lk).value == old(lk).value,
            ({
                let p = old(self).cpus@[cpu_id as int].current->0;
                &&& final(self).procs@ == old(self).procs@.update(
                    p as int,
                    (Proc {
                        state: ProcState::Sleeping,
                        chan,
                        ..old(self).procs@[p as int]
                    }),
                )
                &&& final(self).cpus@ == old(self).cpus@.update(
                    cpu_id as int,
                    (Cpu {
                        current: None,
                        noff: 0,
                        intr_on: old(self).cpus@[cpu_id as int].intena,
                        ..old(self).cpus@[cpu_id as int]
                    }),
                )
            }),
    {
        let p = match self.cpus[cpu_id].current {
            Some(p) => p,
            None => { return ; },
        };
        proof {
            reveal(Kernel::running_ok);
        }
        let pr = &mut self.procs[p];
        pr.state = ProcState::Sleeping;
        pr.chan = chan;
        let c = &mut self.cpus[cpu_id];
        c.current = None;
        lk.release(c);
        proof {
            let pre = *old(self);
            let post = *self;
            assert(post.procs@ =~= pre.procs@.update(
                p as int,
                (Proc { state: ProcState::Sleeping, chan, ..pre.procs@[p as int] }),
            ));
            assert(post.cpus@ =~= pre.cpus@.update(
                cpu_id as int,
                (Cpu {
                    current: None,
                    noff: 0,
                    intr_on: pre.cpus@[cpu_id as int].intena,
                    ..pre.cpus@[cpu_id as int]
                }),
            ));
            lemma_state_only_transfer(pre, post);
            lemma_pid_order_transfer(pre, post);
            assert(post.running_ok()) by {
                reveal(Kernel::running_ok);
                assert forall|c2: int|
                    0 <= c2 < post.cpus@.len() implies match (#[trigger] post.cpus@[c2]).current {
                    Some(q) => q < NPROC && post.procs@[q as int].state == ProcState::Running,
                    None => true,
                } by {
                    if c2 != cpu_id && post.cpus@[c2].current is Some {
                        let q = post.cpus@[c2].current->0;
                        assert(pre.procs@[q as int].state == ProcState::Running);
                        assert(pre.cpus@[c2].current != pre.cpus@[cpu_id as int].current);
                        assert(q != p);
                    }
                }
                assert forall|c1: int, c2: int|
                    0 <= c1 < post.cpus@.len() && 0 <= c2 < post.cpus@.len() && c1 != c2 && (
                    #[trigger] post.cpus@[c1]).current is Some implies post.cpus@[c1].current != (
                    #[trigger] post.cpus@[c2]).current by {
                    assert(pre.cpus@[c1].current is Some);
                }
                assert forall|k: int|
                    0 <= k < NPROC && (#[trigger] post.procs@[k]).state
                        == ProcState::Running implies exists|c2: int|
                    0 <= c2 < post.cpus@.len() && (#[trigger] post.cpus@[c2]).current == Some(
                        k as usize,
                    ) by {
                    assert(k != p);
                    assert(pre.procs@[k].state == ProcState::Running);
                    let c2 = choose|c2: int|
                        0 <= c2 < pre.cpus@.len() && (#[trigger] pre.cpus@[c2]).current == Some(
                            k as usize,
                        );
                    assert(c2 != cpu_id);
                    assert(post.cpus@[c2].current == Some(k as usize));
                }
            }
        }
    }
}

/// Transfers the state-independent well-formedness components from `pre`
/// to `post` when an operation changed only lifecycle states (and
/// non-structural fields): spaces, stacks, pids, parents, the allocator
/// and the kernel table are untouched, and no slot crossed the
/// UNUSED/ZOMBIE boundary.
proof fn lemma_state_only_transfer(pre: Kernel, post: Kernel)
    requires
        pre.wf(),
        post.procs@.len() == NPROC,
        post.cpus@.len() == pre.cpus@.len(),
        post.alloc == pre.alloc,
        post.kpgtbl == pre.kpgtbl,
        post.next_pid == pre.next_pid,
        forall|i: int|
            0 <= i < NPROC ==> (#[trigger] post.procs@[i]).space == pre.procs@[i].space
                && post.procs@[i].kstack == pre.procs@[i].kstack && post.procs@[i].pid
                == pre.procs@[i].pid && post.procs@[i].parent == pre.procs@[i].parent,
        forall|i: int|
            0 <= i < NPROC ==> ((#[trigger] post.procs@[i]).state == ProcState::Unused
                <==> pre.procs@[i].state == ProcState::Unused) && (post.procs@[i].state
                == ProcState::Zombie <==> pre.procs@[i].state == ProcState::Zombie),
        forall|c: int|
            0 <= c < post.cpus@.len() ==> (#[trigger] post.cpus@[c]).id == pre.cpus@[c].id,
    ensures
        post.cpus_wf(),
        post.frames_ok(),
        post.parents_ok(),
        post.pids_ok(),
        post.kernel_shared_ok(),
{
    assert forall|i: int| 0 <= i < NPROC implies (post.live(i) <==> pre.live(i)) by {
        assert(post.procs@[i].state == ProcState::Unused <==> pre.procs@[i].state
            == ProcState::Unused);
    }
    assert(post.cpus_wf()) by {
        assert forall|c: int| 0 <= c < post.cpus@.len() implies (#[trigger] post.cpus@[c]).id
            == c as u32 by {
            assert(pre.cpus@[c].id == c as u32);
        }
    }
    assert forall|i: int, p: u64|
        0 <= i < NPROC implies (#[trigger] post.slot_owns(i, p) <==> pre.slot_owns(i, p)) by {
        assert(post.procs@[i].space == pre.procs@[i].space);
    }
    assert(post.frames_ok()) by {
        reveal(Kernel::frames_ok);
        assert forall|i: int, p: u64|
            0 <= i < NPROC && post.live(i) && #[trigger] post.slot_owns(i, p) implies
            post.alloc.in_range(p) && !post.alloc.free_set().contains(p) by {
            assert(pre.slot_owns(i, p));
        }
        assert forall|i: int, j: int, p: u64|
            #![trigger post.slot_owns(i, p), post.slot_owns(j, p)]
            0 <= i < NPROC && 0 <= j < NPROC && i != j && post.live(i) && post.live(j) implies !(
            post.slot_owns(i, p) && post.slot_owns(j, p)) by {
            if post.slot_owns(i, p) && post.slot_owns(j, p) {
                assert(pre.slot_owns(i, p) && pre.slot_owns(j, p));
            }
        }
        assert forall|i: int|
            0 <= i < NPROC && post.live(i) implies (#[trigger] post.procs@[i]).space.wf()
                && post.procs@[i].space.frames_distinct() && post.procs@[i].kstack != 0
                && post.procs@[i].space.root != 0 && !post.procs@[i].space.owns_frame(
                post.procs@[i].kstack,
            ) by {
            assert(pre.live(i));
            assert(post.procs@[i].space == pre.procs@[i].space);
        }
        assert forall|i: int|
            0 <= i < NPROC && !post.live(i) implies (
            #[trigger] post.procs@[i]).space.is_released() && post.procs@[i].kstack == 0 by {
            assert(!pre.live(i));
        }
    }
    assert(post.parents_ok()) by {
        reveal(Kernel::parents_ok);
        assert forall|i: int|
            0 <= i < NPROC && post.live(i) implies match (#[trigger] post.procs@[i]).parent {
            Some(pp) => pp < NPROC && pp != i && post.procs@[pp as int].state != ProcState::Unused
                && post.procs@[pp as int].state != ProcState::Zombie,
            None => true,
        } by {
            assert(pre.live(i));
            assert(post.procs@[i].parent == pre.procs@[i].parent);
        }
    }
    assert(post.pids_ok()) by {
        reveal(Kernel::pids_ok);
        assert forall|i: int|
            0 <= i < NPROC && post.live(i) implies (#[trigger] post.procs@[i]).pid
                < post.next_pid by {
            assert(pre.live(i));
            assert(post.procs@[i].pid == pre.procs@[i].pid);
        }
    }
    assert(post.kernel_shared_ok()) by {
        reveal(Kernel::kernel_shared_ok);
        assert forall|i: int, v: u64|
            #![trigger post.procs@[i].space.mappings().contains_key(v)]
            0 <= i < NPROC && post.live(i) && !crate::vm::is_user_vpn(v) implies (
            post.procs@[i].space.mappings().contains_key(v)
                == post.kpgtbl.mappings().contains_key(v) && (
            post.procs@[i].space.mappings().contains_key(v)
                ==> post.procs@[i].space.mappings()[v] == post.kpgtbl.mappings()[v])) by {
            assert(pre.live(i));
            assert(post.procs@[i].space == pre.procs@[i].space);
            assert(pre.procs@[i].space.mappings().contains_key(v)
                == pre.kpgtbl.mappings().contains_key(v) && (
            pre.procs@[i].space.mappings().contains_key(v)
                ==> pre.procs@[i].space.mappings()[v] == pre.kpgtbl.mappings()[v]));
        }
    }
}

/// Transfers the pid ordering of the parent relation when no pid, parent
/// link or liveness changed.
proof fn lemma_pid_order_transfer(pre: Kernel, post: Kernel)
    requires
        pre.wf(),
        post.procs@.len() == NPROC,
        forall|i: int|
            0 <= i < NPROC ==> (#[trigger] post.procs@[i]).pid == pre.procs@[i].pid
                && post.procs@[i].parent == pre.procs@[i].parent && (post.live(i) <==> pre.live(
                i,
            )),
    ensures
        post.pid_order_ok(),
{
    reveal(Kernel::pid_order_ok);
    assert forall|i: int, pp: int|
        #![trigger post.procs@[i].parent, post.procs@[pp].pid]
        0 <= i < NPROC && 0 <= pp < NPROC && post.live(i) && post.procs@[i].parent == Some(
            pp as usize,
        ) implies post.procs@[pp].pid < post.procs@[i].pid by {
        assert(pre.live(i));
        assert(post.procs@[i].parent == pre.procs@[i].parent);
        assert(pre.procs@[pp].pid < pre.procs@[i].pid);
        assert(post.procs@[pp].pid == pre.procs@[pp].pid);
    }
}

/// The whole well-formedness invariant survives installing a fresh process
/// into an UNUSED slot: the slot's new root and stack frames are off the
/// free list and owned by nobody else, its space carries exactly the
/// kernel's shared mappings, and its parent is the calling core's running
/// process under a fresh pid.
#[verifier::rlimit(100)]
proof fn lemma_install_slot_wf(pre: Kernel, post: Kernel, cpu_id: int, sl: int, root: u64, kstack: u64)
    requires
        pre.wf(),
        0 <= cpu_id < pre.cpus@.len(),
        0 <= sl < NPROC,
        pre.procs@[sl].state == ProcState::Unused,
        pre.next_pid < u64::MAX,
        post.cpus@ == pre.cpus@,
        post.kpgtbl == pre.kpgtbl,
        post.alloc == pre.alloc,
        post.table_lock == pre.table_lock,
        post.next_pid == pre.next_pid + 1,
        post.procs@.len() == NPROC,
        forall|i: int| 0 <= i < NPROC && i != sl ==> post.procs@[i] == pre.procs@[i],
        post.procs@[sl].state == ProcState::Runnable,
        post.procs@[sl].pid == pre.next_pid,
        post.procs@[sl].parent == pre.cpus@[cpu_id].current,
        post.procs@[sl].space.wf(),
        post.procs@[sl].space.frames_distinct(),
        forall|p: u64| post.procs@[sl].space.owns_frame(p) <==> p == root,
        post.procs@[sl].space.mappings() == pre.kpgtbl.mappings(),
        post.procs@[sl].space.root == root,
        post.procs@[sl].kstack == kstack,
        pre.alloc.in_range(root),
        !pre.alloc.free_set().contains(root),
        pre.alloc.in_range(kstack),
        !pre.alloc.free_set().contains(kstack),
        kstack != root,
        kstack != 0,
        root != 0,
        forall|i: int| 0 <= i < NPROC && pre.live(i) ==> !(#[trigger] pre.slot_owns(i, root)),
        forall|i: int| 0 <= i < NPROC && pre.live(i) ==> !(#[trigger] pre.slot_owns(i, kstack)),
    ensures
        post.wf(),
{
    let parent = pre.cpus@[cpu_id].current;
    if parent is Some {
        let pq = parent->0;
        assert(pq < NPROC && pre.procs@[pq as int].state == ProcState::Running) by {
            reveal(Kernel::running_ok);
        }
        assert(pre.procs@[pq as int].pid < pre.next_pid) by {
            reveal(Kernel::pids_ok);
            assert(pre.live(pq as int));
        }
    }
    assert forall|p: u64| post.slot_owns(sl, p) implies p == root || p == kstack by {
        if p != kstack {
            assert(post.procs@[sl].space.owns_frame(p));
        }
    }
    assert(post.cpus_wf()) by {
        assert forall|c: int| 0 <= c < post.cpus@.len() implies (#[trigger] post.cpus@[c]).id
            == c as u32 by {
            assert(pre.cpus@[c].id == c as u32);
        }
    }
    assert(post.running_ok()) by {
        lemma_running_transfer(pre, post);
    }
    assert(post.frames_ok()) by {
        reveal(Kernel::frames_ok);
        assert forall|i2: int, p: u64|
            0 <= i2 < NPROC && post.live(i2) && #[trigger] post.slot_owns(i2, p) implies
            post.alloc.in_range(p) && !post.alloc.free_set().contains(p) by {
            if i2 != sl {
                assert(pre.slot_owns(i2, p));
                assert(pre.live(i2));
            }
        }
        assert forall|i2: int, j2: int, p: u64|
            #![trigger post.slot_owns(i2, p), post.slot_owns(j2, p)]
            0 <= i2 < NPROC && 0 <= j2 < NPROC && i2 != j2 && post.live(i2) && post.live(
                j2,
            ) implies !(post.slot_owns(i2, p) && post.slot_owns(j2, p)) by {
            if post.slot_owns(i2, p) && post.slot_owns(j2, p) {
                if i2 != sl && j2 != sl {
                    assert(pre.slot_owns(i2, p) && pre.slot_owns(j2, p));
                    assert(pre.live(i2) && pre.live(j2));
                } else {
                    let other: int = if i2 == sl {
                        j2
                    } else {
                        i2
                    };
                    assert(post.procs@[other] == pre.procs@[other]);
                    assert(pre.slot_owns(other, p));
                    assert(pre.live(other));
                    assert(post.slot_owns(sl, p));
                    assert(p == root || p == kstack);
                    assert(!pre.slot_owns(other, root) && !pre.slot_owns(other, kstack));
                }
            }
        }
        assert forall|i2: int|
            0 <= i2 < NPROC && post.live(i2) implies (#[trigger] post.procs@[i2]).space.wf()
                && post.procs@[i2].space.frames_distinct() && post.procs@[i2].kstack != 0
                && post.procs@[i2].space.root != 0 && !post.procs@[i2].space.owns_frame(
                post.procs@[i2].kstack,
            ) by {
            if i2 != sl {
                assert(pre.live(i2));
            } else {
                assert(!post.procs@[sl].space.owns_frame(kstack)) by {
                    if post.procs@[sl].space.owns_frame(kstack) {
                        assert(post.slot_owns(sl, kstack));
                    }
                }
            }
        }
        assert forall|i2: int|
            0 <= i2 < NPROC && !post.live(i2) implies (
            #[trigger] post.procs@[i2]).space.is_released() && post.procs@[i2].kstack == 0 by {
            assert(!pre.live(i2));
        }
    }
    assert(post.parents_ok()) by {
        reveal(Kernel::parents_ok);
        assert forall|i2: int|
            0 <= i2 < NPROC && post.live(i2) implies match (#[trigger] post.procs@[i2]).parent {
            Some(pp) => pp < NPROC && pp != i2 && post.procs@[pp as int].state
                != ProcState::Unused && post.procs@[pp as int].state != ProcState::Zombie,
            None => true,
        } by {
            if i2 != sl {
                assert(pre.live(i2));
                if pre.procs@[i2].parent is Some {
                    let pp = pre.procs@[i2].parent->0;
                    assert(pp != sl);
                }
            } else {
                if parent is Some {
                    let pp = parent->0;
                    assert(pp != sl);
                }
            }
        }
    }
    assert(post.pids_ok()) by {
        reveal(Kernel::pids_ok);
        assert forall|i2: int|
            0 <= i2 < NPROC && post.live(i2) implies (#[trigger] post.procs@[i2]).pid
                < post.next_pid by {
            if i2 != sl {
                assert(pre.live(i2));
                assert(pre.procs@[i2].pid < pre.next_pid);
            }
        }
    }
    assert(post.pid_order_ok()) by {
        reveal(Kernel::pid_order_ok);
        assert forall|i2: int, pp: int|
            #![trigger post.procs@[i2].parent, post.procs@[pp].pid]
            0 <= i2 < NPROC && 0 <= pp < NPROC && post.live(i2) && post.procs@[i2].parent == Some(
                pp as usize,
            ) implies post.procs@[pp].pid < post.procs@[i2].pid by {
            if i2 != sl {
                assert(pre.live(i2));
                assert(pre.procs@[i2].parent == Some(pp as usize));
                assert(pp != sl) by {
                    reveal(Kernel::parents_ok);
                }
                assert(pre.procs@[pp].pid < pre.procs@[i2].pid);
            } else {
                assert(pre.procs@[pp].state == ProcState::Running);
                assert(pp != sl);
                assert(post.procs@[pp].pid < pre.next_pid);
            }
        }
    }
    assert(post.kernel_shared_ok()) by {
        reveal(Kernel::kernel_shared_ok);
        assert forall|i2: int, v: u64|
            #![trigger post.procs@[i2].space.mappings().contains_key(v)]
            0 <= i2 < NPROC && post.live(i2) && !crate::vm::is_user_vpn(v) implies (
        post.procs@[i2].space.mappings().contains_key(v) == post.kpgtbl.mappings().contains_key(v)
            && (post.procs@[i2].space.mappings().contains_key(v)
            ==> post.procs@[i2].space.mappings()[v] == post.kpgtbl.mappings()[v])) by {
            if i2 != sl {
                assert(pre.live(i2));
                assert(pre.procs@[i2].space.mappings().contains_key(v)
                    == pre.kpgtbl.mappings().contains_key(v) && (
                pre.procs@[i2].space.mappings().contains_key(v)
                    ==> pre.procs@[i2].space.mappings()[v] == pre.kpgtbl.mappings()[v]));
            } else {
                assert(post.procs@[sl].space.mappings() == pre.kpgtbl.mappings());
            }
        }
    }
}

/// A pure allocation step — the free list only shrank, everything else of
/// the kernel untouched — preserves the whole well-formedness invariant.
proof fn lemma_alloc_shrink(pre: Kernel, post: Kernel)
    requires
        pre.wf(),
        post.procs@ == pre.procs@,
        post.cpus@ == pre.cpus@,
        post.kpgtbl == pre.kpgtbl,
        post.next_pid == pre.next_pid,
        post.alloc.wf(),
        post.alloc.base == pre.alloc.base,
        post.alloc.total == pre.alloc.total,
        forall|p: u64|
            #[trigger] post.alloc.free_set().contains(p) ==> pre.alloc.free_set().contains(p),
    ensures
        post.wf(),
{
    assert forall|i: int| 0 <= i < NPROC implies (post.live(i) <==> pre.live(i)) by {
        assert(post.procs@[i] == pre.procs@[i]);
    }
    assert forall|i: int, p: u64|
        0 <= i < NPROC implies (#[trigger] post.slot_owns(i, p) <==> pre.slot_owns(i, p)) by {
        assert(post.procs@[i] == pre.procs@[i]);
    }
    assert(post.cpus_wf()) by {
        assert forall|c: int| 0 <= c < post.cpus@.len() implies (#[trigger] post.cpus@[c]).id
            == c as u32 by {
            assert(pre.cpus@[c].id == c as u32);
        }
    }
    assert(post.running_ok()) by {
        lemma_running_transfer(pre, post);
    }
    assert(post.frames_ok()) by {
        reveal(Kernel::frames_ok);
        assert forall|i: int, p: u64|
            0 <= i < NPROC && post.live(i) && #[trigger] post.slot_owns(i, p) implies
            post.alloc.in_range(p) && !post.alloc.free_set().contains(p) by {
            assert(pre.slot_owns(i, p));
        }
        assert forall|i: int, j: int, p: u64|
            #![trigger post.slot_owns(i, p), post.slot_owns(j, p)]
            0 <= i < NPROC && 0 <= j < NPROC && i != j && post.live(i) && post.live(j) implies !(
            post.slot_owns(i, p) && post.slot_owns(j, p)) by {
            if post.slot_owns(i, p) && post.slot_owns(j, p) {
                assert(pre.slot_owns(i, p) && pre.slot_owns(j, p));
            }
        }
        assert forall|i: int|
            0 <= i < NPROC && post.live(i) implies (#[trigger] post.procs@[i]).space.wf()
                && post.procs@[i].space.frames_distinct() && post.procs@[i].kstack != 0
                && post.procs@[i].space.root != 0 && !post.procs@[i].space.owns_frame(
                post.procs@[i].kstack,
            ) by {
            assert(pre.live(i));
            assert(post.procs@[i] == pre.procs@[i]);
        }
        assert forall|i: int|
            0 <= i < NPROC && !post.live(i) implies (
            #[trigger] post.procs@[i]).space.is_released() && post.procs@[i].kstack == 0 by {
            assert(!pre.live(i));
        }
    }
    lemma_pid_order_transfer(pre, post);
    assert(post.parents_ok()) by {
        reveal(Kernel::parents_ok);
        assert forall|i: int|
            0 <= i < NPROC && post.live(i) implies match (#[trigger] post.procs@[i]).parent {
            Some(pp) => pp < NPROC && pp != i && post.procs@[pp as int].state != ProcState::Unused
                && post.procs@[pp as int].state != ProcState::Zombie,
            None => true,
        } by {
            assert(pre.live(i));
            assert(post.procs@[i] == pre.procs@[i]);
        }
    }
    assert(post.pids_ok()) by {
        reveal(Kernel::pids_ok);
        assert forall|i: int|
            0 <= i < NPROC && post.live(i) implies (#[trigger] post.procs@[i]).pid
                < post.next_pid by {
            assert(pre.live(i));
            assert(post.procs@[i] == pre.procs@[i]);
        }
    }
    assert(post.kernel_shared_ok()) by {
        reveal(Kernel::kernel_shared_ok);
        assert forall|i: int, v: u64|
            #![trigger post.procs@[i].space.mappings().contains_key(v)]
            0 <= i < NPROC && post.live(i) && !crate::vm::is_user_vpn(v) implies (
            post.procs@[i].space.mappings().contains_key(v)
                == post.kpgtbl.mappings().contains_key(v) && (
            post.procs@[i].space.mappings().contains_key(v)
                ==> post.procs@[i].space.mappings()[v] == post.kpgtbl.mappings()[v])) by {
            assert(pre.live(i));
            assert(post.procs@[i] == pre.procs@[i]);
            assert(pre.procs@[i].space.mappings().contains_key(v)
                == pre.kpgtbl.mappings().contains_key(v) && (
            pre.procs@[i].space.mappings().contains_key(v)
                ==> pre.procs@[i].space.mappings()[v] == pre.kpgtbl.mappings()[v]));
        }
    }
}

/// The whole well-formedness invariant survives an exit step: the running
/// process of `cpu_id` turns ZOMBIE, its children move to its parent `pp`,
/// `pp` is woken if it slept on its wait channel, and the core's scheduler
/// context resumes.
#[verifier::rlimit(100)]
proof fn lemma_exit_wf(
    pre: Kernel,
    post: Kernel,
    cpu_id: int,
    p: usize,
    pp: usize,
    status: u64,
    wake_parent: bool,
)
    requires
        pre.wf(),
        0 <= cpu_id < pre.cpus@.len(),
        pre.cpus@[cpu_id].current == Some(p),
        p < NPROC,
        pp < NPROC,
        p != pp,
        pre.procs@[p as int].parent == Some(pp),
        pre.procs@[p as int].state == ProcState::Running,
        pre.procs@[pp as int].state != ProcState::Unused,
        pre.procs@[pp as int].state != ProcState::Zombie,
        wake_parent == (pre.procs@[pp as int].state == ProcState::Sleeping
            && pre.procs@[pp as int].chan == wait_chan_of(pp as int)),
        post.cpus@ == pre.cpus@.update(cpu_id, (Cpu { current: None, ..pre.cpus@[cpu_id] })),
        post.table_lock == pre.table_lock,
        post.alloc == pre.alloc,
        post.kpgtbl == pre.kpgtbl,
        post.next_pid == pre.next_pid,
        post.procs@.len() == NPROC,
        post.procs@[p as int] == (Proc {
            state: ProcState::Zombie,
            exit_status: status,
            ..pre.procs@[p as int]
        }),
        forall|i: int|
            0 <= i < NPROC && i != p ==> (#[trigger] post.procs@[i]).state == (if i == pp
                && wake_parent {
                ProcState::Runnable
            } else {
                pre.procs@[i].state
            }),
        forall|i: int|
            0 <= i < NPROC && i != p ==> (#[trigger] post.procs@[i]).parent == (if pre.procs@[i].parent
                == Some(p) {
                Some(pp)
            } else {
                pre.procs@[i].parent
            }),
        forall|i: int|
            0 <= i < NPROC && i != p ==> (#[trigger] post.procs@[i]).pid == pre.procs@[i].pid
                && post.procs@[i].space == pre.procs@[i].space && post.procs@[i].kstack
                == pre.procs@[i].kstack,
    ensures
        post.wf(),
{
    let pi = p as int;
    let ppi = pp as int;
    assert(pre.procs@[ppi].pid < pre.procs@[pi].pid) by {
        reveal(Kernel::pid_order_ok);
    }
    assert(pre.procs@[ppi].parent != Some(p)) by {
        reveal(Kernel::pid_order_ok);
        if pre.procs@[ppi].parent == Some(p) {
            assert(pre.procs@[pi].pid < pre.procs@[ppi].pid);
        }
    }
    assert forall|j: int|
        0 <= j < NPROC implies (#[trigger] post.procs@[j]).space == pre.procs@[j].space
            && post.procs@[j].kstack == pre.procs@[j].kstack && post.procs@[j].pid
            == pre.procs@[j].pid && (post.live(j) <==> pre.live(j)) by {}
    assert(post.cpus_wf()) by {
        assert forall|c2: int| 0 <= c2 < post.cpus@.len() implies (#[trigger] post.cpus@[c2]).id
            == c2 as u32 by {
            assert(pre.cpus@[c2].id == c2 as u32);
        }
    }
    assert(post.frames_ok()) by {
        reveal(Kernel::frames_ok);
        assert forall|j: int, q: u64|
            0 <= j < NPROC implies (#[trigger] post.slot_owns(j, q) <==> pre.slot_owns(j, q)) by {
            assert(post.procs@[j].space == pre.procs@[j].space);
        }
        assert forall|j: int, q: u64|
            0 <= j < NPROC && post.live(j) && #[trigger] post.slot_owns(j, q) implies
            post.alloc.in_range(q) && !post.alloc.free_set().contains(q) by {
            assert(pre.slot_owns(j, q));
        }
        assert forall|j: int, j2: int, q: u64|
            #![trigger post.slot_owns(j, q), post.slot_owns(j2, q)]
            0 <= j < NPROC && 0 <= j2 < NPROC && j != j2 && post.live(j) && post.live(
                j2,
            ) implies !(post.slot_owns(j, q) && post.slot_owns(j2, q)) by {
            if post.slot_owns(j, q) && post.slot_owns(j2, q) {
                assert(pre.slot_owns(j, q) && pre.slot_owns(j2, q));
            }
        }
        assert forall|j: int|
            0 <= j < NPROC && post.live(j) implies (#[trigger] post.procs@[j]).space.wf()
                && post.procs@[j].space.frames_distinct() && post.procs@[j].kstack != 0
                && post.procs@[j].space.root != 0 && !post.procs@[j].space.owns_frame(
                post.procs@[j].kstack,
            ) by {
            assert(pre.live(j));
            assert(post.procs@[j].space == pre.procs@[j].space);
        }
        assert forall|j: int|
            0 <= j < NPROC && !post.live(j) implies (
            #[trigger] post.procs@[j]).space.is_released() && post.procs@[j].kstack == 0 by {
            assert(!pre.live(j));
        }
    }
    assert(post.pids_ok()) by {
        reveal(Kernel::pids_ok);
        assert forall|j: int|
            0 <= j < NPROC && post.live(j) implies (#[trigger] post.procs@[j]).pid
                < post.next_pid by {
            assert(pre.live(j));
            assert(pre.procs@[j].pid < pre.next_pid);
        }
    }
    assert(post.pid_order_ok()) by {
        reveal(Kernel::pid_order_ok);
        assert forall|j: int, q: int|
            #![trigger post.procs@[j].parent, post.procs@[q].pid]
            0 <= j < NPROC && 0 <= q < NPROC && post.live(j) && post.procs@[j].parent == Some(
                q as usize,
            ) implies post.procs@[q].pid < post.procs@[j].pid by {
            assert(pre.live(j));
            if j != pi && pre.procs@[j].parent == Some(p) {
                assert(q == ppi);
                assert(pre.procs@[ppi].pid < pre.procs@[pi].pid);
                assert(pre.procs@[pi].pid < pre.procs@[j].pid);
            } else {
                assert(post.procs@[j].parent == pre.procs@[j].parent);
                assert(pre.procs@[q].pid < pre.procs@[j].pid);
            }
        }
    }
    assert(post.kernel_shared_ok()) by {
        reveal(Kernel::kernel_shared_ok);
        assert forall|j: int, v: u64|
            #![trigger post.procs@[j].space.mappings().contains_key(v)]
            0 <= j < NPROC && post.live(j) && !crate::vm::is_user_vpn(v) implies (
        post.procs@[j].space.mappings().contains_key(v) == post.kpgtbl.mappings().contains_key(v)
            && (post.procs@[j].space.mappings().contains_key(v)
            ==> post.procs@[j].space.mappings()[v] == post.kpgtbl.mappings()[v])) by {
            assert(pre.live(j));
            assert(post.procs@[j].space == pre.procs@[j].space);
            assert(pre.procs@[j].space.mappings().contains_key(v)
                == pre.kpgtbl.mappings().contains_key(v) && (
            pre.procs@[j].space.mappings().contains_key(v)
                ==> pre.procs@[j].space.mappings()[v] == pre.kpgtbl.mappings()[v]));
        }
    }
    assert(post.parents_ok()) by {
        reveal(Kernel::parents_ok);
        assert forall|j: int|
            0 <= j < NPROC && post.live(j) implies match (#[trigger] post.procs@[j]).parent {
            Some(q) => q < NPROC && q != j && post.procs@[q as int].state != ProcState::Unused
                && post.procs@[q as int].state != ProcState::Zombie,
            None => true,
        } by {
            assert(pre.live(j));
            if post.procs@[j].parent is Some {
                let q = post.procs@[j].parent->0;
                if j != pi && pre.procs@[j].parent == Some(p) {
                    assert(q == pp);
                    assert(q != j) by {
                        reveal(Kernel::pid_order_ok);
                        if q == j {
                            assert(pre.procs@[pi].pid < pre.procs@[j].pid);
                        }
                    }
                    assert(post.procs@[ppi].state != ProcState::Unused);
                    assert(post.procs@[ppi].state != ProcState::Zombie);
                } else {
                    assert(post.procs@[j].parent == pre.procs@[j].parent);
                    assert(pre.procs@[q as int].state != ProcState::Unused);
                    assert(pre.procs@[q as int].state != ProcState::Zombie);
                    assert(q != p || j == pi);
                    if j == pi {
                        assert(q == pp);
                    }
                    assert(post.procs@[q as int].state != ProcState::Zombie);
                }
            }
        }
    }
    assert(post.running_ok()) by {
        reveal(Kernel::running_ok);
        assert forall|c2: int|
            0 <= c2 < post.cpus@.len() implies match (#[trigger] post.cpus@[c2]).current {
            Some(q) => q < NPROC && post.procs@[q as int].state == ProcState::Running,
            None => true,
        } by {
            if c2 != cpu_id && post.cpus@[c2].current is Some {
                let q = post.cpus@[c2].current->0;
                assert(pre.procs@[q as int].state == ProcState::Running);
                assert(pre.cpus@[c2].current != pre.cpus@[cpu_id].current);
                assert(q != p);
            }
        }
        assert forall|c1: int, c2: int|
            0 <= c1 < post.cpus@.len() && 0 <= c2 < post.cpus@.len() && c1 != c2 && (
            #[trigger] post.cpus@[c1]).current is Some implies post.cpus@[c1].current != (
            #[trigger] post.cpus@[c2]).current by {
            assert(pre.cpus@[c1].current is Some);
        }
        assert forall|k: int|
            0 <= k < NPROC && (#[trigger] post.procs@[k]).state == ProcState::Running implies
            exists|c2: int|
            0 <= c2 < post.cpus@.len() && (#[trigger] post.cpus@[c2]).current == Some(
                k as usize,
            ) by {
            assert(k != pi);
            assert(pre.procs@[k].state == ProcState::Running);
            let c2 = choose|c2: int|
                0 <= c2 < pre.cpus@.len() && (#[trigger] pre.cpus@[c2]).current == Some(
                    k as usize,
                );
            assert(c2 != cpu_id);
            assert(post.cpus@[c2].current == Some(k as usize));
        }
    }
}

/// The whole well-formedness invariant survives reaping a ZOMBIE slot `j`:
/// its frames return to the free pool, the slot turns UNUSED, and — since
/// no live process may have a ZOMBIE parent — no parent link dangles.
#[verifier::rlimit(100)]
proof fn lemma_reap_wf(pre: Kernel, post: Kernel, j: int)
    requires
        pre.wf(),
        0 <= j < NPROC,
        pre.procs@[j].state == ProcState::Zombie,
        post.cpus@ == pre.cpus@,
        post.table_lock == pre.table_lock,
        post.kpgtbl == pre.kpgtbl,
        post.next_pid == pre.next_pid,
        post.procs@.len() == NPROC,
        forall|i: int| 0 <= i < NPROC && i != j ==> post.procs@[i] == pre.procs@[i],
        post.procs@[j].state == ProcState::Unused,
        post.procs@[j].space.is_released(),
        post.procs@[j].kstack == 0,
        post.alloc.wf(),
        post.alloc.base == pre.alloc.base,
        post.alloc.total == pre.alloc.total,
        forall|q: u64|
            #![trigger post.alloc.free_set().contains(q)]
            post.alloc.free_set().contains(q) <==> pre.alloc.free_set().contains(q)
                || pre.slot_owns(j, q),
    ensures
        post.wf(),
{
    assert forall|i: int| 0 <= i < NPROC && i != j implies (post.live(i) <==> pre.live(i)) by {
        assert(post.procs@[i] == pre.procs@[i]);
    }
    assert forall|i: int, q: u64|
        0 <= i < NPROC && i != j implies (#[trigger] post.slot_owns(i, q) <==> pre.slot_owns(
        i,
        q,
    )) by {
        assert(post.procs@[i] == pre.procs@[i]);
    }
    assert(post.cpus_wf()) by {
        assert forall|c: int| 0 <= c < post.cpus@.len() implies (#[trigger] post.cpus@[c]).id
            == c as u32 by {
            assert(pre.cpus@[c].id == c as u32);
        }
    }
    assert(post.running_ok()) by {
        reveal(Kernel::running_ok);
        assert forall|c2: int|
            0 <= c2 < post.cpus@.len() implies match (#[trigger] post.cpus@[c2]).current {
            Some(q) => q < NPROC && post.procs@[q as int].state == ProcState::Running,
            None => true,
        } by {
            assert(post.cpus@[c2] == pre.cpus@[c2]);
            if pre.cpus@[c2].current is Some {
                let q = pre.cpus@[c2].current->0;
                assert(pre.procs@[q as int].state == ProcState::Running);
                assert(q as int != j);
            }
        }
        assert forall|c1: int, c2: int|
            0 <= c1 < post.cpus@.len() && 0 <= c2 < post.cpus@.len() && c1 != c2 && (
            #[trigger] post.cpus@[c1]).current is Some implies post.cpus@[c1].current != (
            #[trigger] post.cpus@[c2]).current by {
            assert(pre.cpus@[c1].current is Some);
        }
        assert forall|k: int|
            0 <= k < NPROC && (#[trigger] post.procs@[k]).state == ProcState::Running implies
            exists|c2: int|
            0 <= c2 < post.cpus@.len() && (#[trigger] post.cpus@[c2]).current == Some(
                k as usize,
            ) by {
            assert(k != j);
            assert(pre.procs@[k].state == ProcState::Running);
            let c2 = choose|c2: int|
                0 <= c2 < pre.cpus@.len() && (#[trigger] pre.cpus@[c2]).current == Some(
                    k as usize,
                );
            assert(post.cpus@[c2].current == Some(k as usize));
        }
    }
    assert(post.frames_ok()) by {
        reveal(Kernel::frames_ok);
        assert forall|i: int, q: u64|
            0 <= i < NPROC && post.live(i) && #[trigger] post.slot_owns(i, q) implies
            post.alloc.in_range(q) && !post.alloc.free_set().contains(q) by {
            assert(i != j);
            assert(pre.slot_owns(i, q));
            assert(pre.live(i));
            assert(!pre.alloc.free_set().contains(q));
            assert(!(pre.slot_owns(j, q) && pre.slot_owns(i, q)));
        }
        assert forall|i: int, i2: int, q: u64|
            #![trigger post.slot_owns(i, q), post.slot_owns(i2, q)]
            0 <= i < NPROC && 0 <= i2 < NPROC && i != i2 && post.live(i) && post.live(
                i2,
            ) implies !(post.slot_owns(i, q) && post.slot_owns(i2, q)) by {
            if post.slot_owns(i, q) && post.slot_owns(i2, q) {
                assert(i != j && i2 != j);
                assert(pre.slot_owns(i, q) && pre.slot_owns(i2, q));
            }
        }
        assert forall|i: int|
            0 <= i < NPROC && post.live(i) implies (#[trigger] post.procs@[i]).space.wf()
                && post.procs@[i].space.frames_distinct() && post.procs@[i].kstack != 0
                && post.procs@[i].space.root != 0 && !post.procs@[i].space.owns_frame(
                post.procs@[i].kstack,
            ) by {
            assert(i != j);
            assert(pre.live(i));
            assert(post.procs@[i] == pre.procs@[i]);
        }
        assert forall|i: int|
            0 <= i < NPROC && !post.live(i) implies (
            #[trigger] post.procs@[i]).space.is_released() && post.procs@[i].kstack == 0 by {
            if i != j {
                assert(!pre.live(i));
            }
        }
    }
    assert(post.parents_ok()) by {
        reveal(Kernel::parents_ok);
        assert forall|i: int|
            0 <= i < NPROC && post.live(i) implies match (#[trigger] post.procs@[i]).parent {
            Some(q) => q < NPROC && q != i && post.procs@[q as int].state != ProcState::Unused
                && post.procs@[q as int].state != ProcState::Zombie,
            None => true,
        } by {
            assert(i != j);
            assert(pre.live(i));
            assert(post.procs@[i] == pre.procs@[i]);
            if pre.procs@[i].parent is Some {
                let q = pre.procs@[i].parent->0;
                assert(pre.procs@[q as int].state != ProcState::Zombie);
                assert(q as int != j);
                assert(post.procs@[q as int] == pre.procs@[q as int]);
            }
        }
    }
    assert(post.pids_ok()) by {
        reveal(Kernel::pids_ok);
        assert forall|i: int|
            0 <= i < NPROC && post.live(i) implies (#[trigger] post.procs@[i]).pid
                < post.next_pid by {
            assert(i != j);
            assert(pre.live(i));
            assert(pre.procs@[i].pid < pre.next_pid);
        }
    }
    assert(post.pid_order_ok()) by {
        reveal(Kernel::pid_order_ok);
        assert forall|i: int, q: int|
            #![trigger post.procs@[i].parent, post.procs@[q].pid]
            0 <= i < NPROC && 0 <= q < NPROC && post.live(i) && post.procs@[i].parent == Some(
                q as usize,
            ) implies post.procs@[q].pid < post.procs@[i].pid by {
            assert(i != j);
            assert(pre.live(i));
            assert(post.procs@[i] == pre.procs@[i]);
            assert(q != j) by {
                reveal(Kernel::parents_ok);
            }
            assert(pre.procs@[q].pid < pre.procs@[i].pid);
            assert(post.procs@[q] == pre.procs@[q]);
        }
    }
    assert(post.kernel_shared_ok()) by {
        reveal(Kernel::kernel_shared_ok);
        assert forall|i: int, v: u64|
            #![trigger post.procs@[i].space.mappings().contains_key(v)]
            0 <= i < NPROC && post.live(i) && !crate::vm::is_user_vpn(v) implies (
        post.procs@[i].space.mappings().contains_key(v) == post.kpgtbl.mappings().contains_key(v)
            && (post.procs@[i].space.mappings().contains_key(v)
            ==> post.procs@[i].space.mappings()[v] == post.kpgtbl.mappings()[v])) by {
            assert(i != j);
            assert(pre.live(i));
            assert(post.procs@[i] == pre.procs@[i]);
            assert(pre.procs@[i].space.mappings().contains_key(v)
                == pre.kpgtbl.mappings().contains_key(v) && (
            pre.procs@[i].space.mappings().contains_key(v)
                ==> pre.procs@[i].space.mappings()[v] == pre.kpgtbl.mappings()[v]));
        }
    }
}

/// The RUNNING agreement survives parking the running process of `cpu_id`:
/// it leaves RUNNING and the core's scheduler context resumes.
proof fn lemma_park_running(pre: Kernel, post: Kernel, cpu_id: int, p: usize)
    requires
        pre.wf(),
        0 <= cpu_id < pre.cpus@.len(),
        pre.cpus@[cpu_id].current == Some(p),
        p < NPROC,
        post.procs@.len() == NPROC,
        post.cpus@.len() == pre.cpus@.len(),
        forall|i: int|
            0 <= i < NPROC && i != p ==> (#[trigger] post.procs@[i]).state == pre.procs@[i].state,
        post.procs@[p as int].state != ProcState::Running,
        forall|c: int|
            0 <= c < post.cpus@.len() && c != cpu_id ==> (#[trigger] post.cpus@[c]).current
                == pre.cpus@[c].current,
        post.cpus@[cpu_id].current is None,
    ensures
        post.running_ok(),
{
    reveal(Kernel::running_ok);
    assert forall|c2: int|
        0 <= c2 < post.cpus@.len() implies match (#[trigger] post.cpus@[c2]).current {
        Some(q) => q < NPROC && post.procs@[q as int].state == ProcState::Running,
        None => true,
    } by {
        if c2 != cpu_id && post.cpus@[c2].current is Some {
            let q = post.cpus@[c2].current->0;
            assert(pre.procs@[q as int].state == ProcState::Running);
            assert(pre.cpus@[c2].current != pre.cpus@[cpu_id].current);
            assert(q != p);
        }
    }
    assert forall|c1: int, c2: int|
        0 <= c1 < post.cpus@.len() && 0 <= c2 < post.cpus@.len() && c1 != c2 && (
        #[trigger] post.cpus@[c1]).current is Some implies post.cpus@[c1].current != (
        #[trigger] post.cpus@[c2]).current by {
        assert(pre.cpus@[c1].current is Some);
    }
    assert forall|k: int|
        0 <= k < NPROC && (#[trigger] post.procs@[k]).state == ProcState::Running implies exists|
        c2: int,
    |
        0 <= c2 < post.cpus@.len() && (#[trigger] post.cpus@[c2]).current == Some(k as usize) by {
        assert(k != p as int);
        assert(pre.procs@[k].state == ProcState::Running);
        let c2 = choose|c2: int|
            0 <= c2 < pre.cpus@.len() && (#[trigger] pre.cpus@[c2]).current == Some(k as usize);
        assert(c2 != cpu_id);
        assert(post.cpus@[c2].current == Some(k as usize));
    }
}

/// Changes that touch only a live process's saved register state — its trap
/// frame or context — preserve the whole kernel invariant: no lifecycle
/// state, ownership, pid or parent link moves.
pub(crate) proof fn lemma_state_only_wf(pre: Kernel, post: Kernel)
    requires
        pre.wf(),
        post.procs@.len() == NPROC,
        post.cpus@ == pre.cpus@,
        post.alloc == pre.alloc,
        post.kpgtbl == pre.kpgtbl,
        post.next_pid == pre.next_pid,
        forall|i: int|
            0 <= i < NPROC ==> (#[trigger] post.procs@[i]).space == pre.procs@[i].space
                && post.procs@[i].kstack == pre.procs@[i].kstack && post.procs@[i].pid
                == pre.procs@[i].pid && post.procs@[i].parent == pre.procs@[i].parent
                && post.procs@[i].state == pre.procs@[i].state,
    ensures
        post.wf(),
{
    assert forall|c: int|
        0 <= c < post.cpus@.len() implies (#[trigger] post.cpus@[c]).id == pre.cpus@[c].id && (
    post.cpus@[c]).current == pre.cpus@[c].current by {
        assert(post.cpus@[c] == pre.cpus@[c]);
    }
    lemma_state_only_transfer(pre, post);
    lemma_pid_order_transfer(pre, post);
    lemma_running_transfer(pre, post);
}

/// The whole well-formedness invariant survives swapping slot `p`'s address
/// space for a fresh one `s2` whose frames all came off the free list —
/// disjoint, therefore, from every frame any process owned — while the old
/// space's frames went back to the pool.
#[verifier::rlimit(100)]
proof fn lemma_replace_space_wf(pre: Kernel, post: Kernel, p: int, s2: PageTable)
    requires
        pre.wf(),
        0 <= p < NPROC,
        pre.live(p),
        post.cpus@ == pre.cpus@,
        post.table_lock == pre.table_lock,
        post.kpgtbl == pre.kpgtbl,
        post.next_pid == pre.next_pid,
        post.procs@.len() == NPROC,
        forall|i: int| 0 <= i < NPROC && i != p ==> post.procs@[i] == pre.procs@[i],
        post.procs@[p] == (Proc { space: s2, ..pre.procs@[p] }),
        s2.wf(),
        s2.frames_distinct(),
        s2.root != 0,
        forall|q: u64| #[trigger] s2.owns_frame(q) ==> pre.alloc.free_set().contains(q),
        forall|q: u64|
            #[trigger] s2.owns_frame(q) ==> post.alloc.in_range(q)
                && !post.alloc.free_set().contains(q),
        !s2.owns_frame(pre.procs@[p].kstack),
        post.alloc.wf(),
        post.alloc.base == pre.alloc.base,
        post.alloc.total == pre.alloc.total,
        forall|q: u64|
            #[trigger] post.alloc.free_set().contains(q) ==> pre.alloc.free_set().contains(q)
                || pre.procs@[p].space.owns_frame(q),
        forall|v: u64|
            !crate::vm::is_user_vpn(v) ==> (s2.mappings().contains_key(v)
                == pre.kpgtbl.mappings().contains_key(v) && (s2.mappings().contains_key(v)
                ==> s2.mappings()[v] == pre.kpgtbl.mappings()[v])),
    ensures
        post.wf(),
{
    assert forall|i: int| 0 <= i < NPROC implies (post.live(i) <==> pre.live(i)) && (
    #[trigger] post.procs@[i]).state == pre.procs@[i].state && post.procs@[i].parent
        == pre.procs@[i].parent && post.procs@[i].pid == pre.procs@[i].pid
        && post.procs@[i].kstack == pre.procs@[i].kstack by {
        if i != p {
            assert(post.procs@[i] == pre.procs@[i]);
        }
    }
    assert(post.cpus_wf()) by {
        assert forall|c: int| 0 <= c < post.cpus@.len() implies (#[trigger] post.cpus@[c]).id
            == c as u32 by {
            assert(pre.cpus@[c].id == c as u32);
        }
    }
    assert(post.running_ok()) by {
        lemma_running_transfer(pre, post);
    }
    lemma_pid_order_transfer(pre, post);
    assert(post.frames_ok()) by {
        reveal(Kernel::frames_ok);
        assert forall|i: int, q: u64|
            0 <= i < NPROC && i != p implies (#[trigger] post.slot_owns(i, q) <==> pre.slot_owns(
            i,
            q,
        )) by {
            assert(post.procs@[i] == pre.procs@[i]);
        }
        assert forall|i: int, q: u64|
            0 <= i < NPROC && post.live(i) && #[trigger] post.slot_owns(i, q) implies
            post.alloc.in_range(q) && !post.alloc.free_set().contains(q) by {
            if i != p {
                assert(pre.slot_owns(i, q));
                assert(pre.live(i));
                assert(!pre.alloc.free_set().contains(q));
                if post.alloc.free_set().contains(q) {
                    assert(pre.procs@[p].space.owns_frame(q));
                    assert(pre.slot_owns(p, q));
                    assert(!(pre.slot_owns(i, q) && pre.slot_owns(p, q)));
                }
            } else {
                if q == post.procs@[p].kstack {
                    assert(pre.slot_owns(p, q));
                    assert(!pre.alloc.free_set().contains(q));
                    assert(pre.alloc.in_range(q));
                    if post.alloc.free_set().contains(q) {
                        assert(pre.procs@[p].space.owns_frame(q));
                        assert(!pre.procs@[p].space.owns_frame(pre.procs@[p].kstack));
                    }
                } else {
                    assert(s2.owns_frame(q));
                }
            }
        }
        assert forall|i: int, i2: int, q: u64|
            #![trigger post.slot_owns(i, q), post.slot_owns(i2, q)]
            0 <= i < NPROC && 0 <= i2 < NPROC && i != i2 && post.live(i) && post.live(
                i2,
            ) implies !(post.slot_owns(i, q) && post.slot_owns(i2, q)) by {
            if post.slot_owns(i, q) && post.slot_owns(i2, q) {
                if i != p && i2 != p {
                    assert(pre.slot_owns(i, q) && pre.slot_owns(i2, q));
                } else {
                    let other: int = if i == p {
                        i2
                    } else {
                        i
                    };
                    assert(pre.slot_owns(other, q));
                    assert(pre.live(other));
                    assert(!pre.alloc.free_set().contains(q));
                    if q == post.procs@[p].kstack {
                        assert(pre.slot_owns(p, q));
                        assert(!(pre.slot_owns(other, q) && pre.slot_owns(p, q)));
                    } else {
                        assert(s2.owns_frame(q));
                        assert(pre.alloc.free_set().contains(q));
                    }
                }
            }
        }
        assert forall|i: int|
            0 <= i < NPROC && post.live(i) implies (#[trigger] post.procs@[i]).space.wf()
                && post.procs@[i].space.frames_distinct() && post.procs@[i].kstack != 0
                && post.procs@[i].space.root != 0 && !post.procs@[i].space.owns_frame(
                post.procs@[i].kstack,
            ) by {
            if i != p {
                assert(pre.live(i));
                assert(post.procs@[i] == pre.procs@[i]);
            } else {
                assert(pre.procs@[p].kstack != 0);
            }
        }
        assert forall|i: int|
            0 <= i < NPROC && !post.live(i) implies (
            #[trigger] post.procs@[i]).space.is_released() && post.procs@[i].kstack == 0 by {
            assert(!pre.live(i));
            assert(i != p);
            assert(post.procs@[i] == pre.procs@[i]);
        }
    }
    assert(post.parents_ok()) by {
        reveal(Kernel::parents_ok);
        assert forall|i: int|
            0 <= i < NPROC && post.live(i) implies match (#[trigger] post.procs@[i]).parent {
            Some(q) => q < NPROC && q != i && post.procs@[q as int].state != ProcState::Unused
                && post.procs@[q as int].state != ProcState::Zombie,
            None => true,
        } by {
            assert(pre.live(i));
            assert(post.procs@[i].parent == pre.procs@[i].parent);
            if pre.procs@[i].parent is Some {
                let q = pre.procs@[i].parent->0;
                assert(post.procs@[q as int].state == pre.procs@[q as int].state);
            }
        }
    }
    assert(post.pids_ok()) by {
        reveal(Kernel::pids_ok);
        assert forall|i: int|
            0 <= i < NPROC && post.live(i) implies (#[trigger] post.procs@[i]).pid
                < post.next_pid by {
            assert(pre.live(i));
            assert(pre.procs@[i].pid < pre.next_pid);
        }
    }
    assert(post.kernel_shared_ok()) by {
        reveal(Kernel::kernel_shared_ok);
        assert forall|i: int, v: u64|
            #![trigger post.procs@[i].space.mappings().contains_key(v)]
            0 <= i < NPROC && post.live(i) && !crate::vm::is_user_vpn(v) implies (
        post.procs@[i].space.mappings().contains_key(v) == post.kpgtbl.mappings().contains_key(v)
            && (post.procs@[i].space.mappings().contains_key(v)
            ==> post.procs@[i].space.mappings()[v] == post.kpgtbl.mappings()[v])) by {
            if i != p {
                assert(pre.live(i));
                assert(post.procs@[i] == pre.procs@[i]);
                assert(pre.procs@[i].space.mappings().contains_key(v)
                    == pre.kpgtbl.mappings().contains_key(v) && (
                pre.procs@[i].space.mappings().contains_key(v)
                    ==> pre.procs@[i].space.mappings()[v] == pre.kpgtbl.mappings()[v]));
            } else {
                assert(post.procs@[p].space == s2);
            }
        }
    }
}

/// Transfers the RUNNING agreement when neither the set of RUNNING
/// processes nor any core's current process changed.
proof fn lemma_running_transfer(pre: Kernel, post: Kernel)
    requires
        pre.wf(),
        post.procs@.len() == NPROC,
        post.cpus@.len() == pre.cpus@.len(),
        forall|c: int|
            0 <= c < post.cpus@.len() ==> (#[trigger] post.cpus@[c]).current
                == pre.cpus@[c].current,
        forall|i: int|
            0 <= i < NPROC ==> ((#[trigger] post.procs@[i]).state == ProcState::Running
                <==> pre.procs@[i].state == ProcState::Running),
    ensures
        post.running_ok(),
{
    reveal(Kernel::running_ok);
    assert forall|c: int|
        0 <= c < post.cpus@.len() implies match (#[trigger] post.cpus@[c]).current {
        Some(i) => i < NPROC && post.procs@[i as int].state == ProcState::Running,
        None => true,
    } by {
        assert(post.cpus@[c].current == pre.cpus@[c].current);
        if post.cpus@[c].current is Some {
            let i = post.cpus@[c].current->0;
            assert(pre.procs@[i as int].state == ProcState::Running);
        }
    }
    assert forall|c1: int, c2: int|
        0 <= c1 < post.cpus@.len() && 0 <= c2 < post.cpus@.len() && c1 != c2 && (
        #[trigger] post.cpus@[c1]).current is Some implies post.cpus@[c1].current != (
        #[trigger] post.cpus@[c2]).current by {
        assert(pre.cpus@[c1].current is Some);
    }
    assert forall|i: int|
        0 <= i < NPROC && (#[trigger] post.procs@[i]).state == ProcState::Running implies exists|
        c: int,
    |
        0 <= c < post.cpus@.len() && (#[trigger] post.cpus@[c]).current == Some(i as usize) by {
        assert(pre.procs@[i].state == ProcState::Running);
        let c = choose|c: int|
            0 <= c < pre.cpus@.len() && (#[trigger] pre.cpus@[c]).current == Some(i as usize);
        assert(post.cpus@[c].current == Some(i as usize));
    }
}

/// The slot the scheduler's scan selects: the first RUNNABLE slot at or
/// after `i`, in fixed table order.
pub open spec fn first_runnable_from(s: Seq<Proc>, i: int) -> Option<int>
    decreases s.len() - i,
{
    if i < 0 || i >= s.len() {
        None
    } else if s[i].state == ProcState::Runnable {
        Some(i)
    } else {
        first_runnable_from(s, i + 1)
    }
}

/// Law: at any instant, a core runs at most one process, a process runs on
/// at most one core, and whatever a core's current process is, that process
/// is RUNNING. Two cores whose current process is the same process are the
/// same core.
pub proof fn lemma_one_running_per_core(k: Kernel, c1: int, c2: int)
    requires
        k.wf(),
        0 <= c1 < k.cpus@.len(),
        0 <= c2 < k.cpus@.len(),
        k.cpus@[c1].current is Some,
        k.cpus@[c1].current == k.cpus@[c2].current,
    ensures
        c1 == c2,
        k.procs@[k.cpus@[c1].current->0 as int].state == ProcState::Running,
{
    reveal(Kernel::running_ok);
}

/// Law: every RUNNING process is the current process of some core — no
/// process is RUNNING without a core, and with the lemma above, on exactly
/// one core.
pub proof fn lemma_running_has_a_core(k: Kernel, i: int)
    requires
        k.wf(),
        0 <= i < NPROC,
        k.procs@[i].state == ProcState::Running,
    ensures
        exists|c: int|
            0 <= c < k.cpus@.len() && (#[trigger] k.cpus@[c]).current == Some(i as usize),
{
    reveal(Kernel::running_ok);
}

/// Law: the scheduler's scan is a function of the lifecycle states alone.
/// Re-running it over a table whose states are unchanged — a no-op
/// interval — selects the same process.
pub proof fn lemma_scan_deterministic(a: Seq<Proc>, b: Seq<Proc>, i: int)
    requires
        a.len() == b.len(),
        forall|j: int| 0 <= j < a.len() ==> a[j].state == b[j].state,
    ensures
        first_runnable_from(a, i) == first_runnable_from(b, i),
    decreases a.len() - i,
{
    if 0 <= i < a.len() {
        lemma_scan_deterministic(a, b, i + 1);
    }
}

/// The scan selects slot `p` when `p` is RUNNABLE and nothing before it is.
proof fn lemma_first_runnable_at(s: Seq<Proc>, p: int, i: int)
    requires
        0 <= i <= p < s.len(),
        s[p].state == ProcState::Runnable,
        forall|j: int| i <= j < p ==> (#[trigger] s[j]).state != ProcState::Runnable,
    ensures
        first_runnable_from(s, i) == Some(p),
    decreases p - i,
{
    if i < p {
        lemma_first_runnable_at(s, p, i + 1);
    }
}

/// Law: the end of the sleep/wakeup rendezvous. A process parked SLEEPING
/// on a channel is RUNNABLE after a wakeup of that channel, and — being
/// then the first RUNNABLE slot in scan order — the very next scheduler
/// scan on any idle core selects it: it becomes RUNNING. Selection is by
/// scan order, so a woken process behind other RUNNABLE slots waits its
/// turn instead.
pub proof fn lemma_woken_is_selected(pre: Kernel, post: Kernel, p: int, chan: u64)
    requires
        0 <= p < NPROC,
        pre.procs@.len() == NPROC,
        post.procs@.len() == NPROC,
        pre.procs@[p].state == ProcState::Sleeping,
        pre.procs@[p].chan == chan,
        forall|i: int|
            0 <= i < NPROC ==> post.procs@[i] == (if pre.procs@[i].state == ProcState::Sleeping
                && pre.procs@[i].chan == chan {
                (Proc { state: ProcState::Runnable, ..pre.procs@[i] })
            } else {
                pre.procs@[i]
            }),
        forall|j: int| 0 <= j < p ==> (#[trigger] post.procs@[j]).state != ProcState::Runnable,
    ensures
        post.procs@[p].state == ProcState::Runnable,
        first_runnable_from(post.procs@, 0) == Some(p),
{
    lemma_no_lost_wakeup(pre, post, p, chan);
    lemma_first_runnable_at(post.procs@, p, 0);
}

/// Law: no lost wakeup. A process that is SLEEPING on a channel — which
/// `sleep` makes it while it still holds the caller's lock, under the
/// table lock — is RUNNABLE after any `wakeup` of that channel, which runs
/// under the same table lock and therefore strictly before or after the
/// whole of `sleep`, never in between.
pub proof fn lemma_no_lost_wakeup(pre: Kernel, post: Kernel, p: int, chan: u64)
    requires
        0 <= p < NPROC,
        pre.procs@.len() == NPROC,
        post.procs@.len() == NPROC,
        pre.procs@[p].state == ProcState::Sleeping,
        pre.procs@[p].chan == chan,
        forall|i: int|
            0 <= i < NPROC ==> post.procs@[i] == (if pre.procs@[i].state == ProcState::Sleeping
                && pre.procs@[i].chan == chan {
                (Proc { state: ProcState::Runnable, ..pre.procs@[i] })
            } else {
                pre.procs@[i]
            }),
    ensures
        post.procs@[p].state == ProcState::Runnable,
{
}

} // verus!
