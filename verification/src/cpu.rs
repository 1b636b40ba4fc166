//! Per-CPU state and multi-core bring-up.
//!
//! One control block exists per physical core for the kernel's whole
//! lifetime. The block records which process the core is running, the
//! nested interrupt-disable depth used by the spin-style locks, the model of
//! the core's interrupt-enable flag, the active address-space root, and the
//! local interrupt controller's state: whether it is initialized, the
//! bring-up pulses it has received, and the inter-processor interrupt
//! vectors sent to it and not yet taken.

use crate::KernelError;
use vstd::prelude::*;

verus! {

/// Reserved inter-processor interrupt vector: ask the target core to
/// reschedule (preemption from another core).
pub const IPI_RESCHED: u64 = 250;

/// Reserved inter-processor interrupt vector: ask the target core to halt.
pub const IPI_HALT: u64 = 251;

pub open spec fn is_reserved_ipi(vector: u64) -> bool {
    vector == IPI_RESCHED || vector == IPI_HALT
}

/// One core's control block.
pub struct Cpu {
    /// Core identifier; also its index in the kernel's core list.
    pub id: u32,
    /// Slot index of the process currently RUNNING on this core, if any.
    pub current: Option<usize>,
    /// Depth of nested interrupt-disable sections (spin-lock acquisitions).
    pub noff: u64,
    /// Whether interrupts were enabled before the outermost disable.
    pub intena: bool,
    /// Model of the core's interrupt-enable flag.
    pub intr_on: bool,
    /// Whether this core has completed bring-up and entered its scheduler.
    pub started: bool,
    /// Whether the core's local interrupt controller is initialized; device
    /// interrupts and IPIs can only be received afterwards.
    pub lapic_ready: bool,
    /// Root frame of the address space active on this core.
    pub cr3: u64,
    /// Bring-up pulses this core's controller has received.
    pub init_pulses: u64,
    pub startup_pulses: u64,
    /// IPI vectors sent to this core and not yet dispatched.
    pub pending_ipis: Vec<u64>,
}

impl Cpu {
    /// Assigns a core its control block, before any interrupt is enabled on
    /// it: no current process, depth zero, interrupts off.
    pub fn init(id: u32) -> (r: Cpu)
        ensures
            r.id == id,
            r.current is None,
            r.noff == 0,
            !r.intr_on,
            !r.started,
            !r.lapic_ready,
            r.cr3 == 0,
            r.init_pulses == 0,
            r.startup_pulses == 0,
            r.pending_ipis@.len() == 0,
    {
        Cpu {
            id,
            current: None,
            noff: 0,
            intena: false,
            intr_on: false,
            started: false,
            lapic_ready: false,
            cr3: 0,
            init_pulses: 0,
            startup_pulses: 0,
            pending_ipis: Vec::new(),
        }
    }

    /// Initializes the core's local interrupt controller, exactly once.
    pub fn lapic_init(&mut self)
        requires
            !old(self).lapic_ready,
        ensures
            *final(self) == (Cpu { lapic_ready: true, ..*old(self) }),
    {
        self.lapic_ready = true;
    }

    /// Disables interrupts on this core and deepens the nesting count; the
    /// pre-disable enable state is captured only by the outermost call, so
    /// nested sections cannot re-enable interrupts early.
    pub fn push_off(&mut self)
        requires
            old(self).noff < u64::MAX,
        ensures
            *final(self) == (Cpu {
                noff: (old(self).noff + 1) as u64,
                intena: if old(self).noff == 0 {
                    old(self).intr_on
                } else {
                    old(self).intena
                },
                intr_on: false,
                ..*old(self)
            }),
    {
        if self.noff == 0 {
            self.intena = self.intr_on;
        }
        self.intr_on = false;
        self.noff = self.noff + 1;
    }

    /// Leaves one nested interrupt-disable section; interrupts come back on
    /// only when the outermost section ends, and only if they were on before
    /// it began.
    pub fn pop_off(&mut self)
        requires
            old(self).noff > 0,
            !old(self).intr_on,
        ensures
            *final(self) == (Cpu {
                noff: (old(self).noff - 1) as u64,
                intr_on: old(self).noff == 1 && old(self).intena,
                ..*old(self)
            }),
    {
        self.noff = self.noff - 1;
        if self.noff == 0 && self.intena {
            self.intr_on = true;
        }
    }
}

/// The one-shot readiness handshake a starting core raises for the boot
/// core. Raised at most once per core, never lowered.
pub struct Signal {
    pub raised: bool,
}

impl Signal {
    pub fn new() -> (r: Signal)
        ensures
            !r.raised,
    {
        Signal { raised: false }
    }
}

/// A freshly started core signals the boot core that it is up. Relied upon
/// by `start_others`, which refuses to proceed to the next core before the
/// signal is observed or the retry bound is spent.
pub fn signal_up(semaphore: &mut Signal)
    ensures
        final(semaphore).raised,
{
    semaphore.raised = true;
}

/// Sends inter-processor interrupt `vector` to core `dest`, whose local
/// controller must be ready; the vector queues until that core dispatches
/// it.
pub fn send_ipi(cpus: &mut Vec<Cpu>, dest: usize, vector: u64)
    requires
        dest < old(cpus)@.len(),
        old(cpus)@[dest as int].lapic_ready,
        is_reserved_ipi(vector),
    ensures
        final(cpus)@.len() == old(cpus)@.len(),
        final(cpus)@[dest as int] == (Cpu {
            pending_ipis: final(cpus)@[dest as int].pending_ipis,
            ..old(cpus)@[dest as int]
        }),
        final(cpus)@[dest as int].pending_ipis@ == old(
            cpus,
        )@[dest as int].pending_ipis@.push(vector),
        forall|k: int|
            0 <= k < old(cpus)@.len() && k != dest ==> final(cpus)@[k] == old(cpus)@[k],
{
    let c = &mut cpus[dest];
    c.pending_ipis.push(vector);
}

/// Takes the oldest pending inter-processor interrupt of `cpu`, if any.
pub fn take_ipi(cpu: &mut Cpu) -> (r: Option<u64>)
    ensures
        *final(cpu) == (Cpu { pending_ipis: final(cpu).pending_ipis, ..*old(cpu) }),
        match r {
            Some(v) => old(cpu).pending_ipis@.len() > 0 && v == old(cpu).pending_ipis@[0]
                && final(cpu).pending_ipis@ == old(cpu).pending_ipis@.subrange(
                1,
                old(cpu).pending_ipis@.len() as int,
            ),
            None => old(cpu).pending_ipis@.len() == 0 && final(cpu).pending_ipis@ == old(
                cpu,
            ).pending_ipis@,
        },
{
    if self_has_pending(cpu) {
        let v = cpu.pending_ipis.remove(0);
        Some(v)
    } else {
        None
    }
}

/// Whether a core has an undispatched inter-processor interrupt.
fn self_has_pending(cpu: &Cpu) -> (r: bool)
    ensures
        r == (cpu.pending_ipis@.len() > 0),
{
    cpu.pending_ipis.len() > 0
}

/// Observes a starting core's readiness handshake at the end of the
/// bounded poll: the typed outcome of that core's bring-up. A core whose
/// signal is still down after the retry bound has timed out.
pub fn check_ready(sig: &Signal) -> (r: Result<(), KernelError>)
    ensures
        sig.raised <==> r is Ok,
        !sig.raised ==> r == Err::<(), KernelError>(KernelError::BringupTimeout),
{
    if sig.raised {
        Ok(())
    } else {
        Err(KernelError::BringupTimeout)
    }
}

/// The identifiers of the cores among the first `k` whose readiness signal
/// was not raised, in core order.
pub open spec fn bringup_failures(cpus: Seq<Cpu>, sigs: Seq<Signal>, k: int) -> Seq<u32>
    decreases k,
{
    if k <= 1 {
        Seq::empty()
    } else {
        bringup_failures(cpus, sigs, k - 1) + if !sigs[k - 1].raised {
            seq![cpus[k - 1].id]
        } else {
            Seq::empty()
        }
    }
}

/// Starts the remaining cores, strictly one after the other: each gets the
/// bring-up sequence of one init pulse and two startup pulses, then the
/// boot core waits on that core's readiness handshake before moving on. A
/// core whose signal is not observed within the retry bound is reported in
/// the returned list — boot proceeds with fewer cores, never silently.
///
/// Runs only on the boot core (index 0), which must already be started; in
/// this single-step model the bounded poll collapses to one observation of
/// each handshake.
pub fn start_others(cpus: &mut Vec<Cpu>, signals: &Vec<Signal>) -> (failed: Vec<u32>)
    requires
        old(cpus)@.len() == signals@.len(),
        old(cpus)@.len() >= 1,
        old(cpus)@[0].started,
        forall|k: int| 1 <= k < old(cpus)@.len() ==> !(#[trigger] old(cpus)@[k]).started,
        forall|k: int|
            1 <= k < old(cpus)@.len() ==> (#[trigger] old(cpus)@[k]).init_pulses == 0 && old(
                cpus,
            )@[k].startup_pulses == 0,
    ensures
        final(cpus)@.len() == old(cpus)@.len(),
        final(cpus)@[0] == old(cpus)@[0],
        forall|k: int|
            1 <= k < old(cpus)@.len() ==> final(cpus)@[k] == (Cpu {
                started: signals@[k].raised,
                init_pulses: 1,
                startup_pulses: 2,
                ..old(cpus)@[k]
            }),
        failed@ == bringup_failures(old(cpus)@, signals@, old(cpus)@.len() as int),
{
    let mut failed: Vec<u32> = Vec::new();
    let n = cpus.len();
    let mut k: usize = 1;
    while k < n
        invariant
            n == cpus@.len(),
            cpus@.len() == old(cpus)@.len(),
            signals@.len() == old(cpus)@.len(),
            1 <= k <= n,
            cpus@[0] == old(cpus)@[0],
            forall|j: int|
                1 <= j < n ==> (#[trigger] old(cpus)@[j]).init_pulses == 0 && old(
                    cpus,
                )@[j].startup_pulses == 0 && !old(cpus)@[j].started,
            forall|j: int| k <= j < n ==> cpus@[j] == old(cpus)@[j],
            forall|j: int|
                1 <= j < k ==> cpus@[j] == (Cpu {
                    started: signals@[j].raised,
                    init_pulses: 1,
                    startup_pulses: 2,
                    ..old(cpus)@[j]
                }),
            failed@ == bringup_failures(old(cpus)@, signals@, k as int),
        decreases n - k,
    {
        let ghost pre_failed = failed@;
        let raised = match check_ready(&signals[k]) {
            Ok(()) => true,
            Err(_) => false,
        };
        let id = cpus[k].id;
        let c = &mut cpus[k];
        c.init_pulses = c.init_pulses + 1;
        c.startup_pulses = c.startup_pulses + 2;
        if raised {
            c.started = true;
            proof {
                assert(failed@ =~= bringup_failures(old(cpus)@, signals@, k + 1));
            }
        } else {
            failed.push(id);
            proof {
                assert(pre_failed.push(id) =~= pre_failed + seq![old(cpus)@[k as int].id]);
                assert(failed@ =~= bringup_failures(old(cpus)@, signals@, k + 1));
            }
        }
        k = k + 1;
    }
    failed
}

} // verus!
