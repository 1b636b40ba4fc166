//! The legacy interrupt router: one redirection entry per possible ISA IRQ
//! line, each naming a vector, a destination core, and a mask bit.
//!
//! This is the routing table the controller's registers encode; programming
//! the registers themselves (volatile writes behind a discovered base
//! address) is the platform layer's business, outside this crate. A line
//! maps to exactly one vector and one destination core at a time; moving a
//! line to another core goes through `enable` again.

use vstd::prelude::*;

verus! {

/// Hardware IRQ lines are remapped above the exception range: line `k`
/// raises vector `32 + k`.
pub const IRQ_VECTOR_BASE: u64 = 32;

/// The routing of one ISA IRQ line.
#[derive(Clone, Copy, PartialEq, Eq, Structural, Debug)]
pub struct RouteEntry {
    /// Whether the line is unmasked.
    pub enabled: bool,
    /// The vector the line raises on its destination core.
    pub vector: u64,
    /// The core the line is delivered to.
    pub dest: u32,
}

/// The router's redirection table.
pub struct IoApic {
    pub entries: Vec<RouteEntry>,
}

/// The router after discovery: one entry per line up to and including the
/// highest line the controller reports, every line masked, vector `32 + k`,
/// destination core 0.
pub fn init(max_intr: usize) -> (r: IoApic)
    requires
        max_intr < 256,
    ensures
        r.entries@.len() == max_intr + 1,
        forall|k: int|
            0 <= k <= max_intr ==> (#[trigger] r.entries@[k]) == (RouteEntry {
                enabled: false,
                vector: (32 + k) as u64,
                dest: 0,
            }),
{
    let mut entries: Vec<RouteEntry> = Vec::new();
    let mut k: usize = 0;
    while k <= max_intr
        invariant
            max_intr < 256,
            k <= max_intr + 1,
            entries@.len() == k,
            forall|j: int|
                0 <= j < k ==> (#[trigger] entries@[j]) == (RouteEntry {
                    enabled: false,
                    vector: (32 + j) as u64,
                    dest: 0,
                }),
        decreases max_intr + 1 - k,
    {
        entries.push(
            RouteEntry { enabled: false, vector: 32 + (k as u64), dest: 0 },
        );
        k = k + 1;
    }
    IoApic { entries }
}

/// Routes line `irq` to core `cpu` with vector `32 + irq` and unmasks it;
/// every other line keeps its routing unchanged.
pub fn enable(io: &mut IoApic, irq: usize, cpu: u32)
    requires
        irq < old(io).entries@.len(),
        irq < 256,
    ensures
        final(io).entries@ == old(io).entries@.update(
            irq as int,
            (RouteEntry { enabled: true, vector: (irq + 32) as u64, dest: cpu }),
        ),
{
    let e = &mut io.entries[irq];
    e.enabled = true;
    e.vector = (irq as u64) + 32;
    e.dest = cpu;
    proof {
        assert(io.entries@ =~= old(io).entries@.update(
            irq as int,
            (RouteEntry { enabled: true, vector: (irq + 32) as u64, dest: cpu }),
        ));
    }
}

} // verus!
