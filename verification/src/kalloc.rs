//! Physical page allocator: tracks the free page frames of one contiguous
//! managed range and hands out or reclaims single frames in O(1).
//!
//! The allocator provides no locking of its own; callers serialize access
//! under a lock of their choosing.

use crate::KernelError;
use vstd::prelude::*;

verus! {

/// The free pool of physical page frames, identified by page frame number.
/// A free list (here an explicit stack of frame numbers) makes both
/// `allocate` and `free` constant-time.
pub struct PageAllocator {
    /// First page frame number of the managed range.
    pub base: u64,
    /// Number of page frames in the managed range.
    pub total: u64,
    /// Frame numbers currently free; each managed frame appears at most once.
    pub free_list: Vec<u64>,
}

impl PageAllocator {
    /// The set of page frame numbers currently free.
    pub open spec fn free_set(self) -> Set<u64> {
        self.free_list@.to_set()
    }

    /// How many page frames are currently free.
    pub open spec fn free_count(self) -> nat {
        self.free_list@.len()
    }

    /// Whether `pfn` lies in the managed range.
    pub open spec fn in_range(self, pfn: u64) -> bool {
        self.base <= pfn < self.base + self.total
    }

    pub open spec fn wf(self) -> bool {
        &&& self.free_list@.no_duplicates()
        &&& forall|i: int|
            0 <= i < self.free_list@.len() ==> self.in_range(#[trigger] self.free_list@[i])
        &&& self.base + self.total <= u64::MAX
    }

    /// A fresh allocator managing `total` frames starting at `base`; every
    /// managed frame starts out free.
    pub fn new(base: u64, total: u64) -> (r: PageAllocator)
        requires
            base + total <= u64::MAX,
            total <= usize::MAX,
        ensures
            r.wf(),
            r.base == base,
            r.total == total,
            r.free_count() == total,
            forall|p: u64| r.free_set().contains(p) <==> r.in_range(p),
    {
        let mut free_list: Vec<u64> = Vec::new();
        let mut k: u64 = 0;
        while k < total
            invariant
                k <= total,
                base + total <= u64::MAX,
                free_list@.len() == k,
                forall|i: int| 0 <= i < k ==> free_list@[i] == base + i,
            decreases total - k,
        {
            free_list.push(base + k);
            k = k + 1;
        }
        let r = PageAllocator { base, total, free_list };
        proof {
            assert forall|i: int, j: int|
                0 <= i < r.free_list@.len() && 0 <= j < r.free_list@.len() && i != j implies r.free_list@[i]
                != r.free_list@[j] by {
                assert(r.free_list@[i] == base + i);
            }
            assert forall|p: u64| r.free_set().contains(p) <==> r.in_range(p) by {
                if r.in_range(p) {
                    let i = p - base;
                    assert(r.free_list@[i as int] == p);
                    assert(r.free_list@.contains(p));
                }
            }
        }
        r
    }

    /// How many frames are free right now.
    pub fn free_pages(&self) -> (r: usize)
        ensures
            r == self.free_count(),
    {
        self.free_list.len()
    }

    /// Hands out one free frame; reports `OutOfMemory` exactly when no frame
    /// is left. The frame returned is removed from the free pool, so it
    /// cannot be returned again before being freed.
    pub fn allocate(&mut self) -> (r: Result<u64, KernelError>)
        requires
            old(self).wf(),
        ensures
            final(self).wf(),
            final(self).base == old(self).base,
            final(self).total == old(self).total,
            match r {
                Ok(p) => {
                    &&& old(self).free_count() > 0
                    &&& old(self).free_set().contains(p)
                    &&& old(self).in_range(p)
                    &&& final(self).free_set() == old(self).free_set().remove(p)
                    &&& final(self).free_count() == old(self).free_count() - 1
                },
                Err(e) => {
                    &&& e == KernelError::OutOfMemory
                    &&& old(self).free_count() == 0
                    &&& final(self).free_list@ == old(self).free_list@
                },
            },
    {
        match self.free_list.pop() {
            Some(p) => {
                proof {
                    let s = old(self).free_list@;
                    assert(s[s.len() - 1] == p);
                    assert(s.contains(p));
                    lemma_drop_last_to_set(s);
                    assert forall|i: int, j: int|
                        0 <= i < self.free_list@.len() && 0 <= j < self.free_list@.len() && i
                            != j implies self.free_list@[i] != self.free_list@[j] by {
                        assert(s[i] != s[j]);
                    }
                    assert forall|i: int|
                        0 <= i < self.free_list@.len() implies self.in_range(
                        #[trigger] self.free_list@[i],
                    ) by {
                        assert(old(self).in_range(s[i]));
                    }
                }
                Ok(p)
            },
            None => Err(KernelError::OutOfMemory),
        }
    }

    /// Returns a previously allocated frame to the pool. Freeing a frame that
    /// is already free, or one outside the managed range, is a programming
    /// error the kernel treats as fatal; the precondition rules both out.
    pub fn free(&mut self, pfn: u64)
        requires
            old(self).wf(),
            old(self).in_range(pfn),
            !old(self).free_set().contains(pfn),
        ensures
            final(self).wf(),
            final(self).base == old(self).base,
            final(self).total == old(self).total,
            final(self).free_set() == old(self).free_set().insert(pfn),
            final(self).free_count() == old(self).free_count() + 1,
    {
        proof {
            lemma_push_to_set(self.free_list@, pfn);
        }
        self.free_list.push(pfn);
        proof {
            let s = old(self).free_list@;
            assert forall|i: int, j: int|
                0 <= i < self.free_list@.len() && 0 <= j < self.free_list@.len() && i
                    != j implies self.free_list@[i] != self.free_list@[j] by {
                if i < s.len() && j < s.len() {
                    assert(s[i] != s[j]);
                } else if j == s.len() {
                    assert(self.free_list@[j] == pfn);
                    assert(s[i] == self.free_list@[i]);
                    assert(!s.contains(pfn));
                    assert(s[i] != pfn);
                } else {
                    assert(self.free_list@[i] == pfn);
                    assert(!s.contains(pfn));
                    assert(s[j] != pfn);
                }
            }
        }
    }
}

/// Dropping the last element of a duplicate-free sequence removes exactly
/// that element from the set of its elements.
proof fn lemma_drop_last_to_set(s: Seq<u64>)
    requires
        s.len() > 0,
        s.no_duplicates(),
    ensures
        s.drop_last().to_set() == s.to_set().remove(s.last()),
{
    assert forall|x: u64| s.drop_last().to_set().contains(x) <==> s.to_set().remove(
        s.last(),
    ).contains(x) by {
        if s.drop_last().contains(x) {
            let i = choose|i: int| 0 <= i < s.drop_last().len() && s.drop_last()[i] == x;
            assert(s[i] == x);
            assert(s[i] != s[s.len() - 1]);
        }
        if s.contains(x) && x != s.last() {
            let i = choose|i: int| 0 <= i < s.len() && s[i] == x;
            assert(i != s.len() - 1);
            assert(s.drop_last()[i] == x);
        }
    }
    assert(s.drop_last().to_set() =~= s.to_set().remove(s.last()));
}

/// Appending an element adds exactly that element to the set of a
/// sequence's elements.
proof fn lemma_push_to_set(s: Seq<u64>, x: u64)
    ensures
        s.push(x).to_set() == s.to_set().insert(x),
{
    assert forall|y: u64| s.push(x).to_set().contains(y) <==> s.to_set().insert(x).contains(y) by {
        if s.push(x).contains(y) {
            let i = choose|i: int| 0 <= i < s.push(x).len() && s.push(x)[i] == y;
            if i < s.len() {
                assert(s[i] == y);
            }
        }
        if s.contains(y) {
            let i = choose|i: int| 0 <= i < s.len() && s[i] == y;
            assert(s.push(x)[i] == y);
        }
        assert(s.push(x)[s.len() as int] == x);
    }
    assert(s.push(x).to_set() =~= s.to_set().insert(x));
}

/// Law: a balanced pair of calls restores the free pool. If `allocate`
/// hands out frame `p` from pool `pre` (so `p` was free and is removed),
/// a `free(p)` puts the pool back exactly as it was: after any balanced
/// sequence of the two operations, the set of free frames — and with it
/// their count — equals what it was before.
pub proof fn lemma_balanced_alloc_free_restores(pre: Set<u64>, p: u64)
    requires
        pre.contains(p),
    ensures
        pre.remove(p).insert(p) == pre,
{
    assert(pre.remove(p).insert(p) =~= pre);
}

/// Law: the allocator never hands out a frame that is live. A frame
/// returned by `allocate` comes from the free pool; as long as the free
/// pool is disjoint from the set of frames held by live page-table entries
/// and kernel stacks — the kernel-wide accounting invariant — the frame
/// handed out is not among them.
pub proof fn lemma_fresh_page_not_live(free: Set<u64>, live: Set<u64>, p: u64)
    requires
        free.disjoint(live),
        free.contains(p),
    ensures
        !live.contains(p),
{
}

} // verus!
