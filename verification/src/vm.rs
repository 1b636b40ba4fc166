//! Virtual memory manager: per-process page tables.
//!
//! A hardware page table is a multi-level radix structure rooted in one
//! physical frame. This model keeps the root frame number and the mapping
//! the radix structure denotes — one entry per mapped virtual page — and
//! states every operation over that mapping. Virtual and physical pages are
//! identified by their page numbers.
//!
//! Kernel mappings (virtual pages at or above `KERNEL_VPN_BASE`) are shared
//! aliases, identical in every address space, and their frames are not part
//! of the allocator's managed pool. User mappings are exclusive to one
//! address space and their frames come from the allocator.

use crate::KernelError;
use crate::cpu::Cpu;
use crate::kalloc::PageAllocator;
use vstd::prelude::*;

verus! {

/// First virtual page number of the kernel's shared region; everything
/// below it is user space.
pub const KERNEL_VPN_BASE: u64 = 0x8000000000;

/// Permission bits of a mapping. A page is present exactly when the table
/// holds an entry for it.
#[derive(Clone, Copy, PartialEq, Eq, Structural, Debug)]
pub struct Perm {
    pub writable: bool,
    pub user: bool,
    pub executable: bool,
}

/// One mapping: virtual page `vpn` translates to physical frame `pfn` with
/// permissions `perm`.
#[derive(Clone, Copy, PartialEq, Eq, Structural, Debug)]
pub struct Pte {
    pub vpn: u64,
    pub pfn: u64,
    pub perm: Perm,
}

pub open spec fn is_user_vpn(vpn: u64) -> bool {
    vpn < KERNEL_VPN_BASE
}

/// No two entries translate the same virtual page.
pub open spec fn distinct_vpns(s: Seq<Pte>) -> bool {
    forall|i: int, j: int|
        0 <= i < s.len() && 0 <= j < s.len() && i != j ==> s[i].vpn != s[j].vpn
}

/// The translation a sequence of entries denotes.
#[verifier::opaque]
pub open spec fn map_of(s: Seq<Pte>) -> Map<u64, Pte>
    decreases s.len(),
{
    if s.len() == 0 {
        Map::empty()
    } else {
        map_of(s.drop_last()).insert(s.last().vpn, s.last())
    }
}

/// How many entries of `s` map user pages.
pub open spec fn user_count(s: Seq<Pte>) -> nat
    decreases s.len(),
{
    if s.len() == 0 {
        0
    } else {
        user_count(s.drop_last()) + if is_user_vpn(s.last().vpn) {
            1nat
        } else {
            0nat
        }
    }
}

/// An address space.
pub struct PageTable {
    /// Physical frame holding the root of the radix structure; 0 marks the
    /// torn-down (empty) table, and is never a managed frame.
    pub root: u64,
    /// The mappings the structure encodes.
    pub entries: Vec<Pte>,
}

impl PageTable {
    /// The translation this table denotes.
    pub open spec fn mappings(self) -> Map<u64, Pte> {
        map_of(self.entries@)
    }

    pub open spec fn wf(self) -> bool {
        distinct_vpns(self.entries@)
    }

    /// Whether this address space owns physical frame `pfn`: the root frame
    /// and every frame backing a user mapping are its exclusive property.
    /// (Kernel mappings alias frames outside the managed pool.)
    pub open spec fn owns_frame(self, pfn: u64) -> bool {
        ||| pfn == self.root
        ||| exists|i: int|
            0 <= i < self.entries@.len() && is_user_vpn(#[trigger] self.entries@[i].vpn)
                && self.entries@[i].pfn == pfn
    }

    /// The frames this space owns are mutually distinct: no user frame is
    /// mapped twice, and none coincides with the root.
    pub open spec fn frames_distinct(self) -> bool {
        &&& forall|i: int, j: int|
            0 <= i < self.entries@.len() && 0 <= j < self.entries@.len() && i != j && is_user_vpn(
                self.entries@[i].vpn,
            ) && is_user_vpn(self.entries@[j].vpn) ==> self.entries@[i].pfn != self.entries@[j].pfn
        &&& forall|i: int|
            0 <= i < self.entries@.len() && is_user_vpn(#[trigger] self.entries@[i].vpn)
                ==> self.entries@[i].pfn != self.root
    }

    /// The frames this space owns are live towards `alloc`: inside the
    /// managed range and not on the free list.
    pub open spec fn frames_live(self, alloc: PageAllocator) -> bool {
        forall|p: u64|
            #[trigger] self.owns_frame(p) ==> alloc.in_range(p) && !alloc.free_set().contains(p)
    }

    /// Every entry lies in the kernel's shared region.
    pub open spec fn kernel_only(self) -> bool {
        forall|i: int|
            0 <= i < self.entries@.len() ==> !is_user_vpn(#[trigger] self.entries@[i].vpn)
    }

    /// The torn-down table: no root frame, no mappings.
    pub open spec fn is_released(self) -> bool {
        self.root == 0 && self.entries@.len() == 0
    }

    /// A table that denotes no translation at all, used as the placeholder
    /// of unused process slots.
    pub fn empty() -> (r: PageTable)
        ensures
            r.is_released(),
            r.wf(),
            r.frames_distinct(),
            r.mappings() == Map::<u64, Pte>::empty(),
    {
        proof {
            reveal(map_of);
        }
        PageTable { root: 0, entries: Vec::new() }
    }

    /// Installs this table as the active translation root of the calling
    /// core — a core-local effect, never a global one. The hardware write
    /// of the root register belongs to the platform layer; its observable
    /// effect is the core's active root.
    pub fn switch(&self, cpu: &mut Cpu)
        ensures
            *final(cpu) == (Cpu { cr3: self.root, ..*old(cpu) }),
    {
        cpu.cr3 = self.root;
    }

    /// Address-space lookup: the physical frame and permissions virtual page
    /// `vpn` translates to, or `None` when it is unmapped.
    pub fn lookup(&self, vpn: u64) -> (r: Option<Pte>)
        requires
            self.wf(),
        ensures
            match r {
                Some(pte) => self.mappings().contains_key(vpn) && self.mappings()[vpn] == pte
                    && pte.vpn == vpn,
                None => !self.mappings().contains_key(vpn),
            },
    {
        proof {
            lemma_map_of_props(self.entries@);
        }
        let n = self.entries.len();
        let mut i: usize = 0;
        while i < n
            invariant
                n == self.entries@.len(),
                i <= n,
                self.wf(),
                forall|k: int| 0 <= k < i ==> self.entries@[k].vpn != vpn,
            decreases n - i,
        {
            if self.entries[i].vpn == vpn {
                proof {
                    lemma_map_of_props(self.entries@);
                }
                return Some(self.entries[i]);
            }
            i = i + 1;
        }
        proof {
            lemma_map_of_props(self.entries@);
            if self.mappings().contains_key(vpn) {
                let k = choose|k: int|
                    0 <= k < self.entries@.len() && self.entries@[k].vpn == vpn;
                assert(false);
            }
        }
        None
    }

    /// Maps virtual page `vpn` to the specific physical frame `pfn` with
    /// permissions `perm`; reports `AlreadyMapped` — and changes nothing —
    /// exactly when `vpn` is already mapped. A user frame must be fresh for
    /// this space, so that no frame is owned twice.
    pub fn map(&mut self, vpn: u64, pfn: u64, perm: Perm) -> (r: Result<(), KernelError>)
        requires
            old(self).wf(),
            old(self).frames_distinct(),
            is_user_vpn(vpn) ==> !old(self).owns_frame(pfn),
        ensures
            final(self).wf(),
            final(self).frames_distinct(),
            final(self).root == old(self).root,
            match r {
                Ok(()) => {
                    &&& !old(self).mappings().contains_key(vpn)
                    &&& final(self).entries@ == old(self).entries@.push(Pte { vpn, pfn, perm })
                    &&& final(self).mappings() == old(self).mappings().insert(
                        vpn,
                        Pte { vpn, pfn, perm },
                    )
                    &&& forall|p: u64|
                        final(self).owns_frame(p) <==> old(self).owns_frame(p) || (is_user_vpn(vpn)
                            && p == pfn)
                },
                Err(e) => {
                    &&& e == KernelError::AlreadyMapped
                    &&& old(self).mappings().contains_key(vpn)
                    &&& final(self).entries@ == old(self).entries@
                },
            },
    {
        proof {
            lemma_map_of_props(self.entries@);
        }
        if let Some(_) = self.lookup(vpn) {
            return Err(KernelError::AlreadyMapped);
        }
        let pte = Pte { vpn, pfn, perm };
        self.entries.push(pte);
        proof {
            reveal_with_fuel(map_of, 2);
            let s = old(self).entries@;
            let t = self.entries@;
            assert(t == s.push(pte));
            assert(t.drop_last() =~= s);
            assert(t.last() == pte);
            assert forall|i: int, j: int|
                0 <= i < t.len() && 0 <= j < t.len() && i != j implies t[i].vpn != t[j].vpn by {
                lemma_map_of_props(s);
                if i < s.len() && j < s.len() {
                    assert(s[i].vpn != s[j].vpn);
                }
            }
            let post = *self;
            let pre = *old(self);
            assert forall|p: u64| post.owns_frame(p) <==> pre.owns_frame(p) || (is_user_vpn(vpn)
                && p == pfn) by {
                if pre.owns_frame(p) && p != pre.root {
                    let i = choose|i: int|
                        0 <= i < s.len() && is_user_vpn(s[i].vpn) && s[i].pfn == p;
                    assert(t[i].vpn == s[i].vpn && t[i].pfn == s[i].pfn);
                }
                if post.owns_frame(p) && p != post.root {
                    let i = choose|i: int|
                        0 <= i < t.len() && is_user_vpn(t[i].vpn) && t[i].pfn == p;
                    if i < s.len() {
                        assert(pre.owns_frame(p));
                    }
                }
            }
        }
        Ok(())
    }

    /// Maps the contiguous user range of `n` pages from `vpn` up to newly
    /// allocated frames, all with permissions `perm`. Reports
    /// `AlreadyMapped` — and changes nothing — exactly when some page of
    /// the range is already mapped, and `OutOfMemory` — changing nothing —
    /// when the range is free but fewer than `n` frames are.
    #[verifier::rlimit(100)]
    pub fn map_range(&mut self, alloc: &mut PageAllocator, vpn: u64, n: usize, perm: Perm) -> (r:
        Result<(), KernelError>)
        requires
            old(self).wf(),
            old(self).frames_distinct(),
            old(self).frames_live(*old(alloc)),
            old(alloc).wf(),
            vpn + n <= KERNEL_VPN_BASE,
        ensures
            final(self).wf(),
            final(self).frames_distinct(),
            final(self).frames_live(*final(alloc)),
            final(alloc).wf(),
            final(alloc).base == old(alloc).base,
            final(alloc).total == old(alloc).total,
            final(self).root == old(self).root,
            match r {
                Ok(()) => {
                    &&& (forall|v: u64|
                        vpn <= v < vpn + n ==> !old(self).mappings().contains_key(v))
                    &&& old(alloc).free_count() >= n
                    &&& final(alloc).free_count() == old(alloc).free_count() - n
                    &&& (forall|q: u64|
                        #[trigger] final(alloc).free_set().contains(q) ==> old(
                            alloc,
                        ).free_set().contains(q))
                    &&& (forall|v: u64|
                        #![trigger final(self).mappings().contains_key(v)]
                        final(self).mappings().contains_key(v) <==> old(
                            self,
                        ).mappings().contains_key(v) || (vpn <= v < vpn + n))
                    &&& (forall|v: u64|
                        old(self).mappings().contains_key(v) ==> final(self).mappings()[v] == old(
                            self,
                        ).mappings()[v])
                    &&& (forall|v: u64|
                        vpn <= v < vpn + n ==> (#[trigger] final(self).mappings()[v]).vpn == v
                            && final(self).mappings()[v].perm == perm && old(
                            self,
                        ).mappings().contains_key(v) == false && old(alloc).free_set().contains(
                            final(self).mappings()[v].pfn,
                        ) && !final(alloc).free_set().contains(final(self).mappings()[v].pfn))
                },
                Err(e) => {
                    &&& final(self).entries@ == old(self).entries@
                    &&& final(alloc).free_list@ == old(alloc).free_list@
                    &&& (e == KernelError::AlreadyMapped || e == KernelError::OutOfMemory)
                    &&& (e == KernelError::AlreadyMapped <==> exists|v: u64|
                        vpn <= v < vpn + n && old(self).mappings().contains_key(v))
                    &&& (e == KernelError::OutOfMemory <==> (forall|v: u64|
                        vpn <= v < vpn + n ==> !old(self).mappings().contains_key(v)) && old(
                        alloc,
                    ).free_count() < n)
                },
            },
    {
        let mut i: usize = 0;
        while i < n
            invariant
                i <= n,
                vpn + n <= KERNEL_VPN_BASE,
                self.wf(),
                self.frames_distinct(),
                self.frames_live(*alloc),
                self.root == old(self).root,
                alloc.wf(),
                alloc.base == old(alloc).base,
                alloc.total == old(alloc).total,
                self.entries@ == old(self).entries@,
                alloc.free_list@ == old(alloc).free_list@,
                forall|v: u64| vpn <= v < vpn + i ==> !old(self).mappings().contains_key(v),
            decreases n - i,
        {
            match self.lookup(vpn + (i as u64)) {
                Some(_) => {
                    return Err(KernelError::AlreadyMapped);
                },
                None => {},
            }
            i = i + 1;
        }
        if alloc.free_pages() < n {
            return Err(KernelError::OutOfMemory);
        }
        let ghost pre_t = *old(self);
        let ghost pre_a = *old(alloc);
        let mut i: usize = 0;
        while i < n
            invariant
                i <= n,
                vpn + n <= KERNEL_VPN_BASE,
                self.wf(),
                self.frames_distinct(),
                self.frames_live(*alloc),
                alloc.wf(),
                alloc.base == pre_a.base,
                alloc.total == pre_a.total,
                self.root == pre_t.root,
                pre_t.wf(),
                forall|v: u64| vpn <= v < vpn + n ==> !pre_t.mappings().contains_key(v),
                alloc.free_count() == pre_a.free_count() - i,
                pre_a.free_count() >= n,
                forall|q: u64|
                    #[trigger] alloc.free_set().contains(q) ==> pre_a.free_set().contains(q),
                forall|v: u64|
                    #![trigger self.mappings().contains_key(v)]
                    self.mappings().contains_key(v) <==> pre_t.mappings().contains_key(v) || (vpn
                        <= v < vpn + i),
                forall|v: u64|
                    pre_t.mappings().contains_key(v) ==> self.mappings()[v]
                        == pre_t.mappings()[v],
                forall|v: u64|
                    vpn <= v < vpn + i ==> (#[trigger] self.mappings()[v]).vpn == v
                        && self.mappings()[v].perm == perm && pre_a.free_set().contains(
                        self.mappings()[v].pfn,
                    ) && !alloc.free_set().contains(self.mappings()[v].pfn),
            decreases n - i,
        {
            let pfn = match alloc.allocate() {
                Ok(f) => f,
                Err(_) => {
                    proof {
                        assert(false);
                    }
                    return Err(KernelError::OutOfMemory);
                },
            };
            let v = vpn + (i as u64);
            proof {
                assert(!self.owns_frame(pfn));
                assert(!self.mappings().contains_key(v));
            }
            let ghost mid_t = *self;
            let ghost mid_a = *alloc;
            match self.map(v, pfn, perm) {
                Ok(()) => {},
                Err(_) => {
                    proof {
                        assert(false);
                    }
                    return Err(KernelError::AlreadyMapped);
                },
            }
            proof {
                assert forall|q: u64| #[trigger] self.owns_frame(q) implies alloc.in_range(q)
                    && !alloc.free_set().contains(q) by {
                    if q == pfn {
                    } else {
                        assert(mid_t.owns_frame(q));
                    }
                }
                assert forall|w: u64|
                    #![trigger self.mappings().contains_key(w)]
                    self.mappings().contains_key(w) <==> pre_t.mappings().contains_key(w) || (vpn
                        <= w < vpn + (i + 1)) by {}
                assert forall|w: u64|
                    vpn <= w < vpn + (i + 1) implies (#[trigger] self.mappings()[w]).vpn == w
                        && self.mappings()[w].perm == perm && pre_a.free_set().contains(
                        self.mappings()[w].pfn,
                    ) && !alloc.free_set().contains(self.mappings()[w].pfn) by {
                    if w == v {
                        assert(self.mappings()[w] == (Pte { vpn: v, pfn, perm }));
                    } else {
                        assert(mid_t.mappings().contains_key(w));
                        assert(self.mappings()[w] == mid_t.mappings()[w]);
                        assert(!mid_a.free_set().contains(mid_t.mappings()[w].pfn));
                    }
                }
            }
            i = i + 1;
        }
        Ok(())
    }

    /// Duplicates this address space for process creation: a newly
    /// allocated root, the same kernel aliases, and every user page backed
    /// by a freshly allocated frame of its own — parent and child get
    /// disjoint writable copies. Eager copy is the chosen policy;
    /// copy-on-write is deliberately not implemented. Reports
    /// `OutOfMemory` — and changes nothing — exactly when fewer than one
    /// plus the user page count frames are free.
    #[verifier::rlimit(100)]
    pub fn duplicate(&self, alloc: &mut PageAllocator) -> (r: Result<PageTable, KernelError>)
        requires
            self.wf(),
            self.frames_distinct(),
            self.frames_live(*old(alloc)),
            old(alloc).wf(),
            old(alloc).base >= 1,
        ensures
            final(alloc).wf(),
            final(alloc).base == old(alloc).base,
            final(alloc).total == old(alloc).total,
            match r {
                Ok(t) => {
                    &&& old(alloc).free_count() >= 1 + user_count(self.entries@)
                    &&& final(alloc).free_count() == old(alloc).free_count() - 1 - user_count(
                        self.entries@,
                    )
                    &&& (forall|q: u64|
                        #[trigger] final(alloc).free_set().contains(q) ==> old(
                            alloc,
                        ).free_set().contains(q))
                    &&& t.wf()
                    &&& t.frames_distinct()
                    &&& t.frames_live(*final(alloc))
                    &&& t.root != 0
                    &&& !self.owns_frame(t.root)
                    &&& (forall|v: u64|
                        #![trigger t.mappings().contains_key(v)]
                        t.mappings().contains_key(v) <==> self.mappings().contains_key(v))
                    &&& (forall|v: u64|
                        !is_user_vpn(v) && self.mappings().contains_key(v) ==> t.mappings()[v]
                            == self.mappings()[v])
                    &&& (forall|v: u64|
                        is_user_vpn(v) && self.mappings().contains_key(v) ==> (
                        #[trigger] t.mappings()[v]).vpn == v && t.mappings()[v].perm
                            == self.mappings()[v].perm && old(alloc).free_set().contains(
                            t.mappings()[v].pfn,
                        ) && !final(alloc).free_set().contains(t.mappings()[v].pfn)
                            && !self.owns_frame(t.mappings()[v].pfn))
                },
                Err(e) => {
                    &&& e == KernelError::OutOfMemory
                    &&& old(alloc).free_count() < 1 + user_count(self.entries@)
                    &&& final(alloc).free_list@ == old(alloc).free_list@
                },
            },
    {
        let len = self.entries.len();
        let mut uc: usize = 0;
        let mut i: usize = 0;
        while i < len
            invariant
                i <= len,
                len == self.entries@.len(),
                uc <= i,
                uc == user_count(self.entries@.subrange(0, i as int)),
            decreases len - i,
        {
            proof {
                assert(self.entries@.subrange(0, i + 1).drop_last() =~= self.entries@.subrange(
                    0,
                    i as int,
                ));
                assert(self.entries@.subrange(0, i + 1).last() == self.entries@[i as int]);
            }
            if self.entries[i].vpn < KERNEL_VPN_BASE {
                uc = uc + 1;
            }
            i = i + 1;
        }
        proof {
            assert(self.entries@.subrange(0, len as int) =~= self.entries@);
        }
        let free0 = alloc.free_pages();
        if free0 == 0 || free0 - 1 < uc {
            return Err(KernelError::OutOfMemory);
        }
        let ghost pre_a = *old(alloc);
        let root = match alloc.allocate() {
            Ok(f) => f,
            Err(_) => {
                proof {
                    assert(false);
                }
                return Err(KernelError::OutOfMemory);
            },
        };
        proof {
            assert(!self.owns_frame(root));
            assert(root != 0);
        }
        let mut fresh: Vec<Pte> = Vec::new();
        let mut i: usize = 0;
        while i < len
            invariant
                i <= len,
                len == self.entries@.len(),
                self.wf(),
                self.frames_distinct(),
                self.frames_live(pre_a),
                alloc.wf(),
                alloc.base == pre_a.base,
                alloc.total == pre_a.total,
                pre_a.base >= 1,
                pre_a.free_set().contains(root),
                pre_a.in_range(root),
                root != 0,
                !self.owns_frame(root),
                pre_a.free_count() >= 1 + user_count(self.entries@),
                alloc.free_count() == pre_a.free_count() - 1 - user_count(
                    self.entries@.subrange(0, i as int),
                ),
                forall|q: u64|
                    #[trigger] alloc.free_set().contains(q) ==> pre_a.free_set().contains(q) && q
                        != root,
                fresh@.len() == i,
                forall|k: int|
                    0 <= k < i ==> (#[trigger] fresh@[k]).vpn == self.entries@[k].vpn,
                forall|k: int|
                    0 <= k < i && !is_user_vpn(self.entries@[k].vpn) ==> (#[trigger] fresh@[k])
                        == self.entries@[k],
                forall|k: int|
                    0 <= k < i && is_user_vpn(self.entries@[k].vpn) ==> (
                    #[trigger] fresh@[k]).perm == self.entries@[k].perm
                        && pre_a.free_set().contains(fresh@[k].pfn) && !alloc.free_set().contains(
                        fresh@[k].pfn,
                    ) && fresh@[k].pfn != root && !self.owns_frame(fresh@[k].pfn),
                forall|k1: int, k2: int|
                    #![trigger fresh@[k1].pfn, fresh@[k2].pfn]
                    0 <= k1 < i && 0 <= k2 < i && k1 != k2 && is_user_vpn(self.entries@[k1].vpn)
                        && is_user_vpn(self.entries@[k2].vpn) ==> fresh@[k1].pfn
                        != fresh@[k2].pfn,
            decreases len - i,
        {
            proof {
                assert(self.entries@.subrange(0, i + 1).drop_last() =~= self.entries@.subrange(
                    0,
                    i as int,
                ));
                assert(self.entries@.subrange(0, i + 1).last() == self.entries@[i as int]);
                lemma_user_count_take_le(self.entries@, i + 1);
            }
            let e = self.entries[i];
            if e.vpn < KERNEL_VPN_BASE {
                let pfn = match alloc.allocate() {
                    Ok(f) => f,
                    Err(_) => {
                        proof {
                            assert(false);
                        }
                        return Err(KernelError::OutOfMemory);
                    },
                };
                proof {
                    assert(!self.owns_frame(pfn));
                }
                fresh.push(Pte { vpn: e.vpn, pfn, perm: e.perm });
            } else {
                fresh.push(e);
            }
            i = i + 1;
        }
        proof {
            assert(self.entries@.subrange(0, len as int) =~= self.entries@);
        }
        let t = PageTable { root, entries: fresh };
        proof {
            assert forall|k1: int, k2: int|
                0 <= k1 < t.entries@.len() && 0 <= k2 < t.entries@.len() && k1 != k2 implies
                t.entries@[k1].vpn != t.entries@[k2].vpn by {
                assert(self.entries@[k1].vpn != self.entries@[k2].vpn);
            }
            lemma_map_of_props(self.entries@);
            lemma_map_of_props(t.entries@);
            assert forall|v: u64|
                #![trigger t.mappings().contains_key(v)]
                t.mappings().contains_key(v) <==> self.mappings().contains_key(v) by {
                if t.mappings().contains_key(v) {
                    let k = choose|k: int| 0 <= k < t.entries@.len() && t.entries@[k].vpn == v;
                    assert(self.entries@[k].vpn == v);
                }
                if self.mappings().contains_key(v) {
                    let k = choose|k: int|
                        0 <= k < self.entries@.len() && self.entries@[k].vpn == v;
                    assert(t.entries@[k].vpn == v);
                }
            }
            assert forall|v: u64|
                self.mappings().contains_key(v) implies (!is_user_vpn(v) ==> t.mappings()[v]
                    == self.mappings()[v]) && (is_user_vpn(v) ==> (#[trigger] t.mappings()[v]).vpn
                    == v && t.mappings()[v].perm == self.mappings()[v].perm
                    && pre_a.free_set().contains(t.mappings()[v].pfn)
                    && !alloc.free_set().contains(t.mappings()[v].pfn) && !self.owns_frame(
                    t.mappings()[v].pfn,
                )) by {
                let k = choose|k: int| 0 <= k < self.entries@.len() && self.entries@[k].vpn == v;
                assert(t.entries@[k].vpn == v);
                assert(t.mappings()[v] == t.entries@[k]);
                assert(self.mappings()[v] == self.entries@[k]);
            }
            assert forall|p: u64| #[trigger] t.owns_frame(p) implies alloc.in_range(p)
                && !alloc.free_set().contains(p) by {
                if p != t.root {
                    let k = choose|k: int|
                        0 <= k < t.entries@.len() && is_user_vpn(t.entries@[k].vpn)
                            && t.entries@[k].pfn == p;
                    assert(is_user_vpn(self.entries@[k].vpn));
                    assert(pre_a.free_set().contains(p));
                }
            }
            assert(t.frames_distinct()) by {
                assert forall|k: int|
                    0 <= k < t.entries@.len() && is_user_vpn(#[trigger] t.entries@[k].vpn) implies
                    t.entries@[k].pfn != t.root by {
                    assert(is_user_vpn(self.entries@[k].vpn));
                }
            }
        }
        Ok(t)
    }

    /// Unmaps the contiguous user range of `n` pages from `vpn` up,
    /// returning every frame of the range to the allocator. Reports
    /// `UnmapOfUnmapped` — and changes nothing — exactly when some page of
    /// the range is not mapped.
    #[verifier::rlimit(100)]
    pub fn unmap_range(&mut self, alloc: &mut PageAllocator, vpn: u64, n: usize) -> (r: Result<
        (),
        KernelError,
    >)
        requires
            old(self).wf(),
            old(self).frames_distinct(),
            old(self).frames_live(*old(alloc)),
            old(alloc).wf(),
            vpn + n <= KERNEL_VPN_BASE,
        ensures
            final(self).wf(),
            final(self).frames_distinct(),
            final(self).frames_live(*final(alloc)),
            final(alloc).wf(),
            final(alloc).base == old(alloc).base,
            final(alloc).total == old(alloc).total,
            final(self).root == old(self).root,
            match r {
                Ok(()) => {
                    &&& (forall|v: u64|
                        vpn <= v < vpn + n ==> old(self).mappings().contains_key(v))
                    &&& final(alloc).free_count() == old(alloc).free_count() + n
                    &&& (forall|v: u64|
                        #![trigger final(self).mappings().contains_key(v)]
                        final(self).mappings().contains_key(v) <==> old(
                            self,
                        ).mappings().contains_key(v) && !(vpn <= v < vpn + n))
                    &&& (forall|v: u64|
                        final(self).mappings().contains_key(v) ==> final(self).mappings()[v]
                            == old(self).mappings()[v])
                    &&& (forall|q: u64|
                        #![trigger final(alloc).free_set().contains(q)]
                        final(alloc).free_set().contains(q) <==> old(alloc).free_set().contains(q)
                            || (exists|v: u64|
                            vpn <= v < vpn + n && (#[trigger] old(self).mappings()[v]).pfn == q
                                && old(self).mappings().contains_key(v)))
                },
                Err(e) => {
                    &&& final(self).entries@ == old(self).entries@
                    &&& final(alloc).free_list@ == old(alloc).free_list@
                    &&& e == KernelError::UnmapOfUnmapped
                    &&& (exists|v: u64|
                        vpn <= v < vpn + n && !old(self).mappings().contains_key(v))
                },
            },
    {
        let mut i: usize = 0;
        while i < n
            invariant
                i <= n,
                vpn + n <= KERNEL_VPN_BASE,
                self.wf(),
                self.frames_distinct(),
                self.frames_live(*alloc),
                self.root == old(self).root,
                alloc.wf(),
                alloc.base == old(alloc).base,
                alloc.total == old(alloc).total,
                self.entries@ == old(self).entries@,
                alloc.free_list@ == old(alloc).free_list@,
                forall|v: u64| vpn <= v < vpn + i ==> old(self).mappings().contains_key(v),
            decreases n - i,
        {
            match self.lookup(vpn + (i as u64)) {
                Some(_) => {},
                None => {
                    return Err(KernelError::UnmapOfUnmapped);
                },
            }
            i = i + 1;
        }
        let ghost pre_t = *old(self);
        let ghost pre_a = *old(alloc);
        let mut i: usize = 0;
        while i < n
            invariant
                i <= n,
                vpn + n <= KERNEL_VPN_BASE,
                self.wf(),
                self.frames_distinct(),
                self.frames_live(*alloc),
                alloc.wf(),
                alloc.base == pre_a.base,
                alloc.total == pre_a.total,
                self.root == pre_t.root,
                pre_t.wf(),
                forall|v: u64| vpn <= v < vpn + n ==> pre_t.mappings().contains_key(v),
                alloc.free_count() == pre_a.free_count() + i,
                forall|v: u64|
                    #![trigger self.mappings().contains_key(v)]
                    self.mappings().contains_key(v) <==> pre_t.mappings().contains_key(v) && !(vpn
                        <= v < vpn + i),
                forall|v: u64|
                    self.mappings().contains_key(v) ==> self.mappings()[v]
                        == pre_t.mappings()[v],
                forall|q: u64|
                    #![trigger alloc.free_set().contains(q)]
                    alloc.free_set().contains(q) <==> pre_a.free_set().contains(q) || (exists|
                    v: u64,
                    |
                        vpn <= v < vpn + i && (#[trigger] pre_t.mappings()[v]).pfn == q
                            && pre_t.mappings().contains_key(v)),
            decreases n - i,
        {
            let v = vpn + (i as u64);
            let ghost mid_t = *self;
            let ghost mid_a = *alloc;
            proof {
                assert(mid_t.mappings().contains_key(v));
                assert(mid_t.mappings()[v] == pre_t.mappings()[v]);
            }
            match self.unmap(alloc, v) {
                Ok(()) => {},
                Err(_) => {
                    proof {
                        assert(false);
                    }
                    return Err(KernelError::UnmapOfUnmapped);
                },
            }
            proof {
                let freed = mid_t.mappings()[v].pfn;
                assert forall|q: u64| #[trigger] self.owns_frame(q) implies alloc.in_range(q)
                    && !alloc.free_set().contains(q) by {
                    assert(mid_t.owns_frame(q) && q != freed);
                    assert(!mid_a.free_set().contains(q));
                }
                assert forall|w: u64|
                    #![trigger self.mappings().contains_key(w)]
                    self.mappings().contains_key(w) <==> pre_t.mappings().contains_key(w) && !(vpn
                        <= w < vpn + (i + 1)) by {}
                assert forall|q: u64|
                    #![trigger alloc.free_set().contains(q)]
                    alloc.free_set().contains(q) <==> pre_a.free_set().contains(q) || (exists|
                    w: u64,
                    |
                        vpn <= w < vpn + (i + 1) && (#[trigger] pre_t.mappings()[w]).pfn == q
                            && pre_t.mappings().contains_key(w)) by {
                    if q == freed {
                        assert(vpn <= v < vpn + (i + 1) && pre_t.mappings()[v].pfn == q
                            && pre_t.mappings().contains_key(v));
                    }
                    if mid_a.free_set().contains(q) && !pre_a.free_set().contains(q) {
                        let w = choose|w: u64|
                            vpn <= w < vpn + i && (#[trigger] pre_t.mappings()[w]).pfn == q
                                && pre_t.mappings().contains_key(w);
                        assert(vpn <= w < vpn + (i + 1) && pre_t.mappings()[w].pfn == q
                            && pre_t.mappings().contains_key(w));
                    }
                    if !mid_a.free_set().contains(q) && alloc.free_set().contains(q) {
                        assert(q == freed);
                    }
                    if exists|w: u64|
                        vpn <= w < vpn + (i + 1) && (#[trigger] pre_t.mappings()[w]).pfn == q
                            && pre_t.mappings().contains_key(w) {
                        let w = choose|w: u64|
                            vpn <= w < vpn + (i + 1) && (#[trigger] pre_t.mappings()[w]).pfn == q
                                && pre_t.mappings().contains_key(w);
                        if w < vpn + i {
                            assert(mid_a.free_set().contains(q));
                        } else {
                            assert(w == v);
                        }
                    }
                }
            }
            i = i + 1;
        }
        Ok(())
    }

    /// Unmaps user virtual page `vpn` and returns its frame to the
    /// allocator; reports `UnmapOfUnmapped` — and changes nothing — exactly
    /// when `vpn` is not mapped.
    pub fn unmap(&mut self, alloc: &mut PageAllocator, vpn: u64) -> (r: Result<
        (),
        KernelError,
    >)
        requires
            old(self).wf(),
            old(self).frames_distinct(),
            old(self).frames_live(*old(alloc)),
            old(alloc).wf(),
            is_user_vpn(vpn),
        ensures
            final(self).wf(),
            final(self).frames_distinct(),
            final(alloc).wf(),
            final(self).root == old(self).root,
            final(alloc).base == old(alloc).base,
            final(alloc).total == old(alloc).total,
            match r {
                Ok(()) => {
                    &&& old(self).mappings().contains_key(vpn)
                    &&& final(self).mappings() == old(self).mappings().remove(vpn)
                    &&& final(alloc).free_set() == old(alloc).free_set().insert(
                        old(self).mappings()[vpn].pfn,
                    )
                    &&& final(alloc).free_count() == old(alloc).free_count() + 1
                    &&& forall|p: u64|
                        final(self).owns_frame(p) <==> old(self).owns_frame(p) && p != old(
                            self,
                        ).mappings()[vpn].pfn
                },
                Err(e) => {
                    &&& e == KernelError::UnmapOfUnmapped
                    &&& !old(self).mappings().contains_key(vpn)
                    &&& final(self).entries@ == old(self).entries@
                    &&& final(alloc).free_list@ == old(alloc).free_list@
                },
            },
    {
        proof {
            lemma_map_of_props(self.entries@);
        }
        let n = self.entries.len();
        let mut i: usize = 0;
        while i < n
            invariant
                n == self.entries@.len(),
                i <= n,
                self.entries@ == old(self).entries@,
                self.root == old(self).root,
                self.wf(),
                self.frames_distinct(),
                self.frames_live(*alloc),
                alloc.free_list@ == old(alloc).free_list@,
                alloc.base == old(alloc).base,
                alloc.total == old(alloc).total,
                alloc.wf(),
                is_user_vpn(vpn),
                forall|k: int| 0 <= k < i ==> self.entries@[k].vpn != vpn,
            decreases n - i,
        {
            if self.entries[i].vpn == vpn {
                let pte = self.entries[i];
                proof {
                    assert(self.entries@[i as int].vpn == vpn);
                    assert(is_user_vpn(self.entries@[i as int].vpn));
                    assert(self.entries@[i as int].pfn == pte.pfn);
                    assert(self.owns_frame(pte.pfn));
                }
                self.entries.remove(i);
                proof {
                    let s = old(self).entries@;
                    let t = self.entries@;
                    lemma_map_of_props(s);
                    assert forall|a: int, b: int|
                        0 <= a < t.len() && 0 <= b < t.len() && a != b implies t[a].vpn
                        != t[b].vpn by {
                        let sa: int = if a < i { a } else { a + 1 };
                        let sb: int = if b < i { b } else { b + 1 };
                        assert(t[a] == s[sa] && t[b] == s[sb]);
                        assert(s[sa].vpn != s[sb].vpn);
                    }
                    lemma_map_of_props(t);
                    let post = *self;
                    let pre = *old(self);
                    let mold = pre.mappings();
                    let mnew = post.mappings();
                    assert forall|v: u64| #![auto]
                        mnew.contains_key(v) implies mold.remove(vpn).contains_key(v) && mnew[v]
                        == mold.remove(vpn)[v] by {
                        let a = choose|a: int| 0 <= a < t.len() && t[a].vpn == v;
                        let sa: int = if a < i { a } else { a + 1 };
                        assert(t[a] == s[sa]);
                        assert(mold.contains_key(v));
                        assert(mold[v] == s[sa]);
                        assert(v != vpn);
                    }
                    assert forall|v: u64| #![auto]
                        mold.remove(vpn).contains_key(v) implies mnew.contains_key(v) by {
                        let a = choose|a: int| 0 <= a < s.len() && s[a].vpn == v;
                        assert(a != i);
                        let ta: int = if a < i { a } else { a - 1 };
                        assert(t[ta] == s[a]);
                    }
                    assert(mnew =~= mold.remove(vpn));
                    assert(mold[vpn] == s[i as int]);
                    assert(is_user_vpn(s[i as int].vpn));
                    assert(s[i as int].pfn != pre.root);
                    assert forall|p: u64|
                        post.owns_frame(p) <==> pre.owns_frame(p) && p != pte.pfn by {
                        if post.owns_frame(p) && p != post.root {
                            let a = choose|a: int|
                                0 <= a < t.len() && is_user_vpn(t[a].vpn) && t[a].pfn == p;
                            let sa: int = if a < i { a } else { a + 1 };
                            assert(t[a] == s[sa]);
                            assert(is_user_vpn(s[sa].vpn) && s[sa].pfn == p);
                            assert(pre.owns_frame(p));
                            assert(s[sa].pfn != s[i as int].pfn);
                        }
                        if pre.owns_frame(p) && p != pte.pfn && p != pre.root {
                            let a = choose|a: int|
                                0 <= a < s.len() && is_user_vpn(s[a].vpn) && s[a].pfn == p;
                            assert(a != i);
                            let ta: int = if a < i { a } else { a - 1 };
                            assert(t[ta] == s[a]);
                            assert(is_user_vpn(t[ta].vpn) && t[ta].pfn == p);
                        }
                    }
                }
                alloc.free(pte.pfn);
                return Ok(());
            }
            i = i + 1;
        }
        proof {
            lemma_map_of_props(self.entries@);
            if self.mappings().contains_key(vpn) {
                let k = choose|k: int|
                    0 <= k < self.entries@.len() && self.entries@[k].vpn == vpn;
                assert(false);
            }
        }
        Err(KernelError::UnmapOfUnmapped)
    }
}

/// Builds a fresh address space holding exactly the kernel's shared
/// mappings: a newly allocated root frame, and the same entries as the
/// kernel's own table (aliases, not copies — kernel frames live outside the
/// managed pool). Reports `OutOfMemory` — and changes nothing — exactly
/// when no frame is free for the root.
pub fn new_kernel_space(alloc: &mut PageAllocator, kernel: &PageTable) -> (r: Result<
    PageTable,
    KernelError,
>)
    requires
        old(alloc).wf(),
        kernel.wf(),
        kernel.kernel_only(),
    ensures
        final(alloc).wf(),
        final(alloc).base == old(alloc).base,
        final(alloc).total == old(alloc).total,
        match r {
            Ok(t) => {
                &&& old(alloc).free_count() > 0
                &&& old(alloc).free_set().contains(t.root)
                &&& old(alloc).in_range(t.root)
                &&& final(alloc).free_set() == old(alloc).free_set().remove(t.root)
                &&& final(alloc).free_count() == old(alloc).free_count() - 1
                &&& t.entries@ == kernel.entries@
                &&& t.mappings() == kernel.mappings()
                &&& t.wf()
                &&& t.frames_distinct()
                &&& t.kernel_only()
                &&& forall|p: u64| t.owns_frame(p) <==> p == t.root
            },
            Err(e) => {
                &&& e == KernelError::OutOfMemory
                &&& old(alloc).free_count() == 0
                &&& final(alloc).free_list@ == old(alloc).free_list@
            },
        },
{
    let root = match alloc.allocate() {
        Ok(p) => p,
        Err(e) => {
            return Err(e);
        },
    };
    let mut entries: Vec<Pte> = Vec::new();
    let n = kernel.entries.len();
    let mut i: usize = 0;
    while i < n
        invariant
            n == kernel.entries@.len(),
            i <= n,
            entries@ == kernel.entries@.subrange(0, i as int),
        decreases n - i,
    {
        let e = kernel.entries[i];
        entries.push(e);
        proof {
            assert(entries@ =~= kernel.entries@.subrange(0, i + 1));
        }
        i = i + 1;
    }
    proof {
        assert(entries@ =~= kernel.entries@);
    }
    let t = PageTable { root, entries };
    proof {
        assert forall|p: u64| t.owns_frame(p) implies p == t.root by {
            if p != t.root {
                let k = choose|k: int|
                    0 <= k < t.entries@.len() && is_user_vpn(t.entries@[k].vpn)
                        && t.entries@[k].pfn == p;
                assert(!is_user_vpn(kernel.entries@[k].vpn));
            }
        }
    }
    Ok(t)
}

impl PageTable {
    /// Tears the address space down: every user frame and the root frame go
    /// back to the allocator; kernel entries are aliases and are not freed.
    /// What remains is the released placeholder table.
    pub fn release(&mut self, alloc: &mut PageAllocator)
        requires
            old(self).wf(),
            old(self).frames_distinct(),
            old(self).frames_live(*old(alloc)),
            old(alloc).wf(),
            old(self).root != 0,
        ensures
            final(self).is_released(),
            final(self).wf(),
            final(self).frames_distinct(),
            final(alloc).wf(),
            final(alloc).base == old(alloc).base,
            final(alloc).total == old(alloc).total,
            forall|p: u64|
                final(alloc).free_set().contains(p) <==> old(alloc).free_set().contains(p) || old(
                    self,
                ).owns_frame(p),
            final(alloc).free_count() == old(alloc).free_count() + 1 + user_count(
                old(self).entries@,
            ),
    {
        let n = self.entries.len();
        let mut i: usize = 0;
        while i < n
            invariant
                n == self.entries@.len(),
                i <= n,
                self.entries@ == old(self).entries@,
                self.root == old(self).root,
                self.wf(),
                self.frames_distinct(),
                old(self).frames_live(*old(alloc)),
                alloc.wf(),
                alloc.base == old(alloc).base,
                alloc.total == old(alloc).total,
                forall|p: u64|
                    alloc.free_set().contains(p) <==> old(alloc).free_set().contains(p) || (
                    exists|j: int|
                        0 <= j < i && is_user_vpn(#[trigger] old(self).entries@[j].vpn) && old(
                            self,
                        ).entries@[j].pfn == p),
                alloc.free_count() == old(alloc).free_count() + user_count(
                    old(self).entries@.subrange(0, i as int),
                ),
            decreases n - i,
        {
            let e = self.entries[i];
            proof {
                assert(old(self).entries@.subrange(0, i + 1).drop_last() =~= old(
                    self,
                ).entries@.subrange(0, i as int));
                assert(old(self).entries@.subrange(0, i + 1).last() == old(
                    self,
                ).entries@[i as int]);
            }
            if e.vpn < KERNEL_VPN_BASE {
                proof {
                    assert(is_user_vpn(old(self).entries@[i as int].vpn));
                    assert(old(self).owns_frame(e.pfn));
                    assert(!old(alloc).free_set().contains(e.pfn));
                    assert forall|j: int|
                        0 <= j < i && is_user_vpn(#[trigger] old(self).entries@[j].vpn) implies old(
                        self,
                    ).entries@[j].pfn != e.pfn by {
                        assert(old(self).entries@[j].pfn != old(self).entries@[i as int].pfn);
                    }
                    assert(!alloc.free_set().contains(e.pfn));
                }
                alloc.free(e.pfn);
            }
            i = i + 1;
        }
        proof {
            assert(old(self).entries@.subrange(0, n as int) =~= old(self).entries@);
            assert(!alloc.free_set().contains(old(self).root)) by {
                assert(old(self).owns_frame(old(self).root));
                if exists|j: int|
                    0 <= j < n && is_user_vpn(#[trigger] old(self).entries@[j].vpn) && old(
                        self,
                    ).entries@[j].pfn == old(self).root {
                    let j = choose|j: int|
                        0 <= j < n && is_user_vpn(#[trigger] old(self).entries@[j].vpn) && old(
                            self,
                        ).entries@[j].pfn == old(self).root;
                    assert(old(self).entries@[j].pfn != old(self).root);
                }
            }
            assert(old(alloc).in_range(old(self).root)) by {
                assert(old(self).owns_frame(old(self).root));
            }
        }
        alloc.free(self.root);
        self.root = 0;
        self.entries = Vec::new();
        proof {
            let pre = *old(self);
            assert forall|p: u64|
                alloc.free_set().contains(p) <==> old(alloc).free_set().contains(p)
                    || pre.owns_frame(p) by {
                if pre.owns_frame(p) && p != pre.root {
                    let j = choose|j: int|
                        0 <= j < pre.entries@.len() && is_user_vpn(pre.entries@[j].vpn)
                            && pre.entries@[j].pfn == p;
                    assert(is_user_vpn(pre.entries@[j].vpn) && pre.entries@[j].pfn == p);
                }
            }
        }
    }
}

/// A prefix of a sequence maps at most as many user pages as the whole.
proof fn lemma_user_count_take_le(s: Seq<Pte>, j: int)
    requires
        0 <= j <= s.len(),
    ensures
        user_count(s.subrange(0, j)) <= user_count(s),
    decreases s.len() - j,
{
    if j < s.len() {
        assert(s.subrange(0, j + 1).drop_last() =~= s.subrange(0, j));
        assert(s.subrange(0, j + 1).last() == s[j]);
        lemma_user_count_take_le(s, j + 1);
    } else {
        assert(s.subrange(0, j) =~= s);
    }
}

/// The translation of a duplicate-free entry sequence, pointwise: a key is
/// mapped exactly when some entry carries it, and to that entry.
pub proof fn lemma_map_of_props(s: Seq<Pte>)
    requires
        distinct_vpns(s),
    ensures
        forall|v: u64|
            #[trigger] map_of(s).contains_key(v) <==> exists|i: int|
                0 <= i < s.len() && s[i].vpn == v,
        forall|i: int|
            0 <= i < s.len() ==> map_of(s).contains_key(#[trigger] s[i].vpn) && map_of(s)[s[i].vpn]
                == s[i],
    decreases s.len(),
{
    reveal_with_fuel(map_of, 2);
    if s.len() > 0 {
        let d = s.drop_last();
        assert(distinct_vpns(d));
        lemma_map_of_props(d);
        assert forall|i: int|
            0 <= i < s.len() implies map_of(s).contains_key(#[trigger] s[i].vpn) && map_of(
            s,
        )[s[i].vpn] == s[i] by {
            if i < s.len() - 1 {
                assert(d[i] == s[i]);
                assert(s[i].vpn != s.last().vpn);
            }
        }
        assert forall|v: u64| #[trigger]
            map_of(s).contains_key(v) implies exists|i: int|
            0 <= i < s.len() && s[i].vpn == v by {
            if v != s.last().vpn {
                assert(map_of(d).contains_key(v));
                let i = choose|i: int| 0 <= i < d.len() && d[i].vpn == v;
                assert(d[i] == s[i]);
                assert(s[i].vpn == v);
            } else {
                assert(s[s.len() - 1].vpn == v);
            }
        }
        assert forall|v: u64|
            (exists|i: int| 0 <= i < s.len() && s[i].vpn == v) implies #[trigger] map_of(
            s,
        ).contains_key(v) by {
            let i = choose|i: int| 0 <= i < s.len() && s[i].vpn == v;
            if i < s.len() - 1 {
                assert(d[i].vpn == v);
            }
        }
    }
}

} // verus!
