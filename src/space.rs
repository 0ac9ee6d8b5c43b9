use vstd::prelude::*;
use crate::ids::IdAllocator;
use crate::keyed::{
    keyed, unique_keys, lemma_keyed_index, lemma_keyed_absent, lemma_keyed_push,
    lemma_keyed_update, lemma_keyed_remove,
};
use crate::vma::VmAreaStruct;

verus! {

/// Size of one page in bytes.
pub const PAGE_SIZE: usize = 4096;

/// Backend access flag: readable.
pub const MAP_READ: usize = 0x1;
/// Backend access flag: writable.
pub const MAP_WRITE: usize = 0x2;
/// Backend access flag: executable.
pub const MAP_EXECUTE: usize = 0x4;
/// Backend access flag: accessible from user mode.
pub const MAP_USER: usize = 0x8;
/// Read, write, execute and user access together.
pub const MAP_FULL: usize = 0xf;

/// `MAP_FULL` is the union of the four access flags.
pub proof fn lemma_full_access()
    ensures
        MAP_READ | MAP_WRITE | MAP_EXECUTE | MAP_USER == MAP_FULL,
{
    assert(0x1usize | 0x2usize | 0x4usize | 0x8usize == 0xfusize) by (bit_vector);
}

/// A call to the page-table backend that maps `[va, va + len)` to
/// `[pa, pa + len)` with the access flags `flags`.
#[derive(Clone, Copy, PartialEq, Eq, Structural, Debug)]
pub struct MapCall {
    pub va: usize,
    pub pa: usize,
    pub len: usize,
    pub flags: usize,
    pub overwrite: bool,
}

/// A call to the page-table backend that removes the mappings of
/// `[va, va + len)`.
#[derive(Clone, Copy, PartialEq, Eq, Structural, Debug)]
pub struct UnmapCall {
    pub va: usize,
    pub len: usize,
}

/// One step of a duplication: copy the page at `src` into the fresh page at
/// `dst`, then map `va` to `dst` with access `flags`.
#[derive(Clone, Copy, PartialEq, Eq, Structural, Debug)]
pub struct PageCopy {
    pub va: usize,
    pub src: usize,
    pub dst: usize,
    pub flags: usize,
}

/// Why a change to the set of areas was refused.
#[derive(Clone, Copy, PartialEq, Eq, Structural, Debug)]
pub enum VmaError {
    /// The new area intersects an area already present, or shares its start.
    Conflict,
}

/// Areas are keyed by their start.
pub open spec fn vma_key() -> spec_fn(VmAreaStruct) -> usize {
    |v: VmAreaStruct| v.vm_start
}

/// Ledger entries are keyed by their virtual page.
pub open spec fn page_key() -> spec_fn((usize, usize)) -> usize {
    |p: (usize, usize)| p.0
}

/// The areas of a sequence, keyed by start.
pub open spec fn vma_map(s: Seq<VmAreaStruct>) -> Map<usize, VmAreaStruct> {
    keyed(s, vma_key())
}

/// The `(virtual page, page)` pairs of a sequence as a map.
pub open spec fn page_map(s: Seq<(usize, usize)>) -> Map<usize, usize> {
    keyed(s, page_key()).map_values(|p: (usize, usize)| p.1)
}

/// No two areas of the sequence conflict.
pub open spec fn disjoint_areas(s: Seq<VmAreaStruct>) -> bool {
    forall|i: int, j: int|
        0 <= i < s.len() && 0 <= j < s.len() && i != j ==> !(#[trigger] s[i]).conflicts(
            #[trigger] s[j],
        )
}

/// The address space of one process: its areas keyed by start, the physical
/// address of its page-table root, its program break, the ledger of pages
/// already backed (virtual page to page), and its count of locked pages.
/// Changes go through `&mut self`, so the owner is the only writer; the
/// page table itself, shared with context-switch code, is held by the caller
/// behind its own lock.
pub struct MmStruct {
    id: usize,
    vmas: Vec<VmAreaStruct>,
    root: usize,
    brk: usize,
    mapped: Vec<(usize, usize)>,
    locked_vm: usize,
}

impl MmStruct {
    pub closed spec fn id_spec(&self) -> usize {
        self.id
    }

    pub closed spec fn root_spec(&self) -> usize {
        self.root
    }

    pub closed spec fn brk_spec(&self) -> usize {
        self.brk
    }

    /// The number of pages locked in memory.
    pub closed spec fn locked_spec(&self) -> usize {
        self.locked_vm
    }

    /// The areas, keyed by start.
    pub closed spec fn vma_map(&self) -> Map<usize, VmAreaStruct> {
        vma_map(self.vmas@)
    }

    /// The ledger of backed pages, in the order in which they are kept.
    pub closed spec fn ledger(&self) -> Seq<(usize, usize)> {
        self.mapped@
    }

    /// The ledger of backed pages as a map from virtual page to page.
    pub open spec fn mapped_map(&self) -> Map<usize, usize> {
        page_map(self.ledger())
    }

    /// No two areas conflict, and the ledger holds each virtual page once.
    pub closed spec fn wf(&self) -> bool {
        &&& disjoint_areas(self.vmas@)
        &&& unique_keys(self.mapped@, page_key())
    }

    /// Whether `vma` conflicts with an area of this space.
    pub open spec fn conflicts_with(&self, vma: VmAreaStruct) -> bool {
        exists|k: usize| #[trigger] self.vma_map().contains_key(k) && self.vma_map()[k].conflicts(vma)
    }

    /// `dup` and `plan` are what duplicating `self` onto `new_pages` gives:
    /// the same areas, break and locked count; one copy per ledger entry, in
    /// ledger order, from the entry's page to the fresh page of the same
    /// index, with full access; and a ledger that maps each virtual page to
    /// its fresh page.
    pub open spec fn duplicates(
        &self,
        dup: &MmStruct,
        plan: Seq<PageCopy>,
        new_pages: Seq<usize>,
    ) -> bool {
        &&& dup.vma_map() == self.vma_map()
        &&& dup.brk_spec() == self.brk_spec()
        &&& dup.locked_spec() == self.locked_spec()
        &&& new_pages.len() == self.ledger().len()
        &&& plan.len() == self.ledger().len()
        &&& dup.ledger().len() == self.ledger().len()
        &&& forall|i: int|
            0 <= i < self.ledger().len() ==> #[trigger] plan[i] == (PageCopy {
                va: self.ledger()[i].0,
                src: self.ledger()[i].1,
                dst: new_pages[i],
                flags: MAP_FULL,
            })
        &&& forall|i: int|
            0 <= i < self.ledger().len() ==> #[trigger] dup.ledger()[i] == (
                self.ledger()[i].0,
                new_pages[i],
            )
    }

    proof fn lemma_wf_unique_starts(&self)
        requires
            self.wf(),
        ensures
            unique_keys(self.vmas@, vma_key()),
    {
        assert forall|i: int, j: int|
            0 <= i < self.vmas@.len() && 0 <= j < self.vmas@.len() && #[trigger] vma_key()(
                self.vmas@[i],
            ) == #[trigger] vma_key()(self.vmas@[j]) implies i == j by {
            if i != j {
                assert(!self.vmas@[i].conflicts(self.vmas@[j]));
            }
        }
    }

    /// An empty space with the page-table root at `root_paddr`, break 0, no
    /// locked pages, and a fresh identifier from `ids`.
    pub fn new(ids: &mut IdAllocator, root_paddr: usize) -> (r: Self)
        requires
            old(ids).wf(),
            old(ids).next_spec() < usize::MAX,
        ensures
            r.wf(),
            final(ids).wf(),
            r.id_spec() == old(ids).next_spec(),
            final(ids).next_spec() == old(ids).next_spec() + 1,
            final(ids).issued() == old(ids).issued().push(r.id_spec()),
            r.root_spec() == root_paddr,
            r.vma_map() == Map::<usize, VmAreaStruct>::empty(),
            r.ledger() == Seq::<(usize, usize)>::empty(),
            r.mapped_map() == Map::<usize, usize>::empty(),
            r.brk_spec() == 0,
            r.locked_spec() == 0,
    {
        let id = ids.fresh();
        let r = MmStruct {
            id,
            vmas: Vec::new(),
            root: root_paddr,
            brk: 0,
            mapped: Vec::new(),
            locked_vm: 0,
        };
        assert(r.vma_map() =~= Map::<usize, VmAreaStruct>::empty());
        assert(r.mapped_map() =~= Map::<usize, usize>::empty());
        r
    }

    /// The identifier of this space; it never changes.
    pub fn id(&self) -> (r: usize)
        ensures
            r == self.id_spec(),
    {
        self.id
    }

    /// The physical address of the page-table root; it never changes.
    pub fn root_paddr(&self) -> (r: usize)
        ensures
            r == self.root_spec(),
    {
        self.root
    }

    /// The program break.
    pub fn brk(&self) -> (r: usize)
        ensures
            r == self.brk_spec(),
    {
        self.brk
    }

    /// Sets the program break; nothing else changes.
    pub fn set_brk(&mut self, brk: usize)
        ensures
            final(self).brk_spec() == brk,
            final(self).id_spec() == old(self).id_spec(),
            final(self).root_spec() == old(self).root_spec(),
            final(self).vma_map() == old(self).vma_map(),
            final(self).ledger() == old(self).ledger(),
            final(self).locked_spec() == old(self).locked_spec(),
            final(self).wf() == old(self).wf(),
    {
        self.brk = brk;
    }
}

impl MmStruct {
    /// The number of pages locked in memory.
    pub fn locked_vm(&self) -> (r: usize)
        ensures
            r == self.locked_spec(),
    {
        self.locked_vm
    }

    /// Sets the number of locked pages; nothing else changes.
    pub fn set_locked_vm(&mut self, n: usize)
        ensures
            final(self).locked_spec() == n,
            final(self).id_spec() == old(self).id_spec(),
            final(self).root_spec() == old(self).root_spec(),
            final(self).brk_spec() == old(self).brk_spec(),
            final(self).vma_map() == old(self).vma_map(),
            final(self).ledger() == old(self).ledger(),
            final(self).wf() == old(self).wf(),
    {
        self.locked_vm = n;
    }

    /// The areas, in the order in which they are kept; keyed by start they
    /// are `vma_map()`.
    pub fn vmas(&self) -> (r: &Vec<VmAreaStruct>)
        requires
            self.wf(),
        ensures
            vma_map(r@) == self.vma_map(),
            unique_keys(r@, vma_key()),
            disjoint_areas(r@),
    {
        proof {
            self.lemma_wf_unique_starts();
        }
        &self.vmas
    }

    /// Adds `vma` under its start. Refused with `Conflict`, leaving the space
    /// unchanged, exactly when it conflicts with an area already present.
    pub fn insert_vma(&mut self, vma: VmAreaStruct) -> (r: Result<(), VmaError>)
        requires
            old(self).wf(),
            vma.vm_start < vma.vm_end,
        ensures
            final(self).wf(),
            r is Err <==> old(self).conflicts_with(vma),
            r == Err::<(), VmaError>(VmaError::Conflict) || r is Ok,
            r is Ok ==> final(self).vma_map() == old(self).vma_map().insert(vma.vm_start, vma),
            r is Err ==> final(self).vma_map() == old(self).vma_map(),
            final(self).id_spec() == old(self).id_spec(),
            final(self).root_spec() == old(self).root_spec(),
            final(self).brk_spec() == old(self).brk_spec(),
            final(self).locked_spec() == old(self).locked_spec(),
            final(self).ledger() == old(self).ledger(),
    {
        proof {
            self.lemma_wf_unique_starts();
        }
        let n = self.vmas.len();
        let mut i: usize = 0;
        while i < n
            invariant
                n == self.vmas@.len(),
                i <= n,
                self.wf(),
                unique_keys(self.vmas@, vma_key()),
                *self == *old(self),
                forall|j: int| 0 <= j < i ==> !(#[trigger] self.vmas@[j]).conflicts(vma),
            decreases n - i,
        {
            if self.vmas[i].overlaps(&vma) {
                proof {
                    lemma_keyed_index(self.vmas@, vma_key(), i as int);
                    let k = self.vmas@[i as int].vm_start;
                    assert(self.vma_map().contains_key(k) && self.vma_map()[k].conflicts(vma));
                }
                return Err(VmaError::Conflict);
            }
            i = i + 1;
        }
        proof {
            assert forall|k: usize| #[trigger] self.vma_map().contains_key(k) implies !self.vma_map()[k].conflicts(vma) by {
                let j = choose|j: int| 0 <= j < self.vmas@.len() && #[trigger] vma_key()(self.vmas@[j]) == k;
                lemma_keyed_index(self.vmas@, vma_key(), j);
            }
            assert forall|j: int| 0 <= j < self.vmas@.len() implies #[trigger] vma_key()(self.vmas@[j]) != vma_key()(vma) by {
                assert(!self.vmas@[j].conflicts(vma));
            }
            lemma_keyed_absent(self.vmas@, vma_key(), vma.vm_start);
            lemma_keyed_push(self.vmas@, vma_key(), vma);
        }
        self.vmas.push(vma);
        proof {
            assert forall|a: int, b: int|
                0 <= a < self.vmas@.len() && 0 <= b < self.vmas@.len() && a != b implies !(#[trigger] self.vmas@[a]).conflicts(#[trigger] self.vmas@[b]) by {
                if a == n {
                    assert(!self.vmas@[b].conflicts(vma));
                } else if b == n {
                    assert(!self.vmas@[a].conflicts(vma));
                }
            }
        }
        Ok(())
    }

    /// The area that starts at `start`, if there is one.
    pub fn find_vma(&self, start: usize) -> (r: Option<VmAreaStruct>)
        requires
            self.wf(),
        ensures
            r == (if self.vma_map().contains_key(start) {
                Some(self.vma_map()[start])
            } else {
                None
            }),
    {
        proof {
            self.lemma_wf_unique_starts();
        }
        let n = self.vmas.len();
        let mut i: usize = 0;
        while i < n
            invariant
                n == self.vmas@.len(),
                i <= n,
                self.wf(),
                unique_keys(self.vmas@, vma_key()),
                forall|j: int| 0 <= j < i ==> (#[trigger] self.vmas@[j]).vm_start != start,
            decreases n - i,
        {
            if self.vmas[i].vm_start == start {
                proof {
                    lemma_keyed_index(self.vmas@, vma_key(), i as int);
                }
                return Some(self.vmas[i]);
            }
            i = i + 1;
        }
        proof {
            lemma_keyed_absent(self.vmas@, vma_key(), start);
        }
        None
    }

    /// Removes and returns the area that starts at `start`, if there is one;
    /// the other areas stay.
    pub fn remove_vma(&mut self, start: usize) -> (r: Option<VmAreaStruct>)
        requires
            old(self).wf(),
        ensures
            final(self).wf(),
            r == (if old(self).vma_map().contains_key(start) {
                Some(old(self).vma_map()[start])
            } else {
                None
            }),
            final(self).vma_map() == old(self).vma_map().remove(start),
            final(self).id_spec() == old(self).id_spec(),
            final(self).root_spec() == old(self).root_spec(),
            final(self).brk_spec() == old(self).brk_spec(),
            final(self).locked_spec() == old(self).locked_spec(),
            final(self).ledger() == old(self).ledger(),
    {
        proof {
            self.lemma_wf_unique_starts();
        }
        let n = self.vmas.len();
        let mut i: usize = 0;
        while i < n
            invariant
                n == self.vmas@.len(),
                i <= n,
                self.wf(),
                unique_keys(self.vmas@, vma_key()),
                *self == *old(self),
                forall|j: int| 0 <= j < i ==> (#[trigger] self.vmas@[j]).vm_start != start,
            decreases n - i,
        {
            if self.vmas[i].vm_start == start {
                let ghost before = self.vmas@;
                proof {
                    lemma_keyed_index(before, vma_key(), i as int);
                    lemma_keyed_remove(before, vma_key(), i as int);
                }
                let v = self.vmas.remove(i);
                proof {
                    assert forall|a: int, b: int|
                        0 <= a < self.vmas@.len() && 0 <= b < self.vmas@.len() && a != b implies !(#[trigger] self.vmas@[a]).conflicts(#[trigger] self.vmas@[b]) by {
                        let a2 = if a < i { a } else { a + 1 };
                        let b2 = if b < i { b } else { b + 1 };
                        assert(self.vmas@[a] == before[a2]);
                        assert(self.vmas@[b] == before[b2]);
                    }
                }
                return Some(v);
            }
            i = i + 1;
        }
        proof {
            lemma_keyed_absent(self.vmas@, vma_key(), start);
            assert(self.vma_map().remove(start) =~= self.vma_map());
        }
        None
    }
}

impl MmStruct {
    /// The ledger of backed pages as `(virtual page, page)` pairs, each
    /// virtual page once.
    pub fn mapped(&self) -> (r: &Vec<(usize, usize)>)
        requires
            self.wf(),
        ensures
            r@ == self.ledger(),
            unique_keys(r@, page_key()),
    {
        &self.mapped
    }

    /// The page recorded for virtual page `va`, if there is one.
    pub fn mapped_page(&self, va: usize) -> (r: Option<usize>)
        requires
            self.wf(),
        ensures
            r == (if self.mapped_map().contains_key(va) {
                Some(self.mapped_map()[va])
            } else {
                None
            }),
    {
        let n = self.mapped.len();
        let mut i: usize = 0;
        while i < n
            invariant
                n == self.mapped@.len(),
                i <= n,
                self.wf(),
                forall|j: int| 0 <= j < i ==> (#[trigger] self.mapped@[j]).0 != va,
            decreases n - i,
        {
            if self.mapped[i].0 == va {
                proof {
                    lemma_keyed_index(self.mapped@, page_key(), i as int);
                }
                return Some(self.mapped[i].1);
            }
            i = i + 1;
        }
        proof {
            lemma_keyed_absent(self.mapped@, page_key(), va);
        }
        None
    }

    /// Records that virtual page `va` is backed by `page`, replacing what was
    /// recorded for `va` before. The caller maps the page first and keeps
    /// `va` inside one of the space's areas; neither is checked here.
    pub fn record_mapped(&mut self, va: usize, page: usize)
        requires
            old(self).wf(),
        ensures
            final(self).wf(),
            final(self).mapped_map() == old(self).mapped_map().insert(va, page),
            final(self).id_spec() == old(self).id_spec(),
            final(self).root_spec() == old(self).root_spec(),
            final(self).brk_spec() == old(self).brk_spec(),
            final(self).locked_spec() == old(self).locked_spec(),
            final(self).vma_map() == old(self).vma_map(),
    {
        let n = self.mapped.len();
        let mut i: usize = 0;
        while i < n
            invariant
                n == self.mapped@.len(),
                i <= n,
                self.wf(),
                *self == *old(self),
                forall|j: int| 0 <= j < i ==> (#[trigger] self.mapped@[j]).0 != va,
            decreases n - i,
        {
            if self.mapped[i].0 == va {
                proof {
                    lemma_keyed_update(self.mapped@, page_key(), i as int, (va, page));
                    assert(page_map(self.mapped@.update(i as int, (va, page))) =~= page_map(
                        self.mapped@,
                    ).insert(va, page));
                }
                self.mapped.set(i, (va, page));
                return;
            }
            i = i + 1;
        }
        proof {
            lemma_keyed_absent(self.mapped@, page_key(), va);
            lemma_keyed_push(self.mapped@, page_key(), (va, page));
            assert(page_map(self.mapped@.push((va, page))) =~= page_map(self.mapped@).insert(
                va,
                page,
            ));
        }
        self.mapped.push((va, page));
    }

    /// The backend call that maps `[va, va + len)` to `[pa, pa + len)`:
    /// always with read, write, execute and user access, whatever `_uflags`
    /// asks, and always allowed to replace an existing mapping.
    pub fn map_region(&self, va: usize, pa: usize, len: usize, _uflags: usize) -> (r: MapCall)
        ensures
            r == (MapCall { va, pa, len, flags: MAP_FULL, overwrite: true }),
    {
        MapCall { va, pa, len, flags: MAP_FULL, overwrite: true }
    }

    /// The backend call that removes the mappings of `[va, va + len)`.
    pub fn unmap_region(&self, va: usize, len: usize) -> (r: UnmapCall)
        ensures
            r == (UnmapCall { va, len }),
    {
        UnmapCall { va, len }
    }

    /// Duplicates this space onto the fresh pages `new_pages`, one for each
    /// ledger entry in ledger order. Returns the new space, with the page-table
    /// root `new_root` and a fresh identifier from `ids`, and the copies that
    /// fill and map its pages: see `duplicates`.
    pub fn deep_dup(
        &self,
        ids: &mut IdAllocator,
        new_root: usize,
        new_pages: &Vec<usize>,
    ) -> (r: (MmStruct, Vec<PageCopy>))
        requires
            self.wf(),
            old(ids).wf(),
            old(ids).next_spec() < usize::MAX,
            new_pages@.len() == self.ledger().len(),
        ensures
            r.0.wf(),
            self.duplicates(&r.0, r.1@, new_pages@),
            final(ids).wf(),
            r.0.id_spec() == old(ids).next_spec(),
            final(ids).next_spec() == old(ids).next_spec() + 1,
            final(ids).issued() == old(ids).issued().push(r.0.id_spec()),
            r.0.root_spec() == new_root,
    {
        let mut vmas: Vec<VmAreaStruct> = Vec::new();
        let nv = self.vmas.len();
        let mut i: usize = 0;
        while i < nv
            invariant
                nv == self.vmas@.len(),
                i <= nv,
                vmas@ == self.vmas@.subrange(0, i as int),
            decreases nv - i,
        {
            vmas.push(self.vmas[i]);
            i = i + 1;
            assert(vmas@ =~= self.vmas@.subrange(0, i as int));
        }
        assert(vmas@ =~= self.vmas@);
        let mut mapped: Vec<(usize, usize)> = Vec::new();
        let mut plan: Vec<PageCopy> = Vec::new();
        let n = self.mapped.len();
        let mut k: usize = 0;
        while k < n
            invariant
                n == self.mapped@.len(),
                n == new_pages@.len(),
                k <= n,
                mapped@.len() == k,
                plan@.len() == k,
                forall|j: int| 0 <= j < k ==> #[trigger] mapped@[j] == (self.mapped@[j].0, new_pages@[j]),
                forall|j: int| 0 <= j < k ==> #[trigger] plan@[j] == (PageCopy {
                    va: self.mapped@[j].0,
                    src: self.mapped@[j].1,
                    dst: new_pages@[j],
                    flags: MAP_FULL,
                }),
            decreases n - k,
        {
            let (va, old_page) = self.mapped[k];
            let new_page = new_pages[k];
            plan.push(PageCopy { va, src: old_page, dst: new_page, flags: MAP_FULL });
            mapped.push((va, new_page));
            k = k + 1;
        }
        let id = ids.fresh();
        let dup = MmStruct { id, vmas, root: new_root, brk: self.brk, mapped, locked_vm: self.locked_vm };
        proof {
            assert forall|a: int, b: int|
                0 <= a < dup.mapped@.len() && 0 <= b < dup.mapped@.len() && #[trigger] page_key()(dup.mapped@[a]) == #[trigger] page_key()(dup.mapped@[b]) implies a == b by {
                assert(page_key()(self.mapped@[a]) == page_key()(self.mapped@[b]));
            }
        }
        (dup, plan)
    }
}

/// Page contents after performing the copies of `plan`, in order, on the
/// page contents `mem` (keyed by page address).
pub open spec fn apply_copies(mem: Map<usize, Seq<u8>>, plan: Seq<PageCopy>) -> Map<
    usize,
    Seq<u8>,
>
    decreases plan.len(),
{
    if plan.len() == 0 {
        mem
    } else {
        let m = apply_copies(mem, plan.drop_last());
        m.insert(plan.last().dst, m[plan.last().src])
    }
}

/// `new_pages` are fresh: pairwise distinct, and none is a page of `src`'s
/// ledger.
pub open spec fn fresh_pages(src: &MmStruct, new_pages: Seq<usize>) -> bool {
    &&& new_pages.no_duplicates()
    &&& forall|i: int, j: int|
        0 <= i < new_pages.len() && 0 <= j < src.ledger().len() ==> #[trigger] new_pages[i]
            != #[trigger] src.ledger()[j].1
}

/// The copies of a plan write pairwise distinct pages that no copy reads.
pub open spec fn copies_independent(plan: Seq<PageCopy>) -> bool {
    &&& forall|i: int, j: int|
        0 <= i < plan.len() && 0 <= j < plan.len() && i != j ==> #[trigger] plan[i].dst
            != #[trigger] plan[j].dst
    &&& forall|i: int, j: int|
        0 <= i < plan.len() && 0 <= j < plan.len() ==> #[trigger] plan[i].dst
            != #[trigger] plan[j].src
}

proof fn lemma_apply_copies(mem: Map<usize, Seq<u8>>, plan: Seq<PageCopy>)
    requires
        copies_independent(plan),
    ensures
        forall|i: int|
            0 <= i < plan.len() ==> #[trigger] apply_copies(mem, plan)[plan[i].dst] == mem[plan[i].src],
        forall|p: usize|
            (forall|i: int| 0 <= i < plan.len() ==> #[trigger] plan[i].dst != p) ==> apply_copies(
                mem,
                plan,
            )[p] == mem[p],
    decreases plan.len(),
{
    if plan.len() > 0 {
        let q = plan.drop_last();
        assert forall|i: int, j: int|
            0 <= i < q.len() && 0 <= j < q.len() && i != j implies #[trigger] q[i].dst != #[trigger] q[j].dst by {
            assert(q[i] == plan[i] && q[j] == plan[j]);
        }
        assert forall|i: int, j: int|
            0 <= i < q.len() && 0 <= j < q.len() implies #[trigger] q[i].dst != #[trigger] q[j].src by {
            assert(q[i] == plan[i] && q[j] == plan[j]);
        }
        lemma_apply_copies(mem, q);
        let last = plan.len() - 1;
        assert forall|k: int| 0 <= k < q.len() implies #[trigger] q[k].dst != plan[last].src by {
            assert(q[k] == plan[k]);
        }
        assert forall|i: int| 0 <= i < plan.len() implies #[trigger] apply_copies(mem, plan)[plan[i].dst] == mem[plan[i].src] by {
            if i < last {
                assert(q[i] == plan[i]);
                assert(plan[i].dst != plan[last].dst);
            }
        }
        assert forall|p: usize|
            (forall|i: int| 0 <= i < plan.len() ==> #[trigger] plan[i].dst != p) implies apply_copies(mem, plan)[p] == mem[p] by {
            assert(plan[last].dst != p);
            assert forall|i: int| 0 <= i < q.len() implies #[trigger] q[i].dst != p by {
                assert(q[i] == plan[i]);
            }
        }
    }
}

impl MmStruct {
    proof fn lemma_dup_ledger(&self, dup: &MmStruct, plan: Seq<PageCopy>, new_pages: Seq<usize>)
        requires
            self.wf(),
            self.duplicates(dup, plan, new_pages),
        ensures
            unique_keys(dup.ledger(), page_key()),
            dup.mapped_map().dom() == self.mapped_map().dom(),
            forall|i: int|
                0 <= i < self.ledger().len() ==> {
                    &&& #[trigger] self.mapped_map()[self.ledger()[i].0] == self.ledger()[i].1
                    &&& dup.mapped_map()[self.ledger()[i].0] == new_pages[i]
                },
            forall|va: usize|
                #[trigger] self.mapped_map().contains_key(va) ==> exists|i: int|
                    0 <= i < self.ledger().len() && #[trigger] self.ledger()[i].0 == va,
    {
        let s = self.ledger();
        let d = dup.ledger();
        assert forall|a: int, b: int|
            0 <= a < d.len() && 0 <= b < d.len() && #[trigger] page_key()(d[a]) == #[trigger] page_key()(d[b]) implies a == b by {
            assert(page_key()(s[a]) == page_key()(s[b]));
        }
        assert forall|i: int| 0 <= i < s.len() implies {
            &&& #[trigger] self.mapped_map()[s[i].0] == s[i].1
            &&& dup.mapped_map()[s[i].0] == new_pages[i]
        } by {
            lemma_keyed_index(s, page_key(), i);
            lemma_keyed_index(d, page_key(), i);
        }
        assert forall|va: usize| #[trigger] dup.mapped_map().contains_key(va) == self.mapped_map().contains_key(va) by {
            if self.mapped_map().contains_key(va) {
                let i = choose|i: int| 0 <= i < s.len() && #[trigger] page_key()(s[i]) == va;
                assert(page_key()(d[i]) == va);
            }
            if dup.mapped_map().contains_key(va) {
                let i = choose|i: int| 0 <= i < d.len() && #[trigger] page_key()(d[i]) == va;
                assert(page_key()(s[i]) == va);
            }
        }
        assert(dup.mapped_map().dom() =~= self.mapped_map().dom());
        assert forall|va: usize| #[trigger] self.mapped_map().contains_key(va) implies exists|i: int|
            0 <= i < s.len() && #[trigger] s[i].0 == va by {
            let i = choose|i: int| 0 <= i < s.len() && #[trigger] page_key()(s[i]) == va;
            assert(s[i].0 == va);
        }
    }

    /// Looking up an area at the start under which it was just inserted
    /// gives back the same area, field for field.
    pub proof fn lemma_insert_then_find(before: &MmStruct, after: &MmStruct, vma: VmAreaStruct)
        requires
            after.vma_map() == before.vma_map().insert(vma.vm_start, vma),
        ensures
            after.vma_map().contains_key(vma.vm_start),
            after.vma_map()[vma.vm_start] == vma,
    {
    }

    /// In a well-formed space no two areas conflict: their ranges are
    /// disjoint. `insert_vma` refuses any area that would break this.
    pub proof fn lemma_areas_disjoint(&self, a: usize, b: usize)
        requires
            self.wf(),
            self.vma_map().contains_key(a),
            self.vma_map().contains_key(b),
            a != b,
        ensures
            !self.vma_map()[a].conflicts(self.vma_map()[b]),
            self.vma_map()[a].vm_start == a,
    {
        self.lemma_wf_unique_starts();
        let s = self.vmas@;
        let i = choose|i: int| 0 <= i < s.len() && #[trigger] vma_key()(s[i]) == a;
        let j = choose|j: int| 0 <= j < s.len() && #[trigger] vma_key()(s[j]) == b;
        lemma_keyed_index(s, vma_key(), i);
        lemma_keyed_index(s, vma_key(), j);
    }

    /// A duplicate made on fresh pages holds the same virtual pages as its
    /// source, each on a page of its own, and once its copies are performed
    /// each of its pages holds exactly what the source's page at the same
    /// virtual address held.
    pub proof fn lemma_duplicate_same_contents(
        &self,
        dup: &MmStruct,
        plan: Seq<PageCopy>,
        new_pages: Seq<usize>,
        mem: Map<usize, Seq<u8>>,
    )
        requires
            self.wf(),
            self.duplicates(dup, plan, new_pages),
            fresh_pages(self, new_pages),
        ensures
            dup.mapped_map().dom() == self.mapped_map().dom(),
            forall|va: usize|
                #[trigger] self.mapped_map().contains_key(va) ==> apply_copies(mem, plan)[dup.mapped_map()[va]]
                    == mem[self.mapped_map()[va]],
            forall|va: usize, w: usize|
                self.mapped_map().contains_key(va) && self.mapped_map().contains_key(w) && va != w
                    ==> #[trigger] dup.mapped_map()[va] != #[trigger] dup.mapped_map()[w],
    {
        self.lemma_dup_ledger(dup, plan, new_pages);
        let s = self.ledger();
        assert(copies_independent(plan)) by {
            assert forall|i: int, j: int|
                0 <= i < plan.len() && 0 <= j < plan.len() && i != j implies #[trigger] plan[i].dst != #[trigger] plan[j].dst by {
                assert(plan[i].dst == new_pages[i] && plan[j].dst == new_pages[j]);
            }
            assert forall|i: int, j: int|
                0 <= i < plan.len() && 0 <= j < plan.len() implies #[trigger] plan[i].dst != #[trigger] plan[j].src by {
                assert(plan[i].dst == new_pages[i] && plan[j].src == s[j].1);
            }
        }
        lemma_apply_copies(mem, plan);
        assert forall|va: usize| #[trigger] self.mapped_map().contains_key(va) implies apply_copies(mem, plan)[dup.mapped_map()[va]]
            == mem[self.mapped_map()[va]] by {
            let i = choose|i: int| 0 <= i < s.len() && #[trigger] s[i].0 == va;
            assert(plan[i].dst == new_pages[i]);
        }
        assert forall|va: usize, w: usize|
            self.mapped_map().contains_key(va) && self.mapped_map().contains_key(w) && va != w
            implies #[trigger] dup.mapped_map()[va] != #[trigger] dup.mapped_map()[w] by {
            let i = choose|i: int| 0 <= i < s.len() && #[trigger] s[i].0 == va;
            let j = choose|j: int| 0 <= j < s.len() && #[trigger] s[j].0 == w;
            assert(i != j);
        }
    }

    /// A duplicate made on fresh pages shares no page with its source: a
    /// write to a page of one leaves every page of the other as it was.
    pub proof fn lemma_duplicate_isolated(
        &self,
        dup: &MmStruct,
        plan: Seq<PageCopy>,
        new_pages: Seq<usize>,
        mem: Map<usize, Seq<u8>>,
        data: Seq<u8>,
        va: usize,
        w: usize,
    )
        requires
            self.wf(),
            self.duplicates(dup, plan, new_pages),
            fresh_pages(self, new_pages),
            self.mapped_map().contains_key(va),
            self.mapped_map().contains_key(w),
        ensures
            dup.mapped_map()[va] != self.mapped_map()[w],
            mem.insert(dup.mapped_map()[va], data)[self.mapped_map()[w]] == mem[self.mapped_map()[w]],
            mem.insert(self.mapped_map()[w], data)[dup.mapped_map()[va]] == mem[dup.mapped_map()[va]],
    {
        self.lemma_dup_ledger(dup, plan, new_pages);
        let s = self.ledger();
        let i = choose|i: int| 0 <= i < s.len() && #[trigger] s[i].0 == va;
        let j = choose|j: int| 0 <= j < s.len() && #[trigger] s[j].0 == w;
        assert(new_pages[i] != s[j].1);
    }
}

} // verus!
