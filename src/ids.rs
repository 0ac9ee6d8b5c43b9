use vstd::prelude::*;

verus! {

/// Issues address-space identifiers: a counter that starts at 1 and is never
/// reset, so no identifier is issued twice.
pub struct IdAllocator {
    next: usize,
    issued: Ghost<Seq<usize>>,
}

impl IdAllocator {
    /// The identifiers issued so far, in the order they were issued.
    pub closed spec fn issued(&self) -> Seq<usize> {
        self.issued@
    }

    /// The identifier that the next call to `fresh` returns.
    pub closed spec fn next_spec(&self) -> usize {
        self.next
    }

    /// Every issued identifier is at least 1, they increase strictly in order
    /// of issue, and all lie below the counter.
    pub closed spec fn wf(&self) -> bool {
        &&& self.next >= 1
        &&& forall|i: int| 0 <= i < self.issued@.len() ==> 1 <= #[trigger] self.issued@[i] < self.next
        &&& forall|i: int, j: int|
            0 <= i < j < self.issued@.len() ==> #[trigger] self.issued@[i] < #[trigger] self.issued@[j]
    }

    /// A fresh counter whose first identifier is 1.
    pub fn new() -> (r: Self)
        ensures
            r.wf(),
            r.next_spec() == 1,
            r.issued() == Seq::<usize>::empty(),
    {
        IdAllocator { next: 1, issued: Ghost(Seq::empty()) }
    }

    /// The identifier that the next call to `fresh` returns.
    pub fn next_id(&self) -> (r: usize)
        ensures
            r == self.next_spec(),
    {
        self.next
    }

    /// Issues the next identifier and advances the counter by one.
    pub fn fresh(&mut self) -> (r: usize)
        requires
            old(self).wf(),
            old(self).next_spec() < usize::MAX,
        ensures
            final(self).wf(),
            r == old(self).next_spec(),
            final(self).next_spec() == old(self).next_spec() + 1,
            final(self).issued() == old(self).issued().push(r),
    {
        let r = self.next;
        self.next = self.next + 1;
        self.issued = Ghost(self.issued@.push(r));
        r
    }
}

/// Identifiers are unique and increase: of any two identifiers issued by
/// one counter, the one issued later is the greater.
pub proof fn issued_ids_increase(ids: &IdAllocator, i: int, j: int)
    requires
        ids.wf(),
        0 <= i < j < ids.issued().len(),
    ensures
        ids.issued()[i] < ids.issued()[j],
        ids.issued()[i] != ids.issued()[j],
{
}

} // verus!
