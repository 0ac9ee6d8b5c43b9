use vstd::prelude::*;
use vstd::string::StringSliceAdditionalSpecFns;

verus! {

/// `x` rounded down to a multiple of `align`.
pub open spec fn align_down_spec(x: int, align: int) -> int {
    x - x % align
}

/// A user-mode stack being filled downward from its top. `sp` is the stack
/// pointer as the user program sees it; `ptr` is the same position as the
/// kernel reaches it. Both move down together.
pub struct UserStack {
    base: usize,
    sp: usize,
    ptr: usize,
}

impl UserStack {
    pub closed spec fn base_spec(&self) -> usize {
        self.base
    }

    pub closed spec fn sp_spec(&self) -> usize {
        self.sp
    }

    pub closed spec fn ptr_spec(&self) -> usize {
        self.ptr
    }

    /// An empty stack whose top is `base` for the user and `ptr` for the
    /// kernel.
    pub fn new(base: usize, ptr: usize) -> (r: Self)
        ensures
            r.base_spec() == base,
            r.sp_spec() == base,
            r.ptr_spec() == ptr,
    {
        UserStack { base, sp: base, ptr }
    }

    /// The current stack pointer.
    pub fn get_sp(&self) -> (r: usize)
        ensures
            r == self.sp_spec(),
    {
        self.sp
    }

    /// The kernel's address of the current stack pointer: where the data of
    /// the last `reserve` is to be written.
    pub fn ptr(&self) -> (r: usize)
        ensures
            r == self.ptr_spec(),
    {
        self.ptr
    }

    /// Moves the stack pointer down by `size` bytes, then further down to a
    /// multiple of `align`; the kernel's pointer moves down by as much.
    /// Returns the kernel's pointer, where the `size` bytes go.
    pub fn reserve(&mut self, size: usize, align: usize) -> (r: usize)
        requires
            align > 0,
            size <= old(self).sp_spec(),
            old(self).sp_spec() - align_down_spec(old(self).sp_spec() - size, align as int)
                <= old(self).ptr_spec(),
        ensures
            final(self).sp_spec() == align_down_spec(old(self).sp_spec() - size, align as int),
            final(self).ptr_spec() == old(self).ptr_spec() - (old(self).sp_spec()
                - final(self).sp_spec()),
            final(self).base_spec() == old(self).base_spec(),
            r == final(self).ptr_spec(),
    {
        let origin = self.sp;
        self.sp = self.sp - size;
        assert(self.sp % align <= self.sp) by (nonlinear_arith)
            requires
                align > 0,
        ;
        self.sp = self.sp - self.sp % align;
        self.ptr = self.ptr - (origin - self.sp);
        self.ptr
    }

    /// Makes room for `s` followed by a terminating NUL byte, each byte
    /// aligned to 1, and returns the new stack pointer. The string's bytes
    /// then go at `ptr()` and the NUL right after them.
    pub fn push_str(&mut self, s: &str) -> (r: usize)
        requires
            s.spec_bytes().len() + 1 <= old(self).sp_spec(),
            s.spec_bytes().len() + 1 <= old(self).ptr_spec(),
        ensures
            final(self).sp_spec() == old(self).sp_spec() - (s.spec_bytes().len() + 1),
            final(self).ptr_spec() == old(self).ptr_spec() - (s.spec_bytes().len() + 1),
            final(self).base_spec() == old(self).base_spec(),
            r == final(self).sp_spec(),
    {
        self.reserve(1, 1);
        self.reserve(s.len(), 1);
        self.sp
    }
}

} // verus!
