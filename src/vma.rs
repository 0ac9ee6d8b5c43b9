use vstd::prelude::*;

verus! {

/// No permissions.
pub const VM_NONE: usize = 0x00000000;
/// Memory can be read.
pub const VM_READ: usize = 0x00000001;
/// Memory can be written.
pub const VM_WRITE: usize = 0x00000002;
/// Memory can be executed.
pub const VM_EXEC: usize = 0x00000004;
/// Memory is shared.
pub const VM_SHARED: usize = 0x00000008;
/// May be read in the future.
pub const VM_MAYREAD: usize = 0x00000010;
/// May be written in the future.
pub const VM_MAYWRITE: usize = 0x00000020;
/// May be executed in the future.
pub const VM_MAYEXEC: usize = 0x00000040;
/// May be shared in the future.
pub const VM_MAYSHARE: usize = 0x00000080;
/// Stack segment that grows downward.
pub const VM_GROWSDOWN: usize = 0x00000100;
/// Pages are locked in memory.
pub const VM_LOCKED: usize = 0x00002000;
/// Synchronous page faults.
pub const VM_SYNC: usize = 0x00800000;

/// A shared reference to the file that backs a mapping. The address space
/// only stores and hands it on; the handle names an open file owned by the
/// layer that resolves faults.
#[derive(Clone, Copy, PartialEq, Eq, Structural, Debug)]
pub struct FileRef {
    pub handle: usize,
}

/// A virtual memory area: the half-open range `[vm_start, vm_end)` with its
/// backing file, the byte offset into that file, and its `VM_*` flags.
#[derive(Clone, Copy, PartialEq, Eq, Structural, Debug)]
pub struct VmAreaStruct {
    pub vm_start: usize,
    pub vm_end: usize,
    pub vm_pgoff: usize,
    pub vm_file: Option<FileRef>,
    pub vm_flags: usize,
}

impl VmAreaStruct {
    /// Two areas conflict when their ranges intersect or they share a start.
    pub open spec fn conflicts(self, other: VmAreaStruct) -> bool {
        self.vm_start == other.vm_start || (self.vm_start < other.vm_end && other.vm_start
            < self.vm_end)
    }

    /// Stores its arguments verbatim.
    pub fn new(
        vm_start: usize,
        vm_end: usize,
        vm_pgoff: usize,
        vm_file: Option<FileRef>,
        vm_flags: usize,
    ) -> (r: Self)
        ensures
            r.vm_start == vm_start,
            r.vm_end == vm_end,
            r.vm_pgoff == vm_pgoff,
            r.vm_file == vm_file,
            r.vm_flags == vm_flags,
    {
        VmAreaStruct { vm_start, vm_end, vm_pgoff, vm_file, vm_flags }
    }

    /// Whether the two areas conflict (see `conflicts`).
    pub fn overlaps(&self, other: &VmAreaStruct) -> (r: bool)
        ensures
            r == self.conflicts(*other),
    {
        self.vm_start == other.vm_start || (self.vm_start < other.vm_end && other.vm_start
            < self.vm_end)
    }

    /// Whether the area has the `VM_LOCKED` flag.
    pub fn is_locked(&self) -> (r: bool)
        ensures
            r == (self.vm_flags & VM_LOCKED != 0),
    {
        self.vm_flags & VM_LOCKED != 0
    }
}

} // verus!
