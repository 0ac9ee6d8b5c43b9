use std::collections::HashMap;

use mm::ids::IdAllocator;
use mm::space::{MmStruct, PageCopy, VmaError, MAP_FULL, PAGE_SIZE};
use mm::vma::{FileRef, VmAreaStruct, VM_LOCKED, VM_READ, VM_WRITE};

fn fresh_space(ids: &mut IdAllocator) -> MmStruct {
    MmStruct::new(ids, 0x8000_0000)
}

/// Applies a duplication's copies to a page-content map, as the kernel does
/// with real frames.
fn perform(mem: &mut HashMap<usize, Vec<u8>>, plan: &[PageCopy]) {
    for c in plan {
        let data = mem[&c.src].clone();
        mem.insert(c.dst, data);
    }
}

#[test]
fn new_space_is_empty() {
    let mut ids = IdAllocator::new();
    let mm = fresh_space(&mut ids);
    assert_eq!(mm.id(), 1);
    assert_eq!(mm.brk(), 0);
    assert_eq!(mm.locked_vm(), 0);
    assert_eq!(mm.root_paddr(), 0x8000_0000);
    assert!(mm.vmas().is_empty());
    assert!(mm.mapped().is_empty());
}

#[test]
fn vma_new_stores_fields() {
    let f = FileRef { handle: 7 };
    let v = VmAreaStruct::new(0x1000, 0x3000, 0x200, Some(f), VM_READ | VM_WRITE);
    assert_eq!(v.vm_start, 0x1000);
    assert_eq!(v.vm_end, 0x3000);
    assert_eq!(v.vm_pgoff, 0x200);
    assert_eq!(v.vm_file, Some(f));
    assert_eq!(v.vm_flags, 3);
    assert!(!v.is_locked());
    assert!(VmAreaStruct::new(0, 0x1000, 0, None, VM_LOCKED).is_locked());
}

#[test]
fn insert_then_find_round_trip() {
    let mut ids = IdAllocator::new();
    let mut mm = fresh_space(&mut ids);
    let v = VmAreaStruct::new(0x4000, 0x6000, 0x1000, Some(FileRef { handle: 3 }), VM_READ);
    assert_eq!(mm.insert_vma(v), Ok(()));
    assert_eq!(mm.find_vma(0x4000), Some(v));
    assert_eq!(mm.find_vma(0x5000), None);
}

#[test]
fn overlapping_areas_are_refused() {
    let mut ids = IdAllocator::new();
    let mut mm = fresh_space(&mut ids);
    let a = VmAreaStruct::new(0x1000, 0x3000, 0, None, VM_READ);
    assert_eq!(mm.insert_vma(a), Ok(()));
    // Intersects the tail of `a`.
    let b = VmAreaStruct::new(0x2000, 0x4000, 0, None, VM_READ);
    assert_eq!(mm.insert_vma(b), Err(VmaError::Conflict));
    // Same start as `a`.
    let c = VmAreaStruct::new(0x1000, 0x2000, 0, None, VM_WRITE);
    assert_eq!(mm.insert_vma(c), Err(VmaError::Conflict));
    // Covers `a` entirely.
    let d = VmAreaStruct::new(0x0, 0x8000, 0, None, VM_WRITE);
    assert_eq!(mm.insert_vma(d), Err(VmaError::Conflict));
    // Touches `a` at its end: half-open ranges do not meet.
    let e = VmAreaStruct::new(0x3000, 0x4000, 0, None, VM_WRITE);
    assert_eq!(mm.insert_vma(e), Ok(()));
    assert_eq!(mm.vmas().len(), 2);
    assert_eq!(mm.find_vma(0x1000), Some(a));
    assert_eq!(mm.find_vma(0x2000), None);
}

#[test]
fn remove_vma_takes_only_that_area() {
    let mut ids = IdAllocator::new();
    let mut mm = fresh_space(&mut ids);
    let a = VmAreaStruct::new(0x1000, 0x2000, 0, None, VM_READ);
    let b = VmAreaStruct::new(0x2000, 0x3000, 0, None, VM_READ);
    mm.insert_vma(a).unwrap();
    mm.insert_vma(b).unwrap();
    assert_eq!(mm.remove_vma(0x1000), Some(a));
    assert_eq!(mm.remove_vma(0x1000), None);
    assert_eq!(mm.find_vma(0x2000), Some(b));
    // The freed range can be used again.
    assert_eq!(mm.insert_vma(a), Ok(()));
}

#[test]
fn ledger_records_and_replaces() {
    let mut ids = IdAllocator::new();
    let mut mm = fresh_space(&mut ids);
    mm.record_mapped(0x1000, 0xa000);
    mm.record_mapped(0x2000, 0xb000);
    mm.record_mapped(0x1000, 0xc000);
    assert_eq!(mm.mapped_page(0x1000), Some(0xc000));
    assert_eq!(mm.mapped_page(0x2000), Some(0xb000));
    assert_eq!(mm.mapped_page(0x3000), None);
    assert_eq!(mm.mapped().len(), 2);
}

#[test]
fn brk_and_locked_count() {
    let mut ids = IdAllocator::new();
    let mut mm = fresh_space(&mut ids);
    mm.set_brk(0x40_0000);
    mm.set_locked_vm(5);
    assert_eq!(mm.brk(), 0x40_0000);
    assert_eq!(mm.locked_vm(), 5);
}

#[test]
fn map_and_unmap_calls() {
    let mut ids = IdAllocator::new();
    let mm = fresh_space(&mut ids);
    let m = mm.map_region(0x1000, 0x9000, 2 * PAGE_SIZE, VM_READ);
    assert_eq!((m.va, m.pa, m.len), (0x1000, 0x9000, 8192));
    // Full access whatever was asked, and remapping allowed.
    assert_eq!(m.flags, 0xf);
    assert!(m.overwrite);
    let u = mm.unmap_region(0x1000, 2 * PAGE_SIZE);
    assert_eq!((u.va, u.len), (0x1000, 8192));
    // Mapping the same range again elsewhere asks the same of the backend.
    let again = mm.map_region(0x1000, 0xa000, 2 * PAGE_SIZE, VM_READ);
    assert_eq!(again.pa, 0xa000);
    assert!(again.overwrite);
}

#[test]
fn ids_are_distinct_and_increasing() {
    let mut ids = IdAllocator::new();
    let mut seen = Vec::new();
    let first = fresh_space(&mut ids);
    seen.push(first.id());
    for _ in 0..4 {
        seen.push(fresh_space(&mut ids).id());
    }
    for _ in 0..3 {
        let (dup, _) = first.deep_dup(&mut ids, 0x9000_0000, &Vec::new());
        seen.push(dup.id());
    }
    assert_eq!(seen, vec![1, 2, 3, 4, 5, 6, 7, 8]);
    assert_eq!(ids.next_id(), 9);
    for w in seen.windows(2) {
        assert!(w[0] < w[1]);
    }
}

#[test]
fn duplicate_copies_areas_and_counters() {
    let mut ids = IdAllocator::new();
    let mut mm = fresh_space(&mut ids);
    let f = FileRef { handle: 11 };
    let a = VmAreaStruct::new(0x1000, 0x3000, 0x4000, Some(f), VM_READ);
    let b = VmAreaStruct::new(0x8000, 0x9000, 0, None, VM_READ | VM_WRITE | VM_LOCKED);
    mm.insert_vma(a).unwrap();
    mm.insert_vma(b).unwrap();
    mm.set_brk(0x20_0000);
    mm.set_locked_vm(1);
    let (dup, plan) = mm.deep_dup(&mut ids, 0x9000_0000, &Vec::new());
    assert!(plan.is_empty());
    assert_ne!(dup.id(), mm.id());
    assert_eq!(dup.root_paddr(), 0x9000_0000);
    assert_eq!(dup.find_vma(0x1000), Some(a));
    assert_eq!(dup.find_vma(0x8000), Some(b));
    assert_eq!(dup.find_vma(0x1000).unwrap().vm_file, Some(f));
    assert_eq!(dup.vmas().len(), 2);
    assert_eq!(dup.brk(), 0x20_0000);
    assert_eq!(dup.locked_vm(), 1);
}

#[test]
fn duplicate_pages_same_content_distinct_frames() {
    let mut ids = IdAllocator::new();
    let mut mm = fresh_space(&mut ids);
    let mut mem: HashMap<usize, Vec<u8>> = HashMap::new();
    let n = 5usize;
    for i in 0..n {
        let va = 0x10000 + i * PAGE_SIZE;
        let page = 0x100_0000 + i * PAGE_SIZE;
        mm.record_mapped(va, page);
        mem.insert(page, (0..PAGE_SIZE).map(|k| ((k * 7 + i * 13) % 251) as u8).collect());
    }
    let fresh: Vec<usize> = (0..n).map(|i| 0x200_0000 + i * PAGE_SIZE).collect();
    let (dup, plan) = mm.deep_dup(&mut ids, 0x9000_0000, &fresh);
    assert_eq!(plan.len(), n);
    assert!(plan.iter().all(|c| c.flags == MAP_FULL));
    perform(&mut mem, &plan);
    assert_eq!(dup.mapped().len(), n);
    let mut frames = Vec::new();
    for i in 0..n {
        let va = 0x10000 + i * PAGE_SIZE;
        let src = mm.mapped_page(va).unwrap();
        let dst = dup.mapped_page(va).unwrap();
        assert_ne!(src, dst);
        assert_eq!(mem[&src], mem[&dst]);
        frames.push(dst);
    }
    frames.sort();
    frames.dedup();
    assert_eq!(frames.len(), n);
}

#[test]
fn duplicate_is_isolated_from_source() {
    let mut ids = IdAllocator::new();
    let mut mm = fresh_space(&mut ids);
    let mut mem: HashMap<usize, Vec<u8>> = HashMap::new();
    mm.record_mapped(0x1000, 0xa000);
    mm.record_mapped(0x2000, 0xb000);
    mem.insert(0xa000, vec![1u8; PAGE_SIZE]);
    mem.insert(0xb000, vec![2u8; PAGE_SIZE]);
    let (dup, plan) = mm.deep_dup(&mut ids, 0x9000_0000, &vec![0xc000, 0xd000]);
    perform(&mut mem, &plan);
    // Write through the duplicate.
    mem.insert(dup.mapped_page(0x1000).unwrap(), vec![9u8; PAGE_SIZE]);
    assert_eq!(mem[&mm.mapped_page(0x1000).unwrap()], vec![1u8; PAGE_SIZE]);
    // Write through the source.
    mem.insert(mm.mapped_page(0x2000).unwrap(), vec![8u8; PAGE_SIZE]);
    assert_eq!(mem[&dup.mapped_page(0x2000).unwrap()], vec![2u8; PAGE_SIZE]);
}

#[test]
fn duplicate_page_scenario() {
    let mut ids = IdAllocator::new();
    let mut mm = fresh_space(&mut ids);
    let frame_a = 0x40_0000usize;
    let m = mm.map_region(0x1000, frame_a, PAGE_SIZE, VM_READ | VM_WRITE);
    assert_eq!(m.pa, frame_a);
    mm.record_mapped(0x1000, frame_a);
    let mut mem: HashMap<usize, Vec<u8>> = HashMap::new();
    mem.insert(frame_a, vec![0xAAu8; PAGE_SIZE]);
    let (dup, plan) = mm.deep_dup(&mut ids, 0x9000_0000, &vec![0x50_0000]);
    assert_eq!(
        plan,
        vec![PageCopy { va: 0x1000, src: frame_a, dst: 0x50_0000, flags: MAP_FULL }]
    );
    perform(&mut mem, &plan);
    let dup_page = dup.mapped_page(0x1000).unwrap();
    assert!(mem[&dup_page].iter().all(|&b| b == 0xAA));
    mem.insert(dup_page, vec![0xBBu8; PAGE_SIZE]);
    let src_page = mm.mapped_page(0x1000).unwrap();
    assert!(mem[&src_page].iter().all(|&b| b == 0xAA));
    assert!(mem[&dup_page].iter().all(|&b| b == 0xBB));
}
