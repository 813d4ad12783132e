use fuel_vm_core::constraints::{CheckedMemConstLen, CheckedMemRange, CheckedMemValue};
use fuel_vm_core::consts::VM_MAX_RAM;
use fuel_vm_core::error::{BugVariant, PanicReason, RuntimeError};
use fuel_vm_core::memory::VmMemory;

const OVERFLOW: RuntimeError = RuntimeError::Recoverable(PanicReason::MemoryOverflow);

#[test]
fn range_past_the_memory_overflows() {
    assert_eq!(VM_MAX_RAM, 1 << 26);
    assert_eq!(CheckedMemRange::new((1 << 26) - 31, 32).err(), Some(OVERFLOW));
    let r = CheckedMemRange::new((1 << 26) - 32, 32).unwrap();
    assert_eq!(r.start(), (1 << 26) - 32);
    assert_eq!(r.end(), 1 << 26);
    assert_eq!(r.len(), 32);
}

#[test]
fn range_whose_end_overflows_a_word_fails() {
    assert_eq!(CheckedMemRange::new(u64::MAX, 1).err(), Some(OVERFLOW));
    assert_eq!(CheckedMemRange::new(u64::MAX - 5, 10).err(), Some(OVERFLOW));
    assert_eq!(CheckedMemRange::new(1, usize::MAX).err(), Some(OVERFLOW));
}

#[test]
fn ranges_inside_the_memory_succeed() {
    assert!(CheckedMemRange::new(0, 0).is_ok());
    assert!(CheckedMemRange::new(0, 1 << 26).is_ok());
    assert!(CheckedMemRange::new(100, 0).is_ok());
    assert!(CheckedMemRange::new((1 << 26) - 1, 1).is_ok());
    assert_eq!(CheckedMemRange::new(1 << 26, 0).err(), Some(OVERFLOW));
}

#[test]
fn constraint_past_the_memory_is_a_bug() {
    assert_eq!(
        CheckedMemRange::new_with_constraint(0, 1, 0..VM_MAX_RAM + 1).err(),
        Some(RuntimeError::Bug(BugVariant::InvalidMemoryConstraint))
    );
    assert!(CheckedMemRange::new_with_constraint(10, 10, 10..20).is_ok());
    assert_eq!(CheckedMemRange::new_with_constraint(10, 11, 10..20).err(), Some(OVERFLOW));
    assert_eq!(CheckedMemRange::new_with_constraint(9, 1, 10..20).err(), Some(OVERFLOW));
}

#[test]
fn shrinking_and_growing_never_cross() {
    let mut r = CheckedMemRange::new(10, 10).unwrap();
    r.shrink_end(3);
    assert_eq!((r.start(), r.end()), (10, 17));
    r.shrink_end(100);
    assert_eq!((r.start(), r.end()), (10, 10));
    let mut r = CheckedMemRange::new(10, 10).unwrap();
    r.grow_start(4);
    assert_eq!((r.start(), r.end()), (14, 20));
    r.grow_start(usize::MAX);
    assert_eq!((r.start(), r.end()), (20, 20));
    assert_eq!(r.len(), 0);
}

#[test]
fn reading_and_clearing_a_range() {
    let mut memory = VmMemory::new();
    memory.force_write_bytes(4, &[1, 2, 3, 4]);
    let r = CheckedMemRange::new(5, 2).unwrap();
    assert_eq!(r.read_to_vec(&memory), vec![2, 3]);
    r.clear(&mut memory);
    assert_eq!(&memory.as_slice()[3..9], &[0, 1, 0, 0, 4, 0]);
}

#[test]
fn fixed_length_ranges() {
    let mut memory = VmMemory::new();
    memory.force_write_bytes(8, &[9, 8, 7]);
    let r = CheckedMemConstLen::<3>::new(8).unwrap();
    assert_eq!(r.read(&memory), [9, 8, 7]);
    assert_eq!(r.range().len(), 3);
    assert!(CheckedMemConstLen::<3>::new(VM_MAX_RAM - 2).is_err());
    assert!(CheckedMemConstLen::<3>::new_with_constraint(8, 0..10).is_err());
    assert!(CheckedMemConstLen::<3>::new_with_constraint(7, 0..10).is_ok());

    let v = CheckedMemValue::<u32>::new::<4>(8).unwrap();
    assert_eq!((v.start(), v.end()), (8, 12));
    assert_eq!(v.read_array::<4>(&memory).unwrap(), [9, 8, 7, 0]);
    let v = CheckedMemValue::<[u8; 4]>::new::<4>(8).unwrap();
    assert_eq!(v.from::<4>(&memory).unwrap(), [9, 8, 7, 0]);
}
