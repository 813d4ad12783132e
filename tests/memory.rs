use fuel_vm_core::constraints::CheckedMemRange;
use fuel_vm_core::error::{PanicReason, RuntimeError};
use fuel_vm_core::memory::{key, mem, Context, OwnershipRegisters, VmMemory};

#[test]
fn writes_must_stay_inside_the_owned_stack_or_heap() {
    let owner = OwnershipRegisters::test(100..200, 1000..1000, Context::Script { block_height: 0 });
    let mut memory = VmMemory::new();
    assert!(memory.try_write(owner, 150, &[7u8; 16]).is_ok());
    assert_eq!(&memory.as_slice()[150..166], &[7u8; 16]);
    assert_eq!(
        memory.try_write(owner, 190, &[1u8; 16]),
        Err(RuntimeError::Recoverable(PanicReason::MemoryOverflow))
    );
    assert_eq!(memory.as_slice()[199], 0);
    assert_eq!(
        memory.try_write(owner, 900, &[1u8; 16]),
        Err(RuntimeError::Recoverable(PanicReason::MemoryOverflow))
    );
    let read = CheckedMemRange::new(900, 16).unwrap();
    assert_eq!(read.read_to_vec(&memory), vec![0u8; 16]);
}

#[test]
fn heap_writes_between_hp_and_prev_hp() {
    let owner = OwnershipRegisters::test(0..10, 500..600, Context::Call { block_height: 3 });
    let mut memory = VmMemory::new();
    assert!(memory.try_write(owner, 500, &[1u8; 100]).is_ok());
    assert!(memory.try_write(owner, 499, &[1u8; 2]).is_err());
    assert!(memory.try_write(owner, 590, &[1u8; 11]).is_err());
    assert!(owner.has_ownership_range(&CheckedMemRange::new(5, 5).unwrap()));
    assert!(!owner.has_ownership_range(&CheckedMemRange::new(5, 6).unwrap()));
}

#[test]
fn mem_concatenates_its_chains() {
    let memory = mem(&[&[1, 2], &[], &[3]]);
    assert_eq!(&memory.as_slice()[..4], &[1, 2, 3, 0]);
    let k = key(29);
    assert_eq!(k[31], 29);
    assert!(k[..31].iter().all(|b| *b == 0));
}

#[test]
fn reading_bytes_checks_bounds() {
    let memory = mem(&[&[5, 6, 7]]);
    assert_eq!(memory.read_bytes::<2>(1), Ok([6, 7]));
    assert_eq!(
        memory.read_bytes::<2>((1 << 26) - 1),
        Err(RuntimeError::Recoverable(PanicReason::MemoryOverflow))
    );
    assert_eq!(memory.read(0, 4), Ok(vec![5, 6, 7, 0]));
    assert_eq!(
        memory.read((1 << 26) - 2, 3),
        Err(RuntimeError::Recoverable(PanicReason::MemoryOverflow))
    );
}

#[test]
fn contexts_are_external_or_internal() {
    assert!(Context::Script { block_height: 1 }.is_external());
    assert!(Context::Predicate { block_height: 1 }.is_external());
    assert!(Context::Call { block_height: 1 }.is_internal());
    assert_eq!(Context::Call { block_height: 9 }.block_height(), Some(9));
}
