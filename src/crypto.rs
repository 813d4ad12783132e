//! Instructions that hash memory or recover a public key from a signature.
use vstd::prelude::*;

use crate::consts::{Word, BYTES32_LEN, BYTES64_LEN, MEM_SIZE, VM_MAX_RAM};
use crate::error::{PanicReason, RuntimeError};
use crate::interpreter::inc_pc;
use crate::memory::{may_write, written, OwnershipRegisters, VmMemory};
use crate::merkle::{sha256, sha256_of};
use crate::types::{Bytes32, Bytes64};

verus! {

/// The Keccak-256 digest of `data`.
pub uninterp spec fn keccak256_of(data: Seq<u8>) -> Seq<u8>;

/// The public key recovered from the secp256k1 signature `sig` over the
/// message hash `msg`, `None` when recovery fails.
pub uninterp spec fn recovered_key(sig: Seq<u8>, msg: Seq<u8>) -> Option<Seq<u8>>;

/// Relies on `sha3::Keccak256`: the Keccak-256 digest of `data`, 32 bytes
/// long.
#[verifier::external_body]
fn keccak(data: &[u8]) -> (r: Bytes32)
    ensures
        r@ == keccak256_of(data@),
{
    <sha3::Keccak256 as sha3::Digest>::digest(data).into()
}

/// Relies on `fuel_crypto::Signature::recover`: the public key recovered
/// from `sig` over `msg`, or `None` when recovery fails.
#[verifier::external_body]
fn recover_public_key(sig: &Bytes64, msg: &Bytes32) -> (r: Option<Bytes64>)
    ensures
        r matches Some(k) ==> recovered_key(sig@, msg@) == Some(k@),
        r is None ==> recovered_key(sig@, msg@) is None,
{
    let signature = fuel_crypto::Signature::from_bytes(*sig);
    let message = fuel_crypto::Message::from_bytes(*msg);
    signature.recover(&message).ok().map(|key| *key)
}

/// The checks of a hashing instruction on its operands: the source
/// `[b, b + c)` ends inside the memory and the 32-byte destination `a` does.
pub open spec fn hash_operands_fit(a: Word, b: Word, c: Word) -> bool {
    &&& a <= VM_MAX_RAM - BYTES32_LEN
    &&& c <= VM_MAX_RAM
    &&& b + c <= VM_MAX_RAM
}

/// What a hashing instruction does to memory and the program counter after
/// its checks passed, given the `digest` of the source: the digest is written
/// at `a` when the frame owns those bytes, then the program counter moves on.
pub open spec fn hash_written(
    old_memory: Seq<u8>,
    new_memory: Seq<u8>,
    owner: OwnershipRegisters,
    old_pc: Word,
    new_pc: Word,
    a: Word,
    digest: Seq<u8>,
    r: Result<(), RuntimeError>,
) -> bool {
    if !may_write(owner, a as int, BYTES32_LEN as int) {
        &&& r == Err::<(), RuntimeError>(RuntimeError::Recoverable(PanicReason::MemoryOverflow))
        &&& new_memory == old_memory
        &&& new_pc == old_pc
    } else {
        &&& digest.len() == BYTES32_LEN
        &&& new_memory == written(old_memory, a as int, digest)
        &&& (r is Ok <==> old_pc + 4 <= u64::MAX)
        &&& (r is Ok ==> new_pc == old_pc + 4)
        &&& (r is Err ==> r == Err::<(), RuntimeError>(
            RuntimeError::Recoverable(PanicReason::ArithmeticOverflow),
        ) && new_pc == old_pc)
    }
}

/// What a hashing instruction with operands `a`, `b`, `c` does, given the
/// `digest` of its source: an overflowing `b + c` or operands that do not
/// fit fail and change nothing; otherwise as `hash_written` says.
pub open spec fn hash_instruction_done(
    old_memory: Seq<u8>,
    new_memory: Seq<u8>,
    owner: OwnershipRegisters,
    old_pc: Word,
    new_pc: Word,
    a: Word,
    b: Word,
    c: Word,
    digest: Seq<u8>,
    r: Result<(), RuntimeError>,
) -> bool {
    if b + c > u64::MAX {
        &&& r == Err::<(), RuntimeError>(RuntimeError::Recoverable(PanicReason::ArithmeticOverflow))
        &&& new_memory == old_memory
        &&& new_pc == old_pc
    } else if !hash_operands_fit(a, b, c) {
        &&& r == Err::<(), RuntimeError>(RuntimeError::Recoverable(PanicReason::MemoryOverflow))
        &&& new_memory == old_memory
        &&& new_pc == old_pc
    } else {
        hash_written(old_memory, new_memory, owner, old_pc, new_pc, a, digest, r)
    }
}

/// Checks the operands of a hashing instruction: `b + c` must not
/// overflow, and the ranges must fit as `hash_operands_fit` says.
fn check_hash_operands(a: Word, b: Word, c: Word) -> (r: Result<(), RuntimeError>)
    ensures
        b + c > u64::MAX ==> r == Err::<(), RuntimeError>(
            RuntimeError::Recoverable(PanicReason::ArithmeticOverflow),
        ),
        b + c <= u64::MAX && !hash_operands_fit(a, b, c) ==> r == Err::<(), RuntimeError>(
            RuntimeError::Recoverable(PanicReason::MemoryOverflow),
        ),
        b + c <= u64::MAX && hash_operands_fit(a, b, c) ==> r is Ok,
{
    let bc = match b.checked_add(c) {
        Some(v) => v,
        None => return Err(RuntimeError::Recoverable(PanicReason::ArithmeticOverflow)),
    };
    if a > VM_MAX_RAM - BYTES32_LEN as Word || c > VM_MAX_RAM || bc > VM_MAX_RAM {
        return Err(RuntimeError::Recoverable(PanicReason::MemoryOverflow));
    }
    Ok(())
}

/// Writes the Keccak-256 digest of the `c` bytes at `b` to the 32 bytes at
/// `a`, then moves the program counter on.
pub fn keccak256(
    memory: &mut VmMemory,
    owner: OwnershipRegisters,
    pc: &mut Word,
    a: Word,
    b: Word,
    c: Word,
) -> (r: Result<(), RuntimeError>)
    requires
        old(memory)@.len() == MEM_SIZE,
    ensures
        final(memory)@.len() == MEM_SIZE,
        hash_instruction_done(
            old(memory)@,
            final(memory)@,
            owner,
            *old(pc),
            *final(pc),
            a,
            b,
            c,
            keccak256_of(old(memory)@.subrange(b as int, b + c)),
            r,
        ),
{
    check_hash_operands(a, b, c)?;
    let source = memory.read_unchecked(b as usize, c as usize);
    let digest = keccak(source.as_slice());
    memory.try_write(owner, a, digest.as_slice())?;
    inc_pc(pc)
}

/// Writes the SHA-256 digest of the `c` bytes at `b` to the 32 bytes at `a`,
/// then moves the program counter on.
pub fn sha256_instruction(
    memory: &mut VmMemory,
    owner: OwnershipRegisters,
    pc: &mut Word,
    a: Word,
    b: Word,
    c: Word,
) -> (r: Result<(), RuntimeError>)
    requires
        old(memory)@.len() == MEM_SIZE,
    ensures
        final(memory)@.len() == MEM_SIZE,
        hash_instruction_done(
            old(memory)@,
            final(memory)@,
            owner,
            *old(pc),
            *final(pc),
            a,
            b,
            c,
            sha256_of(old(memory)@.subrange(b as int, b + c)),
            r,
        ),
{
    check_hash_operands(a, b, c)?;
    let source = memory.read_unchecked(b as usize, c as usize);
    let digest = sha256(source.as_slice());
    memory.try_write(owner, a, digest.as_slice())?;
    inc_pc(pc)
}

/// The checks of the recovery instruction on its operands: the 64-byte
/// destination `a`, the 64-byte signature at `b` and the 32-byte message at
/// `c` lie inside the memory.
pub open spec fn recover_operands_fit(a: Word, b: Word, c: Word) -> bool {
    &&& a <= VM_MAX_RAM - BYTES64_LEN
    &&& b + BYTES64_LEN <= VM_MAX_RAM
    &&& c + BYTES32_LEN <= VM_MAX_RAM
}

/// What the recovery instruction with operands `a`, `b`, `c` does to
/// memory, the program counter and the error register.
pub open spec fn recover_instruction_done(
    old_memory: Seq<u8>,
    new_memory: Seq<u8>,
    owner: OwnershipRegisters,
    old_pc: Word,
    new_pc: Word,
    old_err: Word,
    new_err: Word,
    a: Word,
    b: Word,
    c: Word,
    r: Result<(), RuntimeError>,
) -> bool {
    if b + BYTES64_LEN > u64::MAX || c + BYTES32_LEN > u64::MAX {
        &&& r == Err::<(), RuntimeError>(RuntimeError::Recoverable(PanicReason::ArithmeticOverflow))
        &&& new_memory == old_memory
        &&& new_pc == old_pc
        &&& new_err == old_err
    } else if !recover_operands_fit(a, b, c) {
        &&& r == Err::<(), RuntimeError>(RuntimeError::Recoverable(PanicReason::MemoryOverflow))
        &&& new_memory == old_memory
        &&& new_pc == old_pc
        &&& new_err == old_err
    } else {
        let key = recovered_key(
            old_memory.subrange(b as int, b + BYTES64_LEN),
            old_memory.subrange(c as int, c + BYTES32_LEN),
        );
        let out = match key {
            Some(k) => k,
            None => Seq::new(64, |i: int| 0u8),
        };
        if !may_write(owner, a as int, BYTES64_LEN as int) {
            &&& r == Err::<(), RuntimeError>(RuntimeError::Recoverable(PanicReason::MemoryOverflow))
            &&& new_memory == old_memory
            &&& new_pc == old_pc
            &&& new_err == old_err
        } else {
            &&& (key matches Some(k) ==> k.len() == BYTES64_LEN)
            &&& out.len() == BYTES64_LEN
            &&& new_memory == written(old_memory, a as int, out)
            &&& new_err == if key is Some {
                0u64
            } else {
                1u64
            }
            &&& (r is Ok <==> old_pc + 4 <= u64::MAX)
            &&& (r is Ok ==> new_pc == old_pc + 4)
            &&& (r is Err ==> r == Err::<(), RuntimeError>(
                RuntimeError::Recoverable(PanicReason::ArithmeticOverflow),
            ) && new_pc == old_pc)
        }
    }
}

/// Recovers the public key from the 64-byte signature at `b` over the
/// 32-byte message at `c` and writes it to the 64 bytes at `a`, clearing
/// the error register; when recovery fails, zeroes those bytes and sets the
/// error register. Then moves the program counter on.
pub fn ecrecover(
    memory: &mut VmMemory,
    owner: OwnershipRegisters,
    err: &mut Word,
    pc: &mut Word,
    a: Word,
    b: Word,
    c: Word,
) -> (r: Result<(), RuntimeError>)
    requires
        old(memory)@.len() == MEM_SIZE,
    ensures
        final(memory)@.len() == MEM_SIZE,
        recover_instruction_done(
            old(memory)@,
            final(memory)@,
            owner,
            *old(pc),
            *final(pc),
            *old(err),
            *final(err),
            a,
            b,
            c,
            r,
        ),
{
    let bx = match b.checked_add(BYTES64_LEN as Word) {
        Some(v) => v,
        None => return Err(RuntimeError::Recoverable(PanicReason::ArithmeticOverflow)),
    };
    let cx = match c.checked_add(BYTES32_LEN as Word) {
        Some(v) => v,
        None => return Err(RuntimeError::Recoverable(PanicReason::ArithmeticOverflow)),
    };
    if a > VM_MAX_RAM - BYTES64_LEN as Word || bx > VM_MAX_RAM || cx > VM_MAX_RAM {
        return Err(RuntimeError::Recoverable(PanicReason::MemoryOverflow));
    }
    let sig = memory.read_array::<64>(b as usize);
    let msg = memory.read_array::<32>(c as usize);
    match recover_public_key(&sig, &msg) {
        Some(key) => {
            memory.try_write(owner, a, key.as_slice())?;
            *err = 0;
        },
        None => {
            let zeros = [0u8; 64];
            assert(zeros@ =~= Seq::new(64, |i: int| 0u8));
            memory.try_write(owner, a, zeros.as_slice())?;
            *err = 1;
        },
    }
    inc_pc(pc)
}

} // verus!
