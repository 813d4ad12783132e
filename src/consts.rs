//! Constants of the virtual machine.
use vstd::prelude::*;

verus! {

/// A machine word.
pub type Word = u64;

/// Size of the VM memory in bytes.
pub const VM_MAX_RAM: u64 = 67108864;

/// Size of the VM memory in bytes, as an index.
pub const MEM_SIZE: usize = 67108864;

/// Number of registers.
pub const VM_REGISTER_COUNT: usize = 64;

/// Size of one encoded instruction in bytes.
pub const INSTRUCTION_SIZE: u64 = 4;

/// Program counter register.
pub const REG_PC: usize = 3;

/// Stack-start pointer register.
pub const REG_SSP: usize = 4;

/// Stack pointer register.
pub const REG_SP: usize = 5;

/// Frame pointer register.
pub const REG_FP: usize = 6;

/// Heap pointer register.
pub const REG_HP: usize = 7;

/// Error register.
pub const REG_ERR: usize = 8;

/// Flag register.
pub const REG_FLAG: usize = 15;

/// Flag bit: division by zero yields zero instead of faulting.
pub const FLAG_UNSAFE_MATH: u64 = 1;

/// Flag bit: arithmetic overflow wraps instead of faulting.
pub const FLAG_WRAPPING: u64 = 2;

/// Length of a 32-byte value (ids, hashes, storage slots).
pub const BYTES32_LEN: usize = 32;

/// Length of a 64-byte value (signatures, public keys).
pub const BYTES64_LEN: usize = 64;

} // verus!
