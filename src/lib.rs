//! Core of a register-based virtual machine: checked memory ranges, memory
//! ownership, layered contract storage, output reconciliation, the hashing
//! instructions and a binary Merkle proof verifier.

pub mod constraints;
pub mod consts;
pub mod crypto;
pub mod error;
pub mod inclusion;
pub mod interpreter;
pub mod memory;
pub mod merkle;
pub mod storage;
pub mod transaction;
pub mod types;
