//! Fixed-size byte values shared by the modules.
use vstd::prelude::*;

verus! {

/// 32 bytes: hashes, storage keys and values.
pub type Bytes32 = [u8; 32];

/// 64 bytes: signatures and public keys.
pub type Bytes64 = [u8; 64];

/// Identifier of a contract.
pub type ContractId = [u8; 32];

/// Identifier of an asset.
pub type AssetId = [u8; 32];

/// Address of an owner of coins.
pub type Address = [u8; 32];

/// Salt of a contract.
pub type Salt = [u8; 32];

/// The base asset, whose id is all zero.
pub open spec fn base_asset() -> Seq<u8> {
    zero_bytes()
}

/// 32 zero bytes.
pub open spec fn zero_bytes() -> Seq<u8> {
    Seq::new(32, |i: int| 0u8)
}

/// Whether every byte of `b` is zero.
pub fn is_zeroed(b: &Bytes32) -> (r: bool)
    ensures
        r == (b@ == zero_bytes()),
{
    is_base_asset(b)
}

/// Whether two 32-byte values are equal.
pub fn bytes32_eq(a: &Bytes32, b: &Bytes32) -> (r: bool)
    ensures
        r == (a@ == b@),
{
    let mut i: usize = 0;
    while i < 32
        invariant
            i <= 32,
            a@.len() == 32,
            b@.len() == 32,
            forall|j: int| 0 <= j < i ==> a@[j] == b@[j],
        decreases 32 - i,
    {
        if a[i] != b[i] {
            return false;
        }
        i = i + 1;
    }
    assert(a@ =~= b@);
    true
}

/// Whether `id` is the base asset.
pub fn is_base_asset(id: &AssetId) -> (r: bool)
    ensures
        r == (id@ == base_asset()),
{
    let mut i: usize = 0;
    while i < 32
        invariant
            i <= 32,
            id@.len() == 32,
            forall|j: int| 0 <= j < i ==> id@[j] == 0u8,
        decreases 32 - i,
    {
        if id[i] != 0 {
            return false;
        }
        i = i + 1;
    }
    assert(id@ =~= base_asset());
    true
}

} // verus!
