use fuel_vm_core::storage::{InterpreterStorage, Metadata, SubStorage};

/// A backing store that knows one slot, one balance, one contract and the
/// hashes of the blocks.
struct Backing;

const C: [u8; 32] = [3u8; 32];
const K: [u8; 32] = [4u8; 32];
const ASSET: [u8; 32] = [5u8; 32];

impl InterpreterStorage for Backing {
    type DataError = String;

    fn storage_contract(&self, id: &[u8; 32]) -> Result<Option<Vec<u8>>, String> {
        Ok(if *id == C { Some(vec![0xAA]) } else { None })
    }

    fn storage_contract_exists(&self, id: &[u8; 32]) -> Result<bool, String> {
        Ok(*id == C)
    }

    fn storage_contract_root(&self, _id: &[u8; 32]) -> Result<Option<([u8; 32], [u8; 32])>, String> {
        Ok(None)
    }

    fn merkle_contract_state(&self, id: &[u8; 32], key: &[u8; 32]) -> Result<Option<[u8; 32]>, String> {
        Ok(if *id == C && *key == K { Some([9u8; 32]) } else { None })
    }

    fn merkle_contract_asset_id_balance(&self, id: &[u8; 32], asset: &[u8; 32]) -> Result<Option<u64>, String> {
        Ok(if *id == C && *asset == ASSET { Some(77) } else { None })
    }

    fn block_hash(&self, height: u32) -> Result<[u8; 32], String> {
        Ok([height as u8; 32])
    }

    // What the store answers, for the contracts of the library: the same
    // reads as above.
    fn spec_contract(&self, id: [u8; 32]) -> Result<Option<Vec<u8>>, String> {
        self.storage_contract(&id)
    }

    fn spec_contract_exists(&self, id: [u8; 32]) -> Result<bool, String> {
        self.storage_contract_exists(&id)
    }

    fn spec_contract_root(&self, id: [u8; 32]) -> Result<Option<([u8; 32], [u8; 32])>, String> {
        self.storage_contract_root(&id)
    }

    fn spec_contract_state(&self, id: [u8; 32], key: [u8; 32]) -> Result<Option<[u8; 32]>, String> {
        self.merkle_contract_state(&id, &key)
    }

    fn spec_contract_balance(&self, id: [u8; 32], asset: [u8; 32]) -> Result<Option<u64>, String> {
        self.merkle_contract_asset_id_balance(&id, &asset)
    }

    fn spec_block_hash(&self, height: u32) -> Result<[u8; 32], String> {
        self.block_hash(height)
    }
}

fn storage() -> SubStorage<Backing> {
    SubStorage::new(Backing, Metadata::new([1u8; 32], 10))
}

#[test]
fn rejected_write_falls_back_to_the_backing_store() {
    let mut s = storage();
    s.insert_state(&C, &K, &[1u8; 32]);
    assert_eq!(s.get_state(&C, &K), Ok(Some([1u8; 32])));
    s.reject_pending();
    assert_eq!(s.get_state(&C, &K), Ok(Some([9u8; 32])));
    let other = [6u8; 32];
    s.insert_state(&other, &K, &[1u8; 32]);
    s.reject_pending();
    assert_eq!(s.get_state(&other, &K), Ok(None));
}

#[test]
fn committed_write_survives_a_reject() {
    let mut s = storage();
    s.insert_state(&C, &K, &[1u8; 32]);
    s.commit_pending();
    s.insert_state(&C, &K, &[2u8; 32]);
    assert_eq!(s.get_state(&C, &K), Ok(Some([2u8; 32])));
    s.reject_pending();
    assert_eq!(s.get_state(&C, &K), Ok(Some([1u8; 32])));
}

#[test]
fn commit_keeps_what_reads_showed() {
    let mut s = storage();
    s.insert_balance(&C, &ASSET, 5);
    s.insert_contract(&C, &vec![1, 2, 3]);
    s.insert_contract_root(&C, &([7u8; 32], [8u8; 32]));
    s.commit_pending();
    s.insert_balance(&C, &[0u8; 32], 6);
    s.remove_state(&C, &K);
    assert_eq!(s.get_state(&C, &K), Ok(None));
    s.commit_pending();
    assert_eq!(s.get_balance(&C, &ASSET), Ok(Some(5)));
    assert_eq!(s.get_balance(&C, &[0u8; 32]), Ok(Some(6)));
    assert_eq!(s.get_contract(&C), Ok(Some(vec![1, 2, 3])));
    assert_eq!(s.get_contract_root(&C), Ok(Some(([7u8; 32], [8u8; 32]))));
    assert_eq!(s.get_state(&C, &K), Ok(None));
    s.reject_pending();
    assert_eq!(s.get_state(&C, &K), Ok(None));
}

#[test]
fn tombstoned_balance_reads_as_absent() {
    let mut s = storage();
    assert_eq!(s.get_balance(&C, &ASSET), Ok(Some(77)));
    s.remove_balance(&C, &ASSET);
    assert_eq!(s.get_balance(&C, &ASSET), Ok(None));
    s.reject_pending();
    assert_eq!(s.get_balance(&C, &ASSET), Ok(Some(77)));
}

#[test]
fn contracts_cascade_through_the_layers() {
    let mut s = storage();
    let other = [6u8; 32];
    assert_eq!(s.contains_contract(&C), Ok(true));
    assert_eq!(s.contains_contract(&other), Ok(false));
    assert_eq!(s.get_contract(&C), Ok(Some(vec![0xAA])));
    assert_eq!(s.insert_contract(&other, &vec![5]), Some(vec![5]));
    assert_eq!(s.contains_contract(&other), Ok(true));
    assert_eq!(s.get_contract(&other), Ok(Some(vec![5])));
    s.reject_pending();
    assert_eq!(s.contains_contract(&other), Ok(false));
}

#[test]
fn block_context_reads_the_metadata() {
    let s = storage();
    assert_eq!(s.block_height(), 10);
    assert_eq!(s.coinbase(), [1u8; 32]);
    assert_eq!(s.block_hash(10), Ok([10u8; 32]));
    assert_eq!(s.block_hash(11), Ok([0u8; 32]));
    assert_eq!(s.metadata().block_height(), 10);
    assert_eq!(*s.metadata().coinbase(), [1u8; 32]);
}
