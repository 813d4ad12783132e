//! Layered contract storage: the writes of the running transaction
//! (pending) over the writes of earlier transactions of the bundle
//! (committed) over a backing store.
use vstd::prelude::*;

use crate::consts::Word;
use crate::types::{Address, Bytes32, ContractId, Salt};

verus! {

/// A map from 32-byte keys, held in a hash map of the `hashbrown` crate.
#[verifier::external_body]
#[verifier::reject_recursive_types(V)]
pub struct KeyMap<V> {
    inner: hashbrown::HashMap<[u8; 32], V>,
}

/// The entries of a map from contract ids to contract data.
pub uninterp spec fn contract_entries(m: KeyMap<ContractData>) -> Map<ContractId, ContractData>;

/// The entries of a map from asset ids to balances; `None` is a tombstone.
pub uninterp spec fn balance_entries(m: KeyMap<Option<Word>>) -> Map<Bytes32, Option<Word>>;

/// The entries of a map from storage keys to values; `None` is a tombstone.
pub uninterp spec fn slot_entries(m: KeyMap<Option<Bytes32>>) -> Map<Bytes32, Option<Bytes32>>;

/// The keys of a sequence of entries.
pub open spec fn keys_of<V>(entries: Seq<(ContractId, V)>) -> Seq<ContractId> {
    entries.map_values(|e: (ContractId, V)| e.0)
}

impl KeyMap<ContractData> {
    /// Relies on `hashbrown::HashMap::new`: the map is empty.
    #[verifier::external_body]
    fn new_contracts() -> (r: Self)
        ensures
            contract_entries(r).is_empty(),
    {
        KeyMap { inner: hashbrown::HashMap::new() }
    }

    /// Relies on `hashbrown::HashMap::get`: the value stored under `k`, if
    /// any.
    #[verifier::external_body]
    fn get_contract(&self, k: &ContractId) -> (r: Option<&ContractData>)
        ensures
            r is None <==> !contract_entries(*self).contains_key(*k),
            r matches Some(v) ==> *v == contract_entries(*self)[*k],
    {
        self.inner.get(k)
    }

    /// Relies on `hashbrown::HashMap::remove`: takes out the value stored
    /// under `k`, if any.
    #[verifier::external_body]
    fn remove_contract(&mut self, k: &ContractId) -> (r: Option<ContractData>)
        ensures
            contract_entries(*final(self)) == contract_entries(*old(self)).remove(*k),
            r == contract_entries(*old(self)).get(*k),
    {
        self.inner.remove(k)
    }

    /// Relies on `hashbrown::HashMap::insert`: `v` is stored under `k`,
    /// replacing what was there.
    #[verifier::external_body]
    fn insert_contract(&mut self, k: ContractId, v: ContractData)
        ensures
            contract_entries(*final(self)) == contract_entries(*old(self)).insert(k, v),
    {
        self.inner.insert(k, v);
    }

    /// Relies on `hashbrown::HashMap::clear`: the map becomes empty.
    #[verifier::external_body]
    fn clear_contracts(&mut self)
        ensures
            contract_entries(*final(self)).is_empty(),
    {
        self.inner.clear();
    }

    /// Relies on `hashbrown::HashMap::drain`: takes out every entry, each
    /// once, in an order that the map chooses.
    #[verifier::external_body]
    fn drain_contracts(&mut self) -> (r: Vec<(ContractId, ContractData)>)
        ensures
            contract_entries(*final(self)).is_empty(),
            keys_of(r@).no_duplicates(),
            forall|i: int|
                0 <= i < r@.len() ==> contract_entries(*old(self)).contains_key((#[trigger] r@[i]).0)
                    && contract_entries(*old(self))[r@[i].0] == r@[i].1,
            forall|k: ContractId|
                #[trigger] contract_entries(*old(self)).contains_key(k) ==> exists|i: int|
                    0 <= i < r@.len() && (#[trigger] r@[i]).0 == k,
    {
        self.inner.drain().collect()
    }
}

impl KeyMap<Option<Word>> {
    /// Relies on `hashbrown::HashMap::new`: the map is empty.
    #[verifier::external_body]
    fn new_balances() -> (r: Self)
        ensures
            balance_entries(r).is_empty(),
    {
        KeyMap { inner: hashbrown::HashMap::new() }
    }

    /// Relies on `hashbrown::HashMap::get`: the value stored under `k`, if
    /// any.
    #[verifier::external_body]
    fn get_balance(&self, k: &Bytes32) -> (r: Option<Option<Word>>)
        ensures
            r == balance_entries(*self).get(*k),
    {
        self.inner.get(k).copied()
    }

    /// Relies on `hashbrown::HashMap::insert`: `v` is stored under `k`,
    /// replacing what was there.
    #[verifier::external_body]
    fn insert_balance(&mut self, k: Bytes32, v: Option<Word>)
        ensures
            balance_entries(*final(self)) == balance_entries(*old(self)).insert(k, v),
    {
        self.inner.insert(k, v);
    }

    /// Relies on `hashbrown::HashMap::extend`: each entry of `other` is
    /// inserted, replacing what was stored under its key.
    #[verifier::external_body]
    fn extend_balances(&mut self, other: Self)
        ensures
            balance_entries(*final(self)) == balance_entries(*old(self)).union_prefer_right(
                balance_entries(other),
            ),
    {
        self.inner.extend(other.inner);
    }
}

impl KeyMap<Option<Bytes32>> {
    /// Relies on `hashbrown::HashMap::new`: the map is empty.
    #[verifier::external_body]
    fn new_slots() -> (r: Self)
        ensures
            slot_entries(r).is_empty(),
    {
        KeyMap { inner: hashbrown::HashMap::new() }
    }

    /// Relies on `hashbrown::HashMap::get`: the value stored under `k`, if
    /// any.
    #[verifier::external_body]
    fn get_slot(&self, k: &Bytes32) -> (r: Option<Option<Bytes32>>)
        ensures
            r == slot_entries(*self).get(*k),
    {
        self.inner.get(k).copied()
    }

    /// Relies on `hashbrown::HashMap::insert`: `v` is stored under `k`,
    /// replacing what was there.
    #[verifier::external_body]
    fn insert_slot(&mut self, k: Bytes32, v: Option<Bytes32>)
        ensures
            slot_entries(*final(self)) == slot_entries(*old(self)).insert(k, v),
    {
        self.inner.insert(k, v);
    }

    /// Relies on `hashbrown::HashMap::extend`: each entry of `other` is
    /// inserted, replacing what was stored under its key.
    #[verifier::external_body]
    fn extend_slots(&mut self, other: Self)
        ensures
            slot_entries(*final(self)) == slot_entries(*old(self)).union_prefer_right(
                slot_entries(other),
            ),
    {
        self.inner.extend(other.inner);
    }
}

/// Metadata of the block that the transactions execute in.
#[derive(Clone, Copy)]
pub struct Metadata {
    coinbase: Address,
    block_height: u32,
}

impl Metadata {
    /// Metadata with the given coinbase and block height.
    pub fn new(coinbase: Address, block_height: u32) -> (r: Self)
        ensures
            r.spec_coinbase() == coinbase,
            r.spec_block_height() == block_height,
    {
        Metadata { coinbase, block_height }
    }

    /// The coinbase address.
    pub closed spec fn spec_coinbase(&self) -> Address {
        self.coinbase
    }

    /// The block height.
    pub closed spec fn spec_block_height(&self) -> u32 {
        self.block_height
    }

    /// The coinbase address.
    pub fn coinbase(&self) -> (r: &Address)
        ensures
            *r == self.spec_coinbase(),
    {
        &self.coinbase
    }

    /// The block height.
    pub fn block_height(&self) -> (r: u32)
        ensures
            r == self.spec_block_height(),
    {
        self.block_height
    }
}

/// What one layer holds of a contract.
pub struct ContractDataView {
    /// The bytecode, if the layer set it.
    pub bytecode: Option<Seq<u8>>,
    /// Balances by asset id; `None` is a tombstone.
    pub balance: Map<Bytes32, Option<Word>>,
    /// Storage slots by key; `None` is a tombstone.
    pub storage: Map<Bytes32, Option<Bytes32>>,
    /// Salt and state root, if the layer set them.
    pub root: Option<(Salt, Bytes32)>,
}

/// What a layer holds of a contract that it has no entry for.
pub open spec fn empty_contract_view() -> ContractDataView {
    ContractDataView {
        bytecode: None,
        balance: Map::empty(),
        storage: Map::empty(),
        root: None,
    }
}

/// What one layer holds of a contract.
pub struct ContractData {
    bytecode: Option<Vec<u8>>,
    balance: KeyMap<Option<Word>>,
    storage: KeyMap<Option<Bytes32>>,
    root: Option<(Salt, Bytes32)>,
}

impl View for ContractData {
    type V = ContractDataView;

    closed spec fn view(&self) -> ContractDataView {
        ContractDataView {
            bytecode: match self.bytecode {
                Some(code) => Some(code@),
                None => None,
            },
            balance: balance_entries(self.balance),
            storage: slot_entries(self.storage),
            root: self.root,
        }
    }
}

impl Default for ContractData {
    fn default() -> (r: Self)
        ensures
            r@ == empty_contract_view(),
    {
        let balance = KeyMap::new_balances();
        let storage = KeyMap::new_slots();
        assert(balance_entries(balance) =~= Map::empty());
        assert(slot_entries(storage) =~= Map::empty());
        ContractData { bytecode: None, balance, storage, root: None }
    }
}

impl ContractData {
    /// Merges `upper` over this entry as `merge_contract` says.
    fn merge_from(&mut self, upper: ContractData)
        ensures
            final(self)@ == merge_contract(old(self)@, upper@),
    {
        let ContractData { bytecode, balance, storage, root } = upper;
        self.balance.extend_balances(balance);
        self.storage.extend_slots(storage);
        if bytecode.is_some() {
            self.bytecode = bytecode;
        }
        if root.is_some() {
            self.root = root;
        }
    }
}

/// The keys of the entries of `all` from position `m` on.
pub open spec fn keys_from(all: Seq<(ContractId, ContractData)>, m: int) -> Set<ContractId> {
    Set::new(|k: ContractId| exists|a: int| m <= a < all.len() && all[a].0 == k)
}

/// A contract's entry of `upper` merged over its entry of `lower`: balances
/// and slots of `upper` replace those of `lower`, tombstones included;
/// bytecode and root of `upper` replace those of `lower` where `upper` has
/// them.
pub open spec fn merge_contract(lower: ContractDataView, upper: ContractDataView) -> ContractDataView {
    ContractDataView {
        bytecode: if upper.bytecode is Some {
            upper.bytecode
        } else {
            lower.bytecode
        },
        balance: lower.balance.union_prefer_right(upper.balance),
        storage: lower.storage.union_prefer_right(upper.storage),
        root: if upper.root is Some {
            upper.root
        } else {
            lower.root
        },
    }
}

/// The layer `upper` merged over the layer `lower`, contract by contract.
pub open spec fn merge_layers(
    lower: Map<ContractId, ContractDataView>,
    upper: Map<ContractId, ContractDataView>,
) -> Map<ContractId, ContractDataView> {
    Map::new(
        |id: ContractId| lower.contains_key(id) || upper.contains_key(id),
        |id: ContractId|
            if upper.contains_key(id) && lower.contains_key(id) {
                merge_contract(lower[id], upper[id])
            } else if upper.contains_key(id) {
                upper[id]
            } else {
                lower[id]
            },
    )
}

/// The views of the contracts of a layer.
pub open spec fn layer_view(m: Map<ContractId, ContractData>) -> Map<ContractId, ContractDataView> {
    m.map_values(|d: ContractData| d@)
}

/// What a layer holds of a contract, empty where it has no entry.
pub open spec fn contract_in(layer: Map<ContractId, ContractDataView>, id: ContractId) -> ContractDataView {
    if layer.contains_key(id) {
        layer[id]
    } else {
        empty_contract_view()
    }
}

/// What the upper layers say of slot `key` of contract `id`: `Some` of the
/// stored value (`None` for a tombstone) from the pending layer, else from
/// the committed one; `None` when neither has an entry and the backing store
/// decides.
pub open spec fn layered_slot(
    pending: Map<ContractId, ContractDataView>,
    committed: Map<ContractId, ContractDataView>,
    id: ContractId,
    key: Bytes32,
) -> Option<Option<Bytes32>> {
    if contract_in(pending, id).storage.contains_key(key) {
        Some(contract_in(pending, id).storage[key])
    } else if contract_in(committed, id).storage.contains_key(key) {
        Some(contract_in(committed, id).storage[key])
    } else {
        None
    }
}

/// What the upper layers say of the balance of `asset` held by contract
/// `id`, as `layered_slot` does for slots.
pub open spec fn layered_balance(
    pending: Map<ContractId, ContractDataView>,
    committed: Map<ContractId, ContractDataView>,
    id: ContractId,
    asset: Bytes32,
) -> Option<Option<Word>> {
    if contract_in(pending, id).balance.contains_key(asset) {
        Some(contract_in(pending, id).balance[asset])
    } else if contract_in(committed, id).balance.contains_key(asset) {
        Some(contract_in(committed, id).balance[asset])
    } else {
        None
    }
}

/// The bytecode of contract `id` that the upper layers hold, pending first;
/// `None` when the backing store decides.
pub open spec fn layered_bytecode(
    pending: Map<ContractId, ContractDataView>,
    committed: Map<ContractId, ContractDataView>,
    id: ContractId,
) -> Option<Seq<u8>> {
    if contract_in(pending, id).bytecode is Some {
        contract_in(pending, id).bytecode
    } else {
        contract_in(committed, id).bytecode
    }
}

/// The salt and root of contract `id` that the upper layers hold, pending
/// first; `None` when the backing store decides.
pub open spec fn layered_root(
    pending: Map<ContractId, ContractDataView>,
    committed: Map<ContractId, ContractDataView>,
    id: ContractId,
) -> Option<(Salt, Bytes32)> {
    if contract_in(pending, id).root is Some {
        contract_in(pending, id).root
    } else {
        contract_in(committed, id).root
    }
}

/// The backing store under the layers, implemented by its users.
pub trait InterpreterStorage {
    /// Error of the backing store.
    type DataError;

    /// What the store answers for the bytecode of contract `id`.
    spec fn spec_contract(&self, id: ContractId) -> Result<Option<Vec<u8>>, Self::DataError>;

    /// What the store answers for whether contract `id` exists.
    spec fn spec_contract_exists(&self, id: ContractId) -> Result<bool, Self::DataError>;

    /// What the store answers for the salt and state root of contract `id`.
    spec fn spec_contract_root(&self, id: ContractId) -> Result<
        Option<(Salt, Bytes32)>,
        Self::DataError,
    >;

    /// What the store answers for slot `key` of contract `id`.
    spec fn spec_contract_state(&self, id: ContractId, key: Bytes32) -> Result<
        Option<Bytes32>,
        Self::DataError,
    >;

    /// What the store answers for the balance of `asset` held by contract
    /// `id`.
    spec fn spec_contract_balance(&self, id: ContractId, asset: Bytes32) -> Result<
        Option<Word>,
        Self::DataError,
    >;

    /// What the store answers for the hash of the block at `height`.
    spec fn spec_block_hash(&self, height: u32) -> Result<Bytes32, Self::DataError>;

    /// The bytecode of contract `id`; a read, whose answer depends on the
    /// store and the id alone.
    fn storage_contract(&self, id: &ContractId) -> (r: Result<Option<Vec<u8>>, Self::DataError>)
        ensures
            r == self.spec_contract(*id),
    ;

    /// Whether contract `id` exists.
    fn storage_contract_exists(&self, id: &ContractId) -> (r: Result<bool, Self::DataError>)
        ensures
            r == self.spec_contract_exists(*id),
    ;

    /// The salt and state root of contract `id`.
    fn storage_contract_root(&self, id: &ContractId) -> (r: Result<
        Option<(Salt, Bytes32)>,
        Self::DataError,
    >)
        ensures
            r == self.spec_contract_root(*id),
    ;

    /// The value of slot `key` of contract `id`.
    fn merkle_contract_state(&self, id: &ContractId, key: &Bytes32) -> (r: Result<
        Option<Bytes32>,
        Self::DataError,
    >)
        ensures
            r == self.spec_contract_state(*id, *key),
    ;

    /// The balance of `asset` held by contract `id`.
    fn merkle_contract_asset_id_balance(&self, id: &ContractId, asset: &Bytes32) -> (r: Result<
        Option<Word>,
        Self::DataError,
    >)
        ensures
            r == self.spec_contract_balance(*id, *asset),
    ;

    /// The hash of the block at `height`.
    fn block_hash(&self, height: u32) -> (r: Result<Bytes32, Self::DataError>)
        ensures
            r == self.spec_block_hash(height),
    ;
}

/// The storage seen by the transactions of a bundle: pending writes of the
/// running transaction, committed writes of the earlier ones, and the
/// backing store.
pub struct SubStorage<S> {
    state: S,
    commited_storage: KeyMap<ContractData>,
    pending_storage: KeyMap<ContractData>,
    metadata: Metadata,
}

impl<S> SubStorage<S> {
    /// The pending layer.
    pub closed spec fn pending(&self) -> Map<ContractId, ContractDataView> {
        layer_view(contract_entries(self.pending_storage))
    }

    /// The committed layer.
    pub closed spec fn committed(&self) -> Map<ContractId, ContractDataView> {
        layer_view(contract_entries(self.commited_storage))
    }

    /// The backing store.
    pub closed spec fn state(&self) -> S {
        self.state
    }

    /// The block metadata.
    pub closed spec fn spec_metadata(&self) -> Metadata {
        self.metadata
    }

    /// Layers over `state` with nothing written yet.
    pub fn new(state: S, metadata: Metadata) -> (r: Self)
        ensures
            r.pending() == Map::<ContractId, ContractDataView>::empty(),
            r.committed() == Map::<ContractId, ContractDataView>::empty(),
            r.state() == state,
            r.spec_metadata() == metadata,
    {
        let r = SubStorage {
            state,
            commited_storage: KeyMap::new_contracts(),
            pending_storage: KeyMap::new_contracts(),
            metadata,
        };
        assert(r.pending() =~= Map::<ContractId, ContractDataView>::empty());
        assert(r.committed() =~= Map::<ContractId, ContractDataView>::empty());
        r
    }

    /// Merges the pending layer into the committed one and empties it.
    pub fn commit_pending(&mut self)
        ensures
            final(self).pending() == Map::<ContractId, ContractDataView>::empty(),
            final(self).committed() == merge_layers(old(self).committed(), old(self).pending()),
            final(self).state() == old(self).state(),
            final(self).spec_metadata() == old(self).spec_metadata(),
    {
        let ghost lower = self.committed();
        let ghost upper = self.pending();
        let mut entries = self.pending_storage.drain_contracts();
        let ghost all = entries@;
        assert(self.pending() =~= Map::<ContractId, ContractDataView>::empty());
        proof {
            assert(keys_from(all, all.len() as int) =~= Set::empty());
            assert(upper.restrict(Set::empty()) =~= Map::empty());
            assert(merge_layers(lower, Map::empty()) =~= lower);
        }
        while entries.len() > 0
            invariant
                entries@.len() <= all.len(),
                entries@ == all.subrange(0, entries@.len() as int),
                keys_of(all).no_duplicates(),
                forall|a: int|
                    0 <= a < all.len() ==> upper.contains_key((#[trigger] all[a]).0) && upper[all[a].0]
                        == all[a].1@,
                forall|k: ContractId|
                    #[trigger] upper.contains_key(k) ==> exists|a: int|
                        0 <= a < all.len() && (#[trigger] all[a]).0 == k,
                self.pending() == Map::<ContractId, ContractDataView>::empty(),
                self.state == old(self).state,
                self.metadata == old(self).metadata,
                self.committed() == merge_layers(
                    lower,
                    upper.restrict(keys_from(all, entries@.len() as int)),
                ),
            decreases entries@.len(),
        {
            let ghost m = entries@.len() - 1;
            let (id, data) = match entries.pop() {
                Some(e) => e,
                None => {
                    return ;
                },
            };
            assert(all[m] == (id, data));
            let ghost done = keys_from(all, m + 1);
            proof {
                assert(!done.contains(id)) by {
                    if done.contains(id) {
                        let a = choose|a: int| m + 1 <= a < all.len() && all[a].0 == id;
                        assert(keys_of(all)[a] == keys_of(all)[m]);
                    }
                }
                assert forall|k: ContractId| #[trigger] keys_from(all, m).contains(k) implies done.insert(id).contains(k) by {
                    let a = choose|a: int| m <= a < all.len() && all[a].0 == k;
                    if a != m {
                        assert(done.contains(k));
                    }
                }
                assert forall|k: ContractId| #[trigger] done.insert(id).contains(k) implies keys_from(all, m).contains(k) by {
                    if k == id {
                        assert(all[m].0 == k);
                    } else {
                        let a = choose|a: int| m + 1 <= a < all.len() && all[a].0 == k;
                        assert(m <= a < all.len() && all[a].0 == k);
                    }
                }
                assert(keys_from(all, m) =~= done.insert(id));
            }
            let ghost before = self.committed();
            let ghost merged = merge_layers(lower, upper.restrict(keys_from(all, m)));
            let ghost raw = contract_entries(self.commited_storage);
            match self.commited_storage.remove_contract(&id) {
                None => {
                    assert(!raw.contains_key(id));
                    assert(!before.contains_key(id));
                    assert(!lower.contains_key(id));
                    self.commited_storage.insert_contract(id, data);
                    assert(contract_entries(self.commited_storage) == raw.remove(id).insert(id, data));
                    assert(self.committed() =~= before.insert(id, data@));
                    assert(merged =~= before.insert(id, data@));
                },
                Some(current) => {
                    let mut current = current;
                    assert(raw.contains_key(id) && raw[id] == current);
                    assert(before.contains_key(id));
                    assert(before[id] == current@);
                    assert(!upper.restrict(done).contains_key(id));
                    assert(lower.contains_key(id));
                    assert(current@ == lower[id]);
                    current.merge_from(data);
                    self.commited_storage.insert_contract(id, current);
                    assert(contract_entries(self.commited_storage) == raw.remove(id).insert(id, current));
                    assert(self.committed() =~= before.insert(id, current@));
                    assert(merged =~= before.insert(id, current@));
                },
            }
        }
        proof {
            assert(keys_from(all, 0).subset_of(upper.dom())) by {
                assert forall|k: ContractId| keys_from(all, 0).contains(k) implies upper.dom().contains(k) by {
                    let a = choose|a: int| 0 <= a < all.len() && all[a].0 == k;
                }
            }
            assert(upper.dom().subset_of(keys_from(all, 0))) by {
                assert forall|k: ContractId| upper.dom().contains(k) implies keys_from(all, 0).contains(k) by {
                    assert(upper.contains_key(k));
                }
            }
            assert(upper.restrict(keys_from(all, 0)) =~= upper);
        }
    }

    /// Drops the pending layer.
    pub fn reject_pending(&mut self)
        ensures
            final(self).pending() == Map::<ContractId, ContractDataView>::empty(),
            final(self).committed() == old(self).committed(),
            final(self).state() == old(self).state(),
            final(self).spec_metadata() == old(self).spec_metadata(),
    {
        self.pending_storage.clear_contracts();
        assert(self.pending() =~= Map::<ContractId, ContractDataView>::empty());
    }

    /// The committed layer.
    pub fn commited_storage(&self) -> (r: &KeyMap<ContractData>)
        ensures
            layer_view(contract_entries(*r)) == self.committed(),
    {
        &self.commited_storage
    }

    /// The block metadata.
    pub fn metadata(&self) -> (r: &Metadata)
        ensures
            *r == self.spec_metadata(),
    {
        &self.metadata
    }

    /// Takes the pending entry of contract `id` out of the pending layer,
    /// an empty entry when it has none.
    fn take_pending(&mut self, id: &ContractId) -> (r: ContractData)
        ensures
            r@ == contract_in(old(self).pending(), *id),
            final(self).pending() == old(self).pending().remove(*id),
            final(self).committed() == old(self).committed(),
            final(self).state() == old(self).state(),
            final(self).spec_metadata() == old(self).spec_metadata(),
    {
        let ghost raw = contract_entries(self.pending_storage);
        let r = match self.pending_storage.remove_contract(id) {
            Some(d) => d,
            None => ContractData::default(),
        };
        assert(self.pending() =~= old(self).pending().remove(*id));
        r
    }

    /// Puts `data` back as the pending entry of contract `id`.
    fn put_pending(&mut self, id: &ContractId, data: ContractData)
        ensures
            final(self).pending() == old(self).pending().insert(*id, data@),
            final(self).committed() == old(self).committed(),
            final(self).state() == old(self).state(),
            final(self).spec_metadata() == old(self).spec_metadata(),
    {
        let ghost d = data@;
        self.pending_storage.insert_contract(*id, data);
        assert(self.pending() =~= old(self).pending().insert(*id, d));
    }

    /// Writes `value` to slot `key` of contract `id` in the pending layer.
    pub fn insert_state(&mut self, id: &ContractId, key: &Bytes32, value: &Bytes32) -> (r: Option<Bytes32>)
        ensures
            r == Some(*value),
            final(self).pending() == old(self).pending().insert(
                *id,
                ContractDataView {
                    storage: contract_in(old(self).pending(), *id).storage.insert(*key, Some(*value)),
                    ..contract_in(old(self).pending(), *id)
                },
            ),
            final(self).committed() == old(self).committed(),
            final(self).state() == old(self).state(),
            final(self).spec_metadata() == old(self).spec_metadata(),
    {
        let mut data = self.take_pending(id);
        data.storage.insert_slot(*key, Some(*value));
        self.put_pending(id, data);
        Some(*value)
    }

    /// Leaves a tombstone in slot `key` of contract `id` in the pending
    /// layer: the slot reads as absent whatever the lower layers hold.
    pub fn remove_state(&mut self, id: &ContractId, key: &Bytes32)
        ensures
            final(self).pending() == old(self).pending().insert(
                *id,
                ContractDataView {
                    storage: contract_in(old(self).pending(), *id).storage.insert(*key, None),
                    ..contract_in(old(self).pending(), *id)
                },
            ),
            final(self).committed() == old(self).committed(),
            final(self).state() == old(self).state(),
            final(self).spec_metadata() == old(self).spec_metadata(),
    {
        let mut data = self.take_pending(id);
        data.storage.insert_slot(*key, None);
        self.put_pending(id, data);
    }

    /// Writes the balance `value` of `asset` held by contract `id` in the
    /// pending layer.
    pub fn insert_balance(&mut self, id: &ContractId, asset: &Bytes32, value: Word) -> (r: Option<Word>)
        ensures
            r == Some(value),
            final(self).pending() == old(self).pending().insert(
                *id,
                ContractDataView {
                    balance: contract_in(old(self).pending(), *id).balance.insert(*asset, Some(value)),
                    ..contract_in(old(self).pending(), *id)
                },
            ),
            final(self).committed() == old(self).committed(),
            final(self).state() == old(self).state(),
            final(self).spec_metadata() == old(self).spec_metadata(),
    {
        let mut data = self.take_pending(id);
        data.balance.insert_balance(*asset, Some(value));
        self.put_pending(id, data);
        Some(value)
    }

    /// Leaves a tombstone for the balance of `asset` held by contract `id`
    /// in the pending layer.
    pub fn remove_balance(&mut self, id: &ContractId, asset: &Bytes32)
        ensures
            final(self).pending() == old(self).pending().insert(
                *id,
                ContractDataView {
                    balance: contract_in(old(self).pending(), *id).balance.insert(*asset, None),
                    ..contract_in(old(self).pending(), *id)
                },
            ),
            final(self).committed() == old(self).committed(),
            final(self).state() == old(self).state(),
            final(self).spec_metadata() == old(self).spec_metadata(),
    {
        let mut data = self.take_pending(id);
        data.balance.insert_balance(*asset, None);
        self.put_pending(id, data);
    }

    /// Sets the bytecode of contract `id` in the pending layer.
    pub fn insert_contract(&mut self, id: &ContractId, bytecode: &Vec<u8>) -> (r: Option<Vec<u8>>)
        ensures
            r matches Some(code) && code@ == bytecode@,
            final(self).pending() == old(self).pending().insert(
                *id,
                ContractDataView {
                    bytecode: Some(bytecode@),
                    ..contract_in(old(self).pending(), *id)
                },
            ),
            final(self).committed() == old(self).committed(),
            final(self).state() == old(self).state(),
            final(self).spec_metadata() == old(self).spec_metadata(),
    {
        let mut data = self.take_pending(id);
        let code = bytecode.clone();
        assert(code@ =~= bytecode@);
        data.bytecode = Some(code);
        self.put_pending(id, data);
        let r = bytecode.clone();
        assert(r@ =~= bytecode@);
        Some(r)
    }

    /// Sets the salt and state root of contract `id` in the pending layer.
    pub fn insert_contract_root(&mut self, id: &ContractId, value: &(Salt, Bytes32)) -> (r: Option<
        (Salt, Bytes32),
    >)
        ensures
            r == Some(*value),
            final(self).pending() == old(self).pending().insert(
                *id,
                ContractDataView { root: Some(*value), ..contract_in(old(self).pending(), *id) },
            ),
            final(self).committed() == old(self).committed(),
            final(self).state() == old(self).state(),
            final(self).spec_metadata() == old(self).spec_metadata(),
    {
        let mut data = self.take_pending(id);
        data.root = Some(*value);
        self.put_pending(id, data);
        Some(*value)
    }

    /// The block height of the metadata.
    pub fn block_height(&self) -> (r: u32)
        ensures
            r == self.spec_metadata().spec_block_height(),
    {
        self.metadata.block_height()
    }

    /// The coinbase address of the metadata.
    pub fn coinbase(&self) -> (r: Address)
        ensures
            r == self.spec_metadata().spec_coinbase(),
    {
        *self.metadata.coinbase()
    }
}

impl<S: InterpreterStorage> SubStorage<S> {
    /// The value of slot `key` of contract `id`: from the pending layer,
    /// else the committed one, else the backing store.
    pub fn get_state(&self, id: &ContractId, key: &Bytes32) -> (r: Result<Option<Bytes32>, S::DataError>)
        ensures
            layered_slot(self.pending(), self.committed(), *id, *key) matches Some(v) ==> (r matches Ok(x) && x == v),
            layered_slot(self.pending(), self.committed(), *id, *key) is None ==> r
                == self.state().spec_contract_state(*id, *key),
    {
        if let Some(contract) = self.pending_storage.get_contract(id) {
            if let Some(value) = contract.storage.get_slot(key) {
                return Ok(value);
            }
        }
        if let Some(contract) = self.commited_storage.get_contract(id) {
            if let Some(value) = contract.storage.get_slot(key) {
                return Ok(value);
            }
        }
        self.state.merkle_contract_state(id, key)
    }

    /// The balance of `asset` held by contract `id`: from the pending layer,
    /// else the committed one, else the backing store.
    pub fn get_balance(&self, id: &ContractId, asset: &Bytes32) -> (r: Result<Option<Word>, S::DataError>)
        ensures
            layered_balance(self.pending(), self.committed(), *id, *asset) matches Some(v) ==> (r matches Ok(x) && x == v),
            layered_balance(self.pending(), self.committed(), *id, *asset) is None ==> r
                == self.state().spec_contract_balance(*id, *asset),
    {
        if let Some(contract) = self.pending_storage.get_contract(id) {
            if let Some(value) = contract.balance.get_balance(asset) {
                return Ok(value);
            }
        }
        if let Some(contract) = self.commited_storage.get_contract(id) {
            if let Some(value) = contract.balance.get_balance(asset) {
                return Ok(value);
            }
        }
        self.state.merkle_contract_asset_id_balance(id, asset)
    }

    /// The bytecode of contract `id`: from the pending layer, else the
    /// committed one, else the backing store.
    pub fn get_contract(&self, id: &ContractId) -> (r: Result<Option<Vec<u8>>, S::DataError>)
        ensures
            layered_bytecode(self.pending(), self.committed(), *id) matches Some(code) ==> (r matches Ok(Some(x)) && x@ == code),
            layered_bytecode(self.pending(), self.committed(), *id) is None ==> r
                == self.state().spec_contract(*id),
    {
        if let Some(contract) = self.pending_storage.get_contract(id) {
            if let Some(code) = &contract.bytecode {
                let r = code.clone();
                assert(r@ =~= code@);
                return Ok(Some(r));
            }
        }
        if let Some(contract) = self.commited_storage.get_contract(id) {
            if let Some(code) = &contract.bytecode {
                let r = code.clone();
                assert(r@ =~= code@);
                return Ok(Some(r));
            }
        }
        self.state.storage_contract(id)
    }

    /// Whether contract `id` has bytecode: in the pending layer, else the
    /// committed one, else the backing store.
    pub fn contains_contract(&self, id: &ContractId) -> (r: Result<bool, S::DataError>)
        ensures
            layered_bytecode(self.pending(), self.committed(), *id) is Some ==> r == Ok::<
                bool,
                S::DataError,
            >(true),
            layered_bytecode(self.pending(), self.committed(), *id) is None ==> r
                == self.state().spec_contract_exists(*id),
    {
        if let Some(contract) = self.pending_storage.get_contract(id) {
            if contract.bytecode.is_some() {
                return Ok(true);
            }
        }
        if let Some(contract) = self.commited_storage.get_contract(id) {
            if contract.bytecode.is_some() {
                return Ok(true);
            }
        }
        self.state.storage_contract_exists(id)
    }

    /// The salt and state root of contract `id`: from the pending layer,
    /// else the committed one, else the backing store.
    pub fn get_contract_root(&self, id: &ContractId) -> (r: Result<Option<(Salt, Bytes32)>, S::DataError>)
        ensures
            layered_root(self.pending(), self.committed(), *id) matches Some(v) ==> (r matches Ok(Some(x)) && x == v),
            layered_root(self.pending(), self.committed(), *id) is None ==> r
                == self.state().spec_contract_root(*id),
    {
        if let Some(contract) = self.pending_storage.get_contract(id) {
            if let Some(root) = contract.root {
                return Ok(Some(root));
            }
        }
        if let Some(contract) = self.commited_storage.get_contract(id) {
            if let Some(root) = contract.root {
                return Ok(Some(root));
            }
        }
        self.state.storage_contract_root(id)
    }

    /// The hash of the block at `height`: all zero for a height above the
    /// current block, else from the backing store.
    pub fn block_hash(&self, height: u32) -> (r: Result<Bytes32, S::DataError>)
        ensures
            height > self.spec_metadata().spec_block_height() ==> (r matches Ok(h) && h@ == Seq::new(
                32,
                |i: int| 0u8,
            )),
            height <= self.spec_metadata().spec_block_height() ==> r == self.state().spec_block_hash(
                height,
            ),
    {
        if height > self.metadata.block_height() {
            let zero = [0u8; 32];
            assert(zero@ =~= Seq::new(32, |i: int| 0u8));
            return Ok(zero);
        }
        self.state.block_hash(height)
    }
}

/// Reads after a commit are the reads before it: merging the pending layer
/// into the committed one and emptying it changes no slot, balance, bytecode
/// or root that the layers show.
pub proof fn lemma_commit_keeps_reads(
    pending: Map<ContractId, ContractDataView>,
    committed: Map<ContractId, ContractDataView>,
    id: ContractId,
    key: Bytes32,
)
    ensures
        layered_slot(Map::empty(), merge_layers(committed, pending), id, key) == layered_slot(
            pending,
            committed,
            id,
            key,
        ),
        layered_balance(Map::empty(), merge_layers(committed, pending), id, key)
            == layered_balance(pending, committed, id, key),
        layered_bytecode(Map::empty(), merge_layers(committed, pending), id) == layered_bytecode(
            pending,
            committed,
            id,
        ),
        layered_root(Map::empty(), merge_layers(committed, pending), id) == layered_root(
            pending,
            committed,
            id,
        ),
{
}

/// Reads after a reject are the reads before the writes of the transaction:
/// when the pending layer was empty before them, and the writes only touched
/// the pending layer, dropping it shows what the layers showed before.
pub proof fn lemma_reject_restores_reads<S>(
    before: SubStorage<S>,
    rejected: SubStorage<S>,
    id: ContractId,
    key: Bytes32,
)
    requires
        before.pending() == Map::<ContractId, ContractDataView>::empty(),
        rejected.pending() == Map::<ContractId, ContractDataView>::empty(),
        rejected.committed() == before.committed(),
    ensures
        layered_slot(rejected.pending(), rejected.committed(), id, key) == layered_slot(
            before.pending(),
            before.committed(),
            id,
            key,
        ),
        layered_balance(rejected.pending(), rejected.committed(), id, key) == layered_balance(
            before.pending(),
            before.committed(),
            id,
            key,
        ),
        layered_bytecode(rejected.pending(), rejected.committed(), id) == layered_bytecode(
            before.pending(),
            before.committed(),
            id,
        ),
        layered_root(rejected.pending(), rejected.committed(), id) == layered_root(
            before.pending(),
            before.committed(),
            id,
        ),
{
}

/// A slot written in the pending layer reads back as written, whatever the
/// committed layer and the backing store hold: pending writes shadow the
/// lower layers.
pub proof fn lemma_written_slot_reads_back(
    pending: Map<ContractId, ContractDataView>,
    committed: Map<ContractId, ContractDataView>,
    id: ContractId,
    key: Bytes32,
    value: Bytes32,
)
    ensures
        layered_slot(
            pending.insert(
                id,
                ContractDataView {
                    storage: contract_in(pending, id).storage.insert(key, Some(value)),
                    ..contract_in(pending, id)
                },
            ),
            committed,
            id,
            key,
        ) == Some(Some(value)),
{
}

/// A slot written, committed, then overwritten in a transaction that is
/// rejected reads as committed: the reject drops the pending layer and the
/// commit kept the first write.
pub proof fn lemma_committed_slot_survives_reject(
    committed: Map<ContractId, ContractDataView>,
    pending: Map<ContractId, ContractDataView>,
    id: ContractId,
    key: Bytes32,
    value: Bytes32,
)
    ensures
        layered_slot(
            Map::empty(),
            merge_layers(
                committed,
                pending.insert(
                    id,
                    ContractDataView {
                        storage: contract_in(pending, id).storage.insert(key, Some(value)),
                        ..contract_in(pending, id)
                    },
                ),
            ),
            id,
            key,
        ) == Some(Some(value)),
{
    let written = pending.insert(
        id,
        ContractDataView {
            storage: contract_in(pending, id).storage.insert(key, Some(value)),
            ..contract_in(pending, id)
        },
    );
    lemma_commit_keeps_reads(written, committed, id, key);
    lemma_written_slot_reads_back(pending, committed, id, key, value);
}

} // verus!
