//! The transactions that the VM executes, and the reconciliation of their
//! outputs after execution.
use vstd::prelude::*;

use crate::consts::Word;
use crate::error::{CheckError, PanicReason};
use crate::types::{
    base_asset, bytes32_eq, is_base_asset, is_zeroed, zero_bytes, Address, AssetId, Bytes32,
    ContractId,
};

verus! {

/// An output of a transaction.
#[derive(Clone, Copy, Debug, PartialEq, Eq)]
pub enum Output {
    /// Coins sent to an address.
    Coin { to: Address, amount: Word, asset_id: AssetId },
    /// The state of a contract that an input spends.
    Contract { input_index: u16, balance_root: Bytes32, state_root: Bytes32 },
    /// What is left of an asset after execution.
    Change { to: Address, amount: Word, asset_id: AssetId },
    /// Coins whose amount and asset the execution decides.
    Variable { to: Address, amount: Word, asset_id: AssetId },
    /// A contract that the transaction created.
    ContractCreated { contract_id: ContractId, state_root: Bytes32 },
    /// A message to a recipient; the zero recipient marks a message still
    /// to be filled in.
    Message { recipient: Address, amount: Word },
}

/// Whether the transaction format has an encoding for `o`: it has none for
/// message outputs.
pub open spec fn encodable(o: Output) -> bool {
    !(o is Message)
}

/// Balances by asset id, the first entry of an asset counting.
#[derive(Clone, Debug)]
pub struct AssetBalances {
    /// The entries, in order.
    pub entries: Vec<(AssetId, Word)>,
}

/// The balance of `asset` among `entries`: the amount of its first entry.
pub open spec fn balance_of(entries: Seq<(AssetId, Word)>, asset: Seq<u8>) -> Option<Word>
    decreases entries.len(),
{
    if entries.len() == 0 {
        None
    } else if entries[0].0@ == asset {
        Some(entries[0].1)
    } else {
        balance_of(entries.drop_first(), asset)
    }
}

impl AssetBalances {
    /// No asset has two entries, so the entries form a map from assets to
    /// balances, as the balances of a transaction do.
    pub open spec fn wf(&self) -> bool {
        forall|i: int, j: int|
            0 <= i < j < self.entries@.len() ==> (#[trigger] self.entries@[i]).0@ != (
            #[trigger] self.entries@[j]).0@
    }

    /// The balance of `asset`, if it has one.
    pub fn get(&self, asset: &AssetId) -> (r: Option<Word>)
        ensures
            r == balance_of(self.entries@, asset@),
    {
        let mut i: usize = 0;
        assert(self.entries@.subrange(0, self.entries@.len() as int) =~= self.entries@);
        while i < self.entries.len()
            invariant
                i <= self.entries@.len(),
                balance_of(self.entries@, asset@) == balance_of(
                    self.entries@.subrange(i as int, self.entries@.len() as int),
                    asset@,
                ),
            decreases self.entries@.len() - i,
        {
            let ghost rest = self.entries@.subrange(i as int, self.entries@.len() as int);
            assert(rest.drop_first() =~= self.entries@.subrange(i + 1, self.entries@.len() as int));
            if bytes32_eq(&self.entries[i].0, asset) {
                return Some(self.entries[i].1);
            }
            i = i + 1;
        }
        None
    }
}

/// Setting the amount of the first entry of an asset sets the balance of
/// that asset and keeps the balances of the others.
proof fn lemma_balance_update(entries: Seq<(AssetId, Word)>, j: int, v: Word, asset: Seq<u8>)
    requires
        0 <= j < entries.len(),
        forall|i: int| 0 <= i < j ==> entries[i].0@ != entries[j].0@,
    ensures
        balance_of(entries.update(j, (entries[j].0, v)), asset) == if asset == entries[j].0@ {
            Some(v)
        } else {
            balance_of(entries, asset)
        },
    decreases entries.len(),
{
    let updated = entries.update(j, (entries[j].0, v));
    if j > 0 {
        assert(updated.drop_first() =~= entries.drop_first().update(j - 1, (entries[j].0, v)));
        assert(entries.drop_first()[j - 1] == entries[j]);
        assert forall|i: int| 0 <= i < j - 1 implies (#[trigger] entries.drop_first()[i]).0@
            != entries.drop_first()[j - 1].0@ by {
            assert(entries.drop_first()[i] == entries[i + 1]);
        }
        lemma_balance_update(entries.drop_first(), j - 1, v, asset);
    } else {
        assert(updated.drop_first() =~= entries.drop_first());
    }
}

/// The balance of an asset is the amount of its first entry.
proof fn lemma_balance_first(entries: Seq<(AssetId, Word)>, j: int)
    requires
        0 <= j < entries.len(),
        forall|i: int| 0 <= i < j ==> entries[i].0@ != entries[j].0@,
    ensures
        balance_of(entries, entries[j].0@) == Some(entries[j].1),
    decreases entries.len(),
{
    if j > 0 {
        assert(entries.drop_first()[j - 1] == entries[j]);
        assert forall|i: int| 0 <= i < j - 1 implies (#[trigger] entries.drop_first()[i]).0@
            != entries.drop_first()[j - 1].0@ by {
            assert(entries.drop_first()[i] == entries[i + 1]);
        }
        lemma_balance_first(entries.drop_first(), j - 1);
    }
}

impl AssetBalances {
    /// Subtracts `value` from the balance of `asset`; returns `false`, and
    /// changes nothing, when the asset has no balance or a smaller one.
    pub fn checked_balance_sub(&mut self, asset: &AssetId, value: Word) -> (r: bool)
        ensures
            r <==> (balance_of(old(self).entries@, asset@) matches Some(b) && b >= value),
            r ==> balance_of(final(self).entries@, asset@) == Some(
                (balance_of(old(self).entries@, asset@)->0 - value) as Word,
            ),
            r ==> forall|a: Seq<u8>|
                a != asset@ ==> #[trigger] balance_of(final(self).entries@, a) == balance_of(
                    old(self).entries@,
                    a,
                ),
            !r ==> final(self).entries@ == old(self).entries@,
            old(self).wf() ==> final(self).wf(),
            final(self).entries@.len() == old(self).entries@.len(),
    {
        let current = match self.get(asset) {
            Some(b) => b,
            None => return false,
        };
        if current < value {
            return false;
        }
        let ghost entries = self.entries@;
        let mut j: usize = 0;
        assert(entries.subrange(0, entries.len() as int) =~= entries);
        while j < self.entries.len()
            invariant
                self.entries@ == entries,
                entries == old(self).entries@,
                value <= current,
                j <= entries.len(),
                balance_of(entries, asset@) == Some(current),
                balance_of(entries, asset@) == balance_of(
                    entries.subrange(j as int, entries.len() as int),
                    asset@,
                ),
                forall|i: int| 0 <= i < j ==> entries[i].0@ != asset@,
            decreases entries.len() - j,
        {
            let ghost rest = entries.subrange(j as int, entries.len() as int);
            assert(rest.drop_first() =~= entries.subrange(j + 1, entries.len() as int));
            if bytes32_eq(&self.entries[j].0, asset) {
                let key = self.entries[j].0;
                proof {
                    lemma_balance_first(entries, j as int);
                    assert forall|a: Seq<u8>| a != asset@ implies #[trigger] balance_of(
                        entries.update(j as int, (key, (current - value) as Word)),
                        a,
                    ) == balance_of(entries, a) by {
                        lemma_balance_update(entries, j as int, (current - value) as Word, a);
                    }
                    lemma_balance_update(entries, j as int, (current - value) as Word, asset@);
                }
                self.entries.set(j, (key, current - value));
                assert forall|x: int| 0 <= x < entries.len() implies (#[trigger] self.entries@[x]).0
                    == entries[x].0 by {}
                return true;
            }
            j = j + 1;
        }
        false
    }
}

/// The free balances of a transaction before execution.
#[derive(Clone, Debug)]
pub struct InitialBalances {
    /// Balances that cannot be retried.
    pub non_retryable: AssetBalances,
    /// The retryable amount, if any.
    pub retryable: Option<Word>,
}

/// Network parameters that the reconciliation reads.
#[derive(Clone, Copy, Debug)]
pub struct ConsensusParameters {
    /// Divisor from gas times price to fee.
    pub gas_price_factor: Word,
    /// Offset of the serialized transaction in memory.
    pub tx_offset: usize,
}

/// Fee of `gas` units at `price`: the product divided by `factor`, rounded
/// up.
pub open spec fn refund_value(factor: int, gas: int, price: int) -> int {
    (gas * price + factor - 1) / factor
}

/// Fee of the unused `gas` at `price` that goes back to the owner; `None`
/// when it does not fit in a word.
pub fn gas_refund_value(params: &ConsensusParameters, gas: Word, price: Word) -> (r: Option<Word>)
    requires
        params.gas_price_factor > 0,
    ensures
        r is Some <==> refund_value(params.gas_price_factor as int, gas as int, price as int)
            <= u64::MAX,
        r matches Some(v) ==> v == refund_value(params.gas_price_factor as int, gas as int, price as int),
{
    let factor = params.gas_price_factor as u128;
    assert((gas as int) * (price as int) <= u64::MAX * u64::MAX) by (nonlinear_arith)
        requires
            gas <= u64::MAX,
            price <= u64::MAX,
    ;
    let total = (gas as u128) * (price as u128);
    let quotient = total / factor;
    let refund = if total % factor == 0 {
        quotient
    } else {
        quotient + 1
    };
    proof {
        let t = total as int;
        let f = factor as int;
        assert(refund as int == (t + f - 1) / f) by (nonlinear_arith)
            requires
                f > 0,
                t >= 0,
                quotient as int == t / f,
                refund as int == if t % f == 0 {
                    t / f
                } else {
                    t / f + 1
                },
        {
            assert(t == f * (t / f) + t % f);
            assert(0 <= t % f < f);
            if t % f == 0 {
                assert(t + f - 1 == f * (t / f) + (f - 1));
            } else {
                assert(t + f - 1 == f * (t / f + 1) + (t % f - 1));
            }
        }
    }
    if refund > u64::MAX as u128 {
        None
    } else {
        Some(refund as Word)
    }
}

/// The serialized bytes of an output.
pub uninterp spec fn output_bytes(o: Output) -> Seq<u8>;

/// Relies on `fuel_tx::Output` and its canonical serialization,
/// `fuel_types::canonical::Serialize::to_bytes`: the bytes of the output,
/// which depend on the output alone.
#[verifier::external_body]
fn serialize_output(o: &Output) -> (r: Vec<u8>)
    requires
        encodable(*o),
    ensures
        r@ == output_bytes(*o),
{
    let o = match *o {
        Output::Coin { to, amount, asset_id } => fuel_tx::Output::coin(to.into(), amount, asset_id.into()),
        Output::Contract { input_index, balance_root, state_root } => fuel_tx::Output::contract(input_index, balance_root.into(), state_root.into()),
        Output::Change { to, amount, asset_id } => fuel_tx::Output::change(to.into(), amount, asset_id.into()),
        Output::Variable { to, amount, asset_id } => fuel_tx::Output::variable(to.into(), amount, asset_id.into()),
        Output::ContractCreated { contract_id, state_root } => fuel_tx::Output::contract_created(contract_id.into(), state_root.into()),
        Output::Message { .. } => return Vec::new(),
    };
    fuel_types::canonical::Serialize::to_bytes(&o)
}

/// A transaction that runs a script.
#[derive(Clone, Debug)]
pub struct Script {
    /// The script's bytecode.
    pub script: Vec<u8>,
    /// Data handed to the script.
    pub script_data: Vec<u8>,
    /// The outputs.
    pub outputs: Vec<Output>,
    /// Merkle root of the receipts of the execution.
    pub receipts_root: Bytes32,
    /// Offset of the receipts root in the serialized transaction.
    pub receipts_root_offset: usize,
    /// Offset of each output in the serialized transaction.
    pub output_offsets: Vec<usize>,
    /// Gas price.
    pub price: Word,
}

/// A transaction that creates a contract.
#[derive(Clone, Debug)]
pub struct Create {
    /// Index of the witness holding the contract's bytecode.
    pub bytecode_witness_index: u16,
    /// The outputs.
    pub outputs: Vec<Output>,
    /// Offset of each output in the serialized transaction.
    pub output_offsets: Vec<usize>,
    /// Gas price.
    pub price: Word,
}

/// Discriminant of a script transaction.
pub const TRANSACTION_SCRIPT: Word = 0;

/// Discriminant of a create transaction.
pub const TRANSACTION_CREATE: Word = 1;

/// A transaction that the VM can execute.
#[derive(Clone, Debug)]
pub enum ExecutableTransaction {
    /// A script transaction.
    Script(Script),
    /// A create transaction.
    Create(Create),
}

/// Whether `o` is the contract output for input `input`.
pub open spec fn is_contract_output_for(o: Output, input: int) -> bool {
    o matches Output::Contract { input_index, .. } && input_index as int == input
}

/// Whether `o` is a message output that has no recipient yet.
pub open spec fn is_open_message(o: Output) -> bool {
    o matches Output::Message { recipient, .. } && recipient@ == zero_bytes()
}

/// Whether `o` is a message output with a recipient.
pub open spec fn is_addressed_message(o: Output) -> bool {
    o matches Output::Message { recipient, .. } && recipient@ != zero_bytes()
}

/// Whether `o` is a variable output with nothing in it yet.
pub open spec fn is_empty_variable(o: Output) -> bool {
    o matches Output::Variable { amount, .. } && amount == 0
}

/// The output `o` after execution: a change output takes the balance of its
/// asset, initial when the execution reverted, the base asset adding
/// `refund`; a variable output is emptied on revert. `None` when the sum does
/// not fit in a word.
pub open spec fn reconciled(
    o: Output,
    revert: bool,
    refund: Word,
    initial: Seq<(AssetId, Word)>,
    balances: Seq<(AssetId, Word)>,
) -> Option<Output> {
    match o {
        Output::Change { to, amount, asset_id } => {
            let left = if revert {
                balance_of(initial, asset_id@)
            } else {
                balance_of(balances, asset_id@)
            }.unwrap();
            if asset_id@ == base_asset() {
                if left + refund <= u64::MAX {
                    Some(Output::Change { to, amount: (left + refund) as Word, asset_id })
                } else {
                    None
                }
            } else {
                Some(Output::Change { to, amount: left, asset_id })
            }
        },
        Output::Variable { to, amount, asset_id } => {
            if revert {
                Some(Output::Variable { to, amount: 0, asset_id })
            } else {
                Some(o)
            }
        },
        _ => Some(o),
    }
}

/// Whether `news` holds the outputs `olds` with the first `k` of them
/// reconciled and the others as they were.
pub open spec fn reconciled_up_to(
    news: Seq<Output>,
    olds: Seq<Output>,
    k: int,
    revert: bool,
    refund: Word,
    initial: Seq<(AssetId, Word)>,
    balances: Seq<(AssetId, Word)>,
) -> bool {
    &&& 0 <= k <= olds.len()
    &&& news.len() == olds.len()
    &&& forall|i: int|
        0 <= i < k ==> news[i] == (#[trigger] reconciled(
            olds[i],
            revert,
            refund,
            initial,
            balances,
        ))->0
    &&& forall|i: int| k <= i < olds.len() ==> #[trigger] news[i] == olds[i]
}

/// Whether each change output of `outputs` has a balance of its asset to
/// take: among `initial` on revert, else among `balances`.
pub open spec fn change_balances_known(
    outputs: Seq<Output>,
    revert: bool,
    initial: Seq<(AssetId, Word)>,
    balances: Seq<(AssetId, Word)>,
) -> bool {
    forall|i: int|
        0 <= i < outputs.len() ==> (#[trigger] outputs[i] matches Output::Change { asset_id, .. }
            ==> (if revert {
            balance_of(initial, asset_id@)
        } else {
            balance_of(balances, asset_id@)
        }) is Some)
}

/// The output after execution, as `reconciled` says.
fn reconcile_output(
    o: Output,
    revert: bool,
    refund: Word,
    initial: &AssetBalances,
    balances: &AssetBalances,
) -> (r: Option<Output>)
    requires
        o matches Output::Change { asset_id, .. } ==> (if revert {
            balance_of(initial.entries@, asset_id@)
        } else {
            balance_of(balances.entries@, asset_id@)
        }) is Some,
    ensures
        r == reconciled(o, revert, refund, initial.entries@, balances.entries@),
{
    match o {
        Output::Change { to, amount, asset_id } => {
            let found = if revert {
                initial.get(&asset_id)
            } else {
                balances.get(&asset_id)
            };
            let left = match found {
                Some(v) => v,
                None => return None,
            };
            if is_base_asset(&asset_id) {
                match left.checked_add(refund) {
                    Some(v) => Some(Output::Change { to, amount: v, asset_id }),
                    None => None,
                }
            } else {
                Some(Output::Change { to, amount: left, asset_id })
            }
        },
        Output::Variable { to, amount, asset_id } => {
            if revert {
                Some(Output::Variable { to, amount: 0, asset_id })
            } else {
                Some(o)
            }
        },
        _ => Some(o),
    }
}

impl ExecutableTransaction {
    /// The outputs.
    pub open spec fn spec_outputs(&self) -> Seq<Output> {
        match self {
            ExecutableTransaction::Script(s) => s.outputs@,
            ExecutableTransaction::Create(c) => c.outputs@,
        }
    }

    /// The gas price.
    pub open spec fn spec_price(&self) -> Word {
        match self {
            ExecutableTransaction::Script(s) => s.price,
            ExecutableTransaction::Create(c) => c.price,
        }
    }

    /// Whether `self` and `other` agree on everything but their outputs.
    pub open spec fn same_but_outputs(&self, other: &Self) -> bool {
        match (self, other) {
            (ExecutableTransaction::Script(a), ExecutableTransaction::Script(b)) => {
                &&& a.script@ == b.script@
                &&& a.script_data@ == b.script_data@
                &&& a.receipts_root == b.receipts_root
                &&& a.receipts_root_offset == b.receipts_root_offset
                &&& a.output_offsets@ == b.output_offsets@
                &&& a.price == b.price
            },
            (ExecutableTransaction::Create(a), ExecutableTransaction::Create(b)) => {
                &&& a.bytecode_witness_index == b.bytecode_witness_index
                &&& a.output_offsets@ == b.output_offsets@
                &&& a.price == b.price
            },
            _ => false,
        }
    }

    /// The discriminant of the transaction's kind.
    pub fn transaction_type(&self) -> (r: Word)
        ensures
            r == if self is Script {
                TRANSACTION_SCRIPT
            } else {
                TRANSACTION_CREATE
            },
    {
        match self {
            ExecutableTransaction::Script(_) => TRANSACTION_SCRIPT,
            ExecutableTransaction::Create(_) => TRANSACTION_CREATE,
        }
    }

    /// The script transaction, if this is one.
    pub fn as_script(&self) -> (r: Option<&Script>)
        ensures
            r is Some <==> self is Script,
            r matches Some(s) ==> self == ExecutableTransaction::Script(*s),
    {
        match self {
            ExecutableTransaction::Script(s) => Some(s),
            ExecutableTransaction::Create(_) => None,
        }
    }

    /// The script transaction, mutably, if this is one.
    pub fn as_script_mut(&mut self) -> (r: Option<&mut Script>)
        ensures
            r is Some <==> *old(self) is Script,
            r matches Some(s) ==> *old(self) == ExecutableTransaction::Script(*s)
                && *final(self) == ExecutableTransaction::Script(*final(s)),
            r is None ==> *final(self) == *old(self),
    {
        match self {
            ExecutableTransaction::Script(s) => Some(s),
            ExecutableTransaction::Create(_) => None,
        }
    }

    /// The create transaction, mutably, if this is one.
    pub fn as_create_mut(&mut self) -> (r: Option<&mut Create>)
        ensures
            r is Some <==> *old(self) is Create,
            r matches Some(c) ==> *old(self) == ExecutableTransaction::Create(*c)
                && *final(self) == ExecutableTransaction::Create(*final(c)),
            r is None ==> *final(self) == *old(self),
    {
        match self {
            ExecutableTransaction::Script(_) => None,
            ExecutableTransaction::Create(c) => Some(c),
        }
    }

    /// The create transaction, if this is one.
    pub fn as_create(&self) -> (r: Option<&Create>)
        ensures
            r is Some <==> self is Create,
            r matches Some(c) ==> self == ExecutableTransaction::Create(*c),
    {
        match self {
            ExecutableTransaction::Script(_) => None,
            ExecutableTransaction::Create(c) => Some(c),
        }
    }

    /// The outputs.
    pub fn outputs(&self) -> (r: &Vec<Output>)
        ensures
            r@ == self.spec_outputs(),
    {
        match self {
            ExecutableTransaction::Script(s) => &s.outputs,
            ExecutableTransaction::Create(c) => &c.outputs,
        }
    }

    /// Offsets of the outputs in the serialized transaction.
    pub open spec fn spec_output_offsets(&self) -> Seq<usize> {
        match self {
            ExecutableTransaction::Script(s) => s.output_offsets@,
            ExecutableTransaction::Create(c) => c.output_offsets@,
        }
    }

    /// Offset of output `idx` in the serialized transaction, if the
    /// transaction has that output and its offset.
    pub fn outputs_offset_at(&self, idx: usize) -> (r: Option<usize>)
        ensures
            r is Some <==> idx < self.spec_outputs().len() && idx < self.spec_output_offsets().len(),
            r matches Some(off) ==> off == self.spec_output_offsets()[idx as int],
    {
        let offsets = match self {
            ExecutableTransaction::Script(s) => &s.output_offsets,
            ExecutableTransaction::Create(c) => &c.output_offsets,
        };
        if idx < self.outputs().len() && idx < offsets.len() {
            Some(offsets[idx])
        } else {
            None
        }
    }

    /// The serialized bytes of output `idx`, if there is one and the
    /// transaction format encodes it.
    pub fn output_bytes_at(&self, idx: usize) -> (r: Option<Vec<u8>>)
        ensures
            r is Some <==> idx < self.spec_outputs().len() && encodable(
                self.spec_outputs()[idx as int],
            ),
            r matches Some(b) ==> b@ == output_bytes(self.spec_outputs()[idx as int]),
    {
        if idx < self.outputs().len() {
            let o = &self.outputs()[idx];
            if matches!(o, Output::Message { .. }) {
                None
            } else {
                Some(serialize_output(o))
            }
        } else {
            None
        }
    }

    /// Writes the serialized output `idx` at the start of `buf` and returns
    /// its length; fails when there is no such output, the format does not
    /// encode it, or `buf` is too short.
    pub fn output_to_mem(&self, idx: usize, buf: &mut [u8]) -> (r: Result<usize, PanicReason>)
        ensures
            !(idx < self.spec_outputs().len() && encodable(self.spec_outputs()[idx as int])) ==> r
                == Err::<usize, PanicReason>(PanicReason::OutputNotFound),
            idx < self.spec_outputs().len() && encodable(self.spec_outputs()[idx as int]) ==> ({
                let bytes = output_bytes(self.spec_outputs()[idx as int]);
                &&& r is Ok <==> bytes.len() <= old(buf)@.len()
                &&& r matches Ok(n) ==> n == bytes.len() && final(buf)@ == bytes + old(
                    buf,
                )@.subrange(n as int, old(buf)@.len() as int)
                &&& r is Err ==> r == Err::<usize, PanicReason>(PanicReason::MemoryOverflow)
            }),
            r is Err ==> final(buf)@ == old(buf)@,
            final(buf)@.len() == old(buf)@.len(),
    {
        let bytes = match self.output_bytes_at(idx) {
            Some(b) => b,
            None => return Err(PanicReason::OutputNotFound),
        };
        if bytes.len() > buf.len() {
            return Err(PanicReason::MemoryOverflow);
        }
        let mut i: usize = 0;
        while i < bytes.len()
            invariant
                bytes@.len() <= old(buf)@.len(),
                buf@.len() == old(buf)@.len(),
                i <= bytes@.len(),
                forall|j: int|
                    0 <= j < buf@.len() ==> #[trigger] buf@[j] == if j < i {
                        bytes@[j]
                    } else {
                        old(buf)@[j]
                    },
            decreases bytes@.len() - i,
        {
            buf[i] = bytes[i];
            i = i + 1;
        }
        assert(buf@ =~= bytes@ + old(buf)@.subrange(bytes@.len() as int, old(buf)@.len() as int));
        Ok(bytes.len())
    }

    /// The gas price.
    pub fn price(&self) -> (r: Word)
        ensures
            r == self.spec_price(),
    {
        match self {
            ExecutableTransaction::Script(s) => s.price,
            ExecutableTransaction::Create(c) => c.price,
        }
    }

    /// Replaces output `idx` by `output`.
    fn set_output(&mut self, idx: usize, output: Output)
        requires
            idx < old(self).spec_outputs().len(),
        ensures
            final(self).spec_outputs() == old(self).spec_outputs().update(idx as int, output),
            final(self).same_but_outputs(old(self)),
    {
        match self {
            ExecutableTransaction::Script(s) => s.outputs.set(idx, output),
            ExecutableTransaction::Create(c) => c.outputs.set(idx, output),
        }
    }

    /// Puts the variable output `output` in place of the empty variable
    /// output `idx`.
    pub fn replace_variable_output(&mut self, idx: usize, output: Output) -> (r: Result<
        (),
        PanicReason,
    >)
        ensures
            !(output is Variable) ==> r == Err::<(), PanicReason>(
                PanicReason::ExpectedOutputVariable,
            ),
            output is Variable ==> (r is Ok <==> idx < old(self).spec_outputs().len()
                && is_empty_variable(old(self).spec_outputs()[idx as int])),
            output is Variable && r is Err ==> r == Err::<(), PanicReason>(
                PanicReason::OutputNotFound,
            ),
            r is Ok ==> final(self).spec_outputs() == old(self).spec_outputs().update(
                idx as int,
                output,
            ),
            r is Err ==> *final(self) == *old(self),
            final(self).same_but_outputs(old(self)),
    {
        proof {
            assert(self.same_but_outputs(self));
        }
        if !matches!(output, Output::Variable { .. }) {
            return Err(PanicReason::ExpectedOutputVariable);
        }
        if idx >= self.outputs().len() {
            return Err(PanicReason::OutputNotFound);
        }
        let current = self.outputs()[idx];
        if matches!(current, Output::Variable { amount: 0, .. }) {
            self.set_output(idx, output);
            Ok(())
        } else {
            Err(PanicReason::OutputNotFound)
        }
    }

    /// Puts the message output `output`, which must have a recipient, in
    /// place of the message output `idx`, which must not have one yet.
    pub fn replace_message_output(&mut self, idx: usize, output: Output) -> (r: Result<
        (),
        PanicReason,
    >)
        ensures
            !is_addressed_message(output) ==> r == Err::<(), PanicReason>(
                PanicReason::OutputNotFound,
            ),
            is_addressed_message(output) ==> (r is Ok <==> idx < old(self).spec_outputs().len()
                && is_open_message(old(self).spec_outputs()[idx as int])),
            is_addressed_message(output) && r is Err ==> r == Err::<(), PanicReason>(
                PanicReason::NonZeroMessageOutputRecipient,
            ),
            r is Ok ==> final(self).spec_outputs() == old(self).spec_outputs().update(
                idx as int,
                output,
            ),
            r is Err ==> *final(self) == *old(self),
            final(self).same_but_outputs(old(self)),
    {
        proof {
            assert(self.same_but_outputs(self));
        }
        let wanted = match output {
            Output::Message { recipient, .. } => !is_zeroed(&recipient),
            _ => false,
        };
        if !wanted {
            return Err(PanicReason::OutputNotFound);
        }
        if idx >= self.outputs().len() {
            return Err(PanicReason::NonZeroMessageOutputRecipient);
        }
        let current = self.outputs()[idx];
        let open = match current {
            Output::Message { recipient, .. } => is_zeroed(&recipient),
            _ => false,
        };
        if open {
            self.set_output(idx, output);
            Ok(())
        } else {
            Err(PanicReason::NonZeroMessageOutputRecipient)
        }
    }

    /// Sets the change and variable outputs after execution: each output
    /// becomes what `reconciled` says, with the refund of the unused gas.
    /// On an overflow the outputs before the failing one are already
    /// updated and the others are not.
    pub fn update_outputs(
        &mut self,
        params: &ConsensusParameters,
        revert: bool,
        remaining_gas: Word,
        initial_balances: &InitialBalances,
        balances: &AssetBalances,
    ) -> (r: Result<(), CheckError>)
        requires
            params.gas_price_factor > 0,
            change_balances_known(
                old(self).spec_outputs(),
                revert,
                initial_balances.non_retryable.entries@,
                balances.entries@,
            ),
        ensures
            final(self).same_but_outputs(old(self)),
            ({
                let refund = refund_value(
                    params.gas_price_factor as int,
                    remaining_gas as int,
                    old(self).spec_price() as int,
                );
                let olds = old(self).spec_outputs();
                let initial = initial_balances.non_retryable.entries@;
                &&& refund > u64::MAX ==> r == Err::<(), CheckError>(CheckError::ArithmeticOverflow)
                    && final(self).spec_outputs() == olds
                &&& r is Ok <==> refund <= u64::MAX && forall|i: int|
                    0 <= i < olds.len() ==> (#[trigger] reconciled(
                        olds[i],
                        revert,
                        refund as Word,
                        initial,
                        balances.entries@,
                    )) is Some
                &&& r is Ok ==> reconciled_up_to(
                    final(self).spec_outputs(),
                    olds,
                    olds.len() as int,
                    revert,
                    refund as Word,
                    initial,
                    balances.entries@,
                )
                &&& r is Err ==> r == Err::<(), CheckError>(CheckError::ArithmeticOverflow)
                    && exists|k: int|
                    #[trigger] reconciled_up_to(
                        final(self).spec_outputs(),
                        olds,
                        k,
                        revert,
                        refund as Word,
                        initial,
                        balances.entries@,
                    )
            }),
    {
        proof {
            assert(self.same_but_outputs(self));
        }
        let refund = match gas_refund_value(params, remaining_gas, self.price()) {
            Some(v) => v,
            None => {
                assert(reconciled_up_to(
                    self.spec_outputs(),
                    self.spec_outputs(),
                    0,
                    revert,
                    refund_value(
                        params.gas_price_factor as int,
                        remaining_gas as int,
                        self.spec_price() as int,
                    ) as Word,
                    initial_balances.non_retryable.entries@,
                    balances.entries@,
                ));
                return Err(CheckError::ArithmeticOverflow);
            },
        };
        let ghost olds = self.spec_outputs();
        let n = self.outputs().len();
        let mut i: usize = 0;
        while i < n
            invariant
                n == olds.len(),
                i <= n,
                self.spec_outputs().len() == n,
                self.same_but_outputs(old(self)),
                olds == old(self).spec_outputs(),
                refund == refund_value(
                    params.gas_price_factor as int,
                    remaining_gas as int,
                    old(self).spec_price() as int,
                ),
                change_balances_known(
                    olds,
                    revert,
                    initial_balances.non_retryable.entries@,
                    balances.entries@,
                ),
                forall|j: int|
                    0 <= j < i ==> (#[trigger] reconciled(
                        olds[j],
                        revert,
                        refund,
                        initial_balances.non_retryable.entries@,
                        balances.entries@,
                    )) is Some,
                reconciled_up_to(
                    self.spec_outputs(),
                    olds,
                    i as int,
                    revert,
                    refund,
                    initial_balances.non_retryable.entries@,
                    balances.entries@,
                ),
            decreases n - i,
        {
            let o = self.outputs()[i];
            assert(o == olds[i as int]);
            match reconcile_output(o, revert, refund, &initial_balances.non_retryable, balances) {
                Some(updated) => {
                    self.set_output(i, updated);
                },
                None => {
                    assert(reconciled(
                        olds[i as int],
                        revert,
                        refund,
                        initial_balances.non_retryable.entries@,
                        balances.entries@,
                    ) is None);
                    assert(reconciled_up_to(
                        self.spec_outputs(),
                        olds,
                        i as int,
                        revert,
                        refund,
                        initial_balances.non_retryable.entries@,
                        balances.entries@,
                    ));
                    return Err(CheckError::ArithmeticOverflow);
                },
            }
            i = i + 1;
        }
        assert(reconciled_up_to(
            self.spec_outputs(),
            olds,
            n as int,
            revert,
            refund,
            initial_balances.non_retryable.entries@,
            balances.entries@,
        ));
        Ok(())
    }

    /// The first contract output for input `input`, with its index.
    pub fn find_output_contract(&self, input: usize) -> (r: Option<(usize, &Output)>)
        ensures
            r is None ==> forall|i: int|
                0 <= i < self.spec_outputs().len() ==> !is_contract_output_for(
                    #[trigger] self.spec_outputs()[i],
                    input as int,
                ),
            r matches Some(found) ==> found.0 < self.spec_outputs().len() && *found.1
                == self.spec_outputs()[found.0 as int] && is_contract_output_for(
                *found.1,
                input as int,
            ) && forall|i: int|
                0 <= i < found.0 ==> !is_contract_output_for(
                    #[trigger] self.spec_outputs()[i],
                    input as int,
                ),
    {
        let outputs = self.outputs();
        let mut i: usize = 0;
        while i < outputs.len()
            invariant
                outputs@ == self.spec_outputs(),
                i <= outputs@.len(),
                forall|j: int| 0 <= j < i ==> !is_contract_output_for(#[trigger] outputs@[j], input as int),
            decreases outputs@.len() - i,
        {
            if let Output::Contract { input_index, .. } = &outputs[i] {
                if *input_index as usize == input {
                    return Some((i, &outputs[i]));
                }
            }
            i = i + 1;
        }
        None
    }
}

/// With no gas left there is nothing to refund.
pub proof fn lemma_no_gas_no_refund(factor: int, price: int)
    requires
        factor > 0,
    ensures
        refund_value(factor, 0, price) == 0,
{
    assert(0 * price == 0);
    assert((factor - 1) / factor == 0) by (nonlinear_arith)
        requires
            factor > 0,
    ;
}

} // verus!
