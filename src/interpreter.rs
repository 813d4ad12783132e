//! Registers, flags and the program counter of the VM, and the state of an
//! executing transaction.
use vstd::prelude::*;

use crate::constraints::{range_fits, CheckedMemConstLen, CheckedMemRange};
use crate::consts::{
    Word, BYTES32_LEN, FLAG_UNSAFE_MATH, FLAG_WRAPPING, INSTRUCTION_SIZE, MEM_SIZE, REG_FLAG, REG_FP,
    REG_ERR, REG_HP, REG_PC, REG_SP, REG_SSP, VM_MAX_RAM, VM_REGISTER_COUNT,
};
use crate::error::{PanicReason, RuntimeError};
use crate::crypto::{
    ecrecover, hash_instruction_done, keccak256, keccak256_of, recover_instruction_done,
    sha256_instruction,
};
use crate::merkle::sha256_of;
use crate::memory::{written, Context, OwnershipRegisters, VmMemory};
use crate::merkle::{leaf_hashes, data_view, merkle_root, tree_root};
use crate::transaction::{
    balance_of, encodable, output_bytes, AssetBalances, ConsensusParameters, ExecutableTransaction,
    InitialBalances, Output,
};
use core::ops::Range;
use crate::types::{base_asset, AssetId, Bytes32, ContractId};

verus! {

/// Moves the program counter past the current instruction.
pub fn inc_pc(pc: &mut Word) -> (r: Result<(), RuntimeError>)
    ensures
        r is Ok <==> *old(pc) + INSTRUCTION_SIZE <= u64::MAX,
        r is Ok ==> *final(pc) == *old(pc) + INSTRUCTION_SIZE,
        r is Err ==> r == Err::<(), RuntimeError>(
            RuntimeError::Recoverable(PanicReason::ArithmeticOverflow),
        ) && *final(pc) == *old(pc),
{
    match pc.checked_add(INSTRUCTION_SIZE) {
        Some(next) => {
            *pc = next;
            Ok(())
        },
        None => Err(RuntimeError::Recoverable(PanicReason::ArithmeticOverflow)),
    }
}

/// The flags that the flag register accepts.
pub const FLAGS_MASK: Word = 3;

/// Relies on `fuel_asm::Flags::from_bits`: the bits of the flags when `a`
/// sets only known flags (bit 0 and bit 1), else `None`.
#[verifier::external_body]
fn flags_from_bits(a: Word) -> (r: Option<Word>)
    ensures
        r == if a & !FLAGS_MASK == 0 {
            Some(a)
        } else {
            None
        },
{
    fuel_asm::Flags::from_bits(a).map(|f| f.bits())
}

/// Whether the flag register asks for wrapping arithmetic.
pub fn is_wrapping(flag: Word) -> (r: bool)
    ensures
        r == (flag & FLAG_WRAPPING != 0),
{
    flag & FLAG_WRAPPING != 0
}

/// Whether the flag register asks for unsafe math.
pub fn is_unsafe_math(flag: Word) -> (r: bool)
    ensures
        r == (flag & FLAG_UNSAFE_MATH != 0),
{
    flag & FLAG_UNSAFE_MATH != 0
}

/// Sets the error register to zero.
pub fn clear_err(err: &mut Word)
    ensures
        *final(err) == 0,
{
    *err = 0;
}

/// Sets the error register to one.
pub fn set_err(err: &mut Word)
    ensures
        *final(err) == 1,
{
    *err = 1;
}

/// Sets the flag register to `a`, which must set only known flags, then
/// moves the program counter on.
pub fn set_flag(flag: &mut Word, pc: &mut Word, a: Word) -> (r: Result<(), RuntimeError>)
    ensures
        a & !FLAGS_MASK != 0 ==> r == Err::<(), RuntimeError>(
            RuntimeError::Recoverable(PanicReason::ErrorFlag),
        ) && *final(flag) == *old(flag) && *final(pc) == *old(pc),
        a & !FLAGS_MASK == 0 ==> *final(flag) == a && (r is Ok <==> *old(pc) + INSTRUCTION_SIZE
            <= u64::MAX),
        r is Ok ==> *final(pc) == *old(pc) + INSTRUCTION_SIZE,
        a & !FLAGS_MASK == 0 && r is Err ==> r == Err::<(), RuntimeError>(
            RuntimeError::Recoverable(PanicReason::ArithmeticOverflow),
        ) && *final(pc) == *old(pc),
{
    let bits = match flags_from_bits(a) {
        Some(bits) => bits,
        None => return Err(RuntimeError::Recoverable(PanicReason::ErrorFlag)),
    };
    *flag = bits;
    inc_pc(pc)
}

/// The range of memory that holds the id of the running contract: the
/// 32 bytes at the frame pointer, in a contract context only.
pub fn internal_contract_bounds(context: &Context, fp: Word) -> (r: Result<
    CheckedMemConstLen<32>,
    RuntimeError,
>)
    ensures
        context.spec_is_external() ==> r == Err::<CheckedMemConstLen<32>, RuntimeError>(
            RuntimeError::Recoverable(PanicReason::ExpectedInternalContext),
        ),
        !context.spec_is_external() ==> (r is Ok <==> range_fits(
            fp as int,
            32,
            0,
            VM_MAX_RAM as int,
        )),
        !context.spec_is_external() && r is Err ==> r == Err::<CheckedMemConstLen<32>, RuntimeError>(
            RuntimeError::Recoverable(PanicReason::MemoryOverflow),
        ),
        r matches Ok(range) ==> range.wf() && range@.start == fp,
{
    if context.is_internal() {
        CheckedMemConstLen::<32>::new(fp)
    } else {
        Err(RuntimeError::Recoverable(PanicReason::ExpectedInternalContext))
    }
}

/// The id of the running contract, read at the frame pointer; fails outside
/// a contract context.
pub fn internal_contract(context: &Context, fp: Word, memory: &VmMemory) -> (r: Result<
    ContractId,
    RuntimeError,
>)
    requires
        memory@.len() == MEM_SIZE,
    ensures
        context.spec_is_external() ==> r == Err::<ContractId, RuntimeError>(
            RuntimeError::Recoverable(PanicReason::ExpectedInternalContext),
        ),
        !context.spec_is_external() ==> (r is Ok <==> range_fits(
            fp as int,
            32,
            0,
            VM_MAX_RAM as int,
        )),
        !context.spec_is_external() && r is Err ==> r == Err::<ContractId, RuntimeError>(
            RuntimeError::Recoverable(PanicReason::MemoryOverflow),
        ),
        r matches Ok(id) ==> id@ == memory@.subrange(fp as int, fp + 32),
{
    let range = internal_contract_bounds(context, fp)?;
    Ok(range.read(memory))
}

/// The id of the running contract, all zero outside a contract context or
/// when it cannot be read.
pub fn internal_contract_or_default(context: &Context, fp: Word, memory: &VmMemory) -> (r: ContractId)
    requires
        memory@.len() == MEM_SIZE,
    ensures
        !context.spec_is_external() && range_fits(fp as int, 32, 0, VM_MAX_RAM as int) ==> r@
            == memory@.subrange(fp as int, fp + 32),
        context.spec_is_external() || !range_fits(fp as int, 32, 0, VM_MAX_RAM as int) ==> r@
            == Seq::new(32, |i: int| 0u8),
{
    match internal_contract(context, fp, memory) {
        Ok(id) => id,
        Err(_) => {
            let zero = [0u8; 32];
            assert(zero@ =~= Seq::new(32, |i: int| 0u8));
            zero
        },
    }
}

/// The id of the running contract in a contract context, `None` outside
/// one.
pub fn current_contract(context: &Context, fp: Word, memory: &VmMemory) -> (r: Result<
    Option<ContractId>,
    RuntimeError,
>)
    requires
        memory@.len() == MEM_SIZE,
    ensures
        context.spec_is_external() ==> r == Ok::<Option<ContractId>, RuntimeError>(None),
        !context.spec_is_external() ==> (r is Ok <==> range_fits(
            fp as int,
            32,
            0,
            VM_MAX_RAM as int,
        )),
        !context.spec_is_external() && r is Err ==> r == Err::<Option<ContractId>, RuntimeError>(
            RuntimeError::Recoverable(PanicReason::MemoryOverflow),
        ),
        r matches Ok(Some(id)) ==> !context.spec_is_external() && id@ == memory@.subrange(
            fp as int,
            fp + 32,
        ),
{
    if context.is_internal() {
        Ok(Some(internal_contract(context, fp, memory)?))
    } else {
        Ok(None)
    }
}

/// The id of the transaction: the first 32 bytes of memory.
pub fn tx_id(memory: &VmMemory) -> (r: Bytes32)
    requires
        memory@.len() == MEM_SIZE,
    ensures
        r@ == memory@.subrange(0, 32),
{
    memory.read_array::<32>(0)
}

/// The range of memory holding the serialized output `idx` of `tx`, whose
/// serialized copy starts at `tx_offset`: `None` when the transaction has no
/// such output, an error when the range does not fit in memory or in
/// `memory_constraint`.
pub fn absolute_output_mem_range(
    tx: &ExecutableTransaction,
    tx_offset: usize,
    idx: usize,
    memory_constraint: Option<Range<Word>>,
) -> (r: Result<Option<CheckedMemRange>, RuntimeError>)
    ensures
        !(idx < tx.spec_outputs().len() && idx < tx.spec_output_offsets().len() && encodable(
            tx.spec_outputs()[idx as int],
        )) ==> r == Ok::<
            Option<CheckedMemRange>,
            RuntimeError,
        >(None),
        idx < tx.spec_outputs().len() && idx < tx.spec_output_offsets().len() && encodable(
            tx.spec_outputs()[idx as int],
        ) ==> ({
            let start = tx_offset + tx.spec_output_offsets()[idx as int];
            let size = output_bytes(tx.spec_outputs()[idx as int]).len();
            let (lo, hi) = match memory_constraint {
                Some(c) => (c.start as int, c.end as int),
                None => (0, VM_MAX_RAM as int),
            };
            &&& r is Ok ==> (r matches Ok(Some(m)) && m.wf() && m@.start == start && m@.end
                == start + size)
            &&& hi <= VM_MAX_RAM ==> (r is Ok <==> start <= usize::MAX && range_fits(
                start,
                size as int,
                lo,
                hi,
            ))
            &&& hi <= VM_MAX_RAM && r is Err ==> r == Err::<Option<CheckedMemRange>, RuntimeError>(
                RuntimeError::Recoverable(PanicReason::MemoryOverflow),
            )
            &&& hi > VM_MAX_RAM ==> r is Err
        }),
{
    let offset = match tx.outputs_offset_at(idx) {
        Some(offset) => offset,
        None => return Ok(None),
    };
    let bytes = match tx.output_bytes_at(idx) {
        Some(b) => b,
        None => return Ok(None),
    };
    let start = match tx_offset.checked_add(offset) {
        Some(start) => start,
        None => {
            if let Some(c) = &memory_constraint {
                if c.end > VM_MAX_RAM {
                    return Err(RuntimeError::Bug(crate::error::BugVariant::InvalidMemoryConstraint));
                }
            }
            return Err(RuntimeError::Recoverable(PanicReason::MemoryOverflow));
        },
    };
    let range = match memory_constraint {
        Some(constraint) => CheckedMemRange::new_with_constraint(start as Word, bytes.len(), constraint)?,
        None => CheckedMemRange::new(start as Word, bytes.len())?,
    };
    Ok(Some(range))
}

/// Writes the serialized output `idx` of `tx` over its copy in memory.
pub fn update_memory_output(
    tx: &ExecutableTransaction,
    memory: &mut VmMemory,
    tx_offset: usize,
    idx: usize,
) -> (r: Result<(), RuntimeError>)
    requires
        old(memory)@.len() == MEM_SIZE,
    ensures
        final(memory)@.len() == MEM_SIZE,
        !(idx < tx.spec_outputs().len() && idx < tx.spec_output_offsets().len() && encodable(
            tx.spec_outputs()[idx as int],
        )) ==> r
            == Err::<(), RuntimeError>(RuntimeError::Recoverable(PanicReason::OutputNotFound)),
        idx < tx.spec_outputs().len() && idx < tx.spec_output_offsets().len() && encodable(
            tx.spec_outputs()[idx as int],
        ) ==> ({
            let start = tx_offset + tx.spec_output_offsets()[idx as int];
            let bytes = output_bytes(tx.spec_outputs()[idx as int]);
            &&& r is Ok <==> start <= usize::MAX && range_fits(
                start,
                bytes.len() as int,
                0,
                VM_MAX_RAM as int,
            )
            &&& r is Ok ==> final(memory)@ == written(old(memory)@, start, bytes)
            &&& r is Err ==> r == Err::<(), RuntimeError>(
                RuntimeError::Recoverable(PanicReason::MemoryOverflow),
            )
        }),
        r is Err ==> final(memory)@ == old(memory)@,
{
    let range = match absolute_output_mem_range(tx, tx_offset, idx, None)? {
        Some(range) => range,
        None => return Err(RuntimeError::Recoverable(PanicReason::OutputNotFound)),
    };
    let bytes = match tx.output_bytes_at(idx) {
        Some(b) => b,
        None => return Err(RuntimeError::Recoverable(PanicReason::OutputNotFound)),
    };
    memory.write_unchecked(range.start(), bytes.as_slice());
    Ok(())
}

/// Puts the variable output `variable` in place of the empty variable
/// output `idx`, in the transaction and in its serialized copy in memory.
pub fn set_variable_output(
    tx: &mut ExecutableTransaction,
    memory: &mut VmMemory,
    tx_offset: usize,
    idx: usize,
    variable: Output,
) -> (r: Result<(), RuntimeError>)
    requires
        old(memory)@.len() == MEM_SIZE,
    ensures
        final(memory)@.len() == MEM_SIZE,
        !(variable is Variable) ==> r == Err::<(), RuntimeError>(
            RuntimeError::Recoverable(PanicReason::ExpectedOutputVariable),
        ) && *final(tx) == *old(tx) && final(memory)@ == old(memory)@,
        variable is Variable && !(idx < old(tx).spec_outputs().len()
            && crate::transaction::is_empty_variable(old(tx).spec_outputs()[idx as int])) ==> r
            == Err::<(), RuntimeError>(RuntimeError::Recoverable(PanicReason::OutputNotFound))
            && *final(tx) == *old(tx) && final(memory)@ == old(memory)@,
        r is Ok <==> variable is Variable && idx < old(tx).spec_outputs().len()
            && crate::transaction::is_empty_variable(old(tx).spec_outputs()[idx as int]) && idx < old(
            tx,
        ).spec_output_offsets().len() && tx_offset + old(tx).spec_output_offsets()[idx as int]
            <= usize::MAX && range_fits(
            tx_offset + old(tx).spec_output_offsets()[idx as int],
            output_bytes(variable).len() as int,
            0,
            VM_MAX_RAM as int,
        ),
        r is Ok ==> final(tx).spec_outputs() == old(tx).spec_outputs().update(idx as int, variable)
            && final(memory)@ == written(
            old(memory)@,
            tx_offset + old(tx).spec_output_offsets()[idx as int],
            output_bytes(variable),
        ),
        final(tx).same_but_outputs(old(tx)),
{
    match tx.replace_variable_output(idx, variable) {
        Ok(()) => {},
        Err(reason) => return Err(RuntimeError::Recoverable(reason)),
    }
    proof {
        assert(tx.spec_outputs()[idx as int] == variable);
        assert(tx.spec_output_offsets() == old(tx).spec_output_offsets());
    }
    update_memory_output(tx, memory, tx_offset, idx)
}

/// Reduces the free balance of `asset_id` by `value`; fails when the
/// balance is missing or too small.
pub fn external_asset_id_balance_sub(balances: &mut AssetBalances, asset_id: &AssetId, value: Word) -> (r:
    Result<(), RuntimeError>)
    ensures
        r is Ok <==> (balance_of(old(balances).entries@, asset_id@) matches Some(b) && b >= value),
        r is Ok ==> balance_of(final(balances).entries@, asset_id@) == Some(
            (balance_of(old(balances).entries@, asset_id@)->0 - value) as Word,
        ),
        r is Err ==> r == Err::<(), RuntimeError>(
            RuntimeError::Recoverable(PanicReason::NotEnoughBalance),
        ) && final(balances).entries@ == old(balances).entries@,
{
    if balances.checked_balance_sub(asset_id, value) {
        Ok(())
    } else {
        Err(RuntimeError::Recoverable(PanicReason::NotEnoughBalance))
    }
}

/// Reduces the free balance of the base asset by `value`; fails when the
/// balance is missing or too small.
pub fn base_asset_balance_sub(balances: &mut AssetBalances, value: Word) -> (r: Result<(), RuntimeError>)
    ensures
        r is Ok <==> (balance_of(old(balances).entries@, base_asset()) matches Some(b) && b >= value),
        r is Ok ==> balance_of(final(balances).entries@, base_asset()) == Some(
            (balance_of(old(balances).entries@, base_asset())->0 - value) as Word,
        ),
        r is Err ==> r == Err::<(), RuntimeError>(
            RuntimeError::Recoverable(PanicReason::NotEnoughBalance),
        ) && final(balances).entries@ == old(balances).entries@,
{
    let base = [0u8; 32];
    assert(base@ =~= base_asset());
    external_asset_id_balance_sub(balances, &base, value)
}

/// Where an instruction was executed: the running contract, if any, and
/// the offset of the instruction from the start of the current code.
#[derive(Clone, Copy, Debug, PartialEq, Eq)]
pub struct InstructionLocation {
    /// The running contract; `None` while a script runs.
    pub context: Option<ContractId>,
    /// Offset from the instruction-start register.
    pub offset: u64,
}

/// The location of the instruction at `pc` in the code that starts at `is`.
pub fn current_location(current_contract: Option<ContractId>, pc: Word, is: Word) -> (r:
    InstructionLocation)
    requires
        is <= pc,
    ensures
        r.context == current_contract,
        r.offset == pc - is,
{
    InstructionLocation { context: current_contract, offset: pc - is }
}

/// Initial balances that a checked transaction carries.
pub trait CheckedMetadata: Sized {
    /// The initial balances.
    spec fn spec_balances(&self) -> InitialBalances;

    /// The gas used by the predicates.
    spec fn spec_gas_used_by_predicates(&self) -> Word;

    /// The initial balances of the transaction.
    fn balances(self) -> (r: InitialBalances)
        ensures
            r == self.spec_balances(),
    ;

    /// The gas used by the predicates; zero until they were checked.
    fn gas_used_by_predicates(&self) -> (r: Word)
        ensures
            r == self.spec_gas_used_by_predicates(),
    ;

    /// Records the gas used by the predicates after checking them.
    fn set_gas_used_by_predicates(&mut self, gas_used: Word)
        ensures
            final(self).spec_gas_used_by_predicates() == gas_used,
            final(self).spec_balances() == old(self).spec_balances(),
    ;
}

/// What checking a script transaction yields.
#[derive(Clone, Debug)]
pub struct ScriptCheckedMetadata {
    /// Free balances that cannot be retried.
    pub non_retryable_balances: AssetBalances,
    /// The retryable amount.
    pub retryable_balance: Word,
    /// Gas used by the predicates.
    pub gas_used_by_predicates: Word,
}

/// What checking a create transaction yields.
#[derive(Clone, Debug)]
pub struct CreateCheckedMetadata {
    /// The free balances.
    pub free_balances: AssetBalances,
    /// Gas used by the predicates.
    pub gas_used_by_predicates: Word,
}

impl CheckedMetadata for ScriptCheckedMetadata {
    open spec fn spec_balances(&self) -> InitialBalances {
        InitialBalances {
            non_retryable: self.non_retryable_balances,
            retryable: Some(self.retryable_balance),
        }
    }

    open spec fn spec_gas_used_by_predicates(&self) -> Word {
        self.gas_used_by_predicates
    }

    fn balances(self) -> (r: InitialBalances) {
        InitialBalances {
            non_retryable: self.non_retryable_balances,
            retryable: Some(self.retryable_balance),
        }
    }

    fn gas_used_by_predicates(&self) -> (r: Word) {
        self.gas_used_by_predicates
    }

    fn set_gas_used_by_predicates(&mut self, gas_used: Word) {
        self.gas_used_by_predicates = gas_used;
    }
}

impl CheckedMetadata for CreateCheckedMetadata {
    open spec fn spec_balances(&self) -> InitialBalances {
        InitialBalances { non_retryable: self.free_balances, retryable: None }
    }

    open spec fn spec_gas_used_by_predicates(&self) -> Word {
        self.gas_used_by_predicates
    }

    fn balances(self) -> (r: InitialBalances) {
        InitialBalances { non_retryable: self.free_balances, retryable: None }
    }

    fn gas_used_by_predicates(&self) -> (r: Word) {
        self.gas_used_by_predicates
    }

    fn set_gas_used_by_predicates(&mut self, gas_used: Word) {
        self.gas_used_by_predicates = gas_used;
    }
}

/// The ownership registers of a frame with the given registers and
/// context, whose heap reaches the end of memory.
pub open spec fn ownership_of(
    registers: Seq<Word>,
    context: Context,
    tx_offset: usize,
    tx_size: usize,
) -> OwnershipRegisters {
    OwnershipRegisters {
        tx_start: tx_offset as Word,
        tx_end: if tx_offset + tx_size <= u64::MAX {
            (tx_offset + tx_size) as Word
        } else {
            u64::MAX
        },
        sp: registers[REG_SP as int],
        ssp: registers[REG_SSP as int],
        hp: registers[REG_HP as int],
        prev_hp: VM_MAX_RAM,
        context,
    }
}

/// Whether the stack and heap registers are ordered:
/// `SSP <= SP <= HP <= VM_MAX_RAM`.
pub open spec fn stack_ordered(registers: Seq<Word>) -> bool {
    &&& registers[REG_SSP as int] <= registers[REG_SP as int]
    &&& registers[REG_SP as int] <= registers[REG_HP as int]
    &&& registers[REG_HP as int] <= VM_MAX_RAM
}

/// The state of the VM executing a transaction.
pub struct Interpreter<S> {
    registers: [Word; VM_REGISTER_COUNT],
    memory: VmMemory,
    receipts: Vec<Vec<u8>>,
    tx: ExecutableTransaction,
    initial_balances: InitialBalances,
    storage: S,
    context: Context,
    params: ConsensusParameters,
    tx_size: usize,
}

impl<S> Interpreter<S> {
    /// The registers.
    pub closed spec fn spec_registers(&self) -> Seq<Word> {
        self.registers@
    }

    /// The memory.
    pub closed spec fn spec_memory(&self) -> Seq<u8> {
        self.memory@
    }

    /// The receipts, serialized.
    pub closed spec fn spec_receipts(&self) -> Seq<Seq<u8>> {
        data_view(self.receipts@)
    }

    /// The transaction.
    pub closed spec fn spec_tx(&self) -> ExecutableTransaction {
        self.tx
    }

    /// Length of the serialized transaction in memory.
    pub closed spec fn spec_tx_size(&self) -> usize {
        self.tx_size
    }

    /// The free balances of the transaction before execution.
    pub closed spec fn spec_initial_balances(&self) -> InitialBalances {
        self.initial_balances
    }

    /// The storage.
    pub closed spec fn spec_storage(&self) -> S {
        self.storage
    }

    /// The execution context.
    pub closed spec fn spec_context(&self) -> Context {
        self.context
    }

    /// The consensus parameters.
    pub closed spec fn spec_params(&self) -> ConsensusParameters {
        self.params
    }

    /// Whether `self` has the storage, initial balances, context and
    /// parameters of `before`.
    pub open spec fn keeps_environment(&self, before: &Self) -> bool {
        &&& self.spec_storage() == before.spec_storage()
        &&& self.spec_initial_balances() == before.spec_initial_balances()
        &&& self.spec_context() == before.spec_context()
        &&& self.spec_params() == before.spec_params()
        &&& self.spec_tx_size() == before.spec_tx_size()
    }

    /// A VM with zeroed registers and memory, about to run `tx` in
    /// `context`; the serialized transaction takes `tx_size` bytes from
    /// `params.tx_offset` on.
    pub fn new(
        storage: S,
        tx: ExecutableTransaction,
        initial_balances: InitialBalances,
        params: ConsensusParameters,
        context: Context,
        tx_size: usize,
    ) -> (r: Self)
        ensures
            r.spec_tx_size() == tx_size,
            r.spec_registers() == Seq::new(VM_REGISTER_COUNT as nat, |i: int| 0u64),
            r.spec_memory() == Seq::new(MEM_SIZE as nat, |i: int| 0u8),
            r.spec_receipts() == Seq::<Seq<u8>>::empty(),
            r.spec_tx() == tx,
            r.spec_storage() == storage,
            r.spec_initial_balances() == initial_balances,
            r.spec_context() == context,
            r.spec_params() == params,
    {
        let registers = [0u64; VM_REGISTER_COUNT];
        let receipts: Vec<Vec<u8>> = Vec::new();
        let r = Interpreter {
            registers,
            memory: VmMemory::new(),
            receipts,
            tx,
            initial_balances,
            storage,
            context,
            params,
            tx_size,
        };
        assert(r.spec_registers() =~= Seq::new(VM_REGISTER_COUNT as nat, |i: int| 0u64));
        assert(r.spec_receipts() =~= Seq::<Seq<u8>>::empty());
        r
    }

    /// Sets register `reg` to `value`.
    pub fn set_register(&mut self, reg: usize, value: Word)
        requires
            reg < VM_REGISTER_COUNT,
        ensures
            final(self).keeps_environment(old(self)),
            final(self).spec_registers() == old(self).spec_registers().update(reg as int, value),
            final(self).spec_memory() == old(self).spec_memory(),
            final(self).spec_context() == old(self).spec_context(),
            final(self).spec_tx() == old(self).spec_tx(),
            final(self).spec_receipts() == old(self).spec_receipts(),
            final(self).spec_params() == old(self).spec_params(),
    {
        self.registers[reg] = value;
    }

    /// The memory.
    pub fn memory(&self) -> (r: &[u8])
        ensures
            r@ == self.spec_memory(),
    {
        self.memory.as_slice()
    }

    /// The registers.
    pub fn registers(&self) -> (r: &[Word])
        ensures
            r@ == self.spec_registers(),
    {
        self.registers.as_slice()
    }

    /// The transaction.
    pub fn transaction(&self) -> (r: &ExecutableTransaction)
        ensures
            *r == self.spec_tx(),
    {
        &self.tx
    }

    /// The free balances of the transaction before execution.
    pub fn initial_balances(&self) -> (r: &InitialBalances)
        ensures
            *r == self.spec_initial_balances(),
    {
        &self.initial_balances
    }

    /// The consensus parameters.
    pub fn params(&self) -> (r: &ConsensusParameters)
        ensures
            *r == self.spec_params(),
    {
        &self.params
    }

    /// The receipts, serialized, in the order they were produced.
    pub fn receipts(&self) -> (r: &Vec<Vec<u8>>)
        ensures
            data_view(r@) == self.spec_receipts(),
    {
        &self.receipts
    }

    /// The storage.
    pub fn storage(&self) -> (r: &S)
        ensures
            *r == self.spec_storage(),
    {
        &self.storage
    }

    /// The execution context.
    pub fn context(&self) -> (r: &Context)
        ensures
            *r == self.spec_context(),
    {
        &self.context
    }

    /// Whether the context is external: a script or a predicate.
    pub fn is_external_context(&self) -> (r: bool)
        ensures
            r == self.spec_context().spec_is_external(),
    {
        self.context.is_external()
    }

    /// Whether a predicate is running.
    pub fn is_predicate(&self) -> (r: bool)
        ensures
            r == (self.spec_context() is Predicate),
    {
        matches!(self.context, Context::Predicate { .. })
    }

    /// Offset of the serialized transaction in memory.
    pub fn tx_offset(&self) -> (r: usize)
        ensures
            r == self.spec_params().tx_offset,
    {
        self.params.tx_offset
    }

    /// The block height of the context.
    pub fn get_block_height(&self) -> (r: Result<u32, PanicReason>)
        ensures
            r == Ok::<u32, PanicReason>(self.spec_context().spec_block_height()),
    {
        match self.context.block_height() {
            Some(h) => Ok(h),
            None => Err(PanicReason::TransactionValidity),
        }
    }

    /// The id of the running contract; fails outside a contract context.
    pub fn internal_contract(&self) -> (r: Result<ContractId, RuntimeError>)
        requires
            self.spec_memory().len() == MEM_SIZE,
        ensures
            self.spec_context().spec_is_external() ==> r == Err::<ContractId, RuntimeError>(
                RuntimeError::Recoverable(PanicReason::ExpectedInternalContext),
            ),
            !self.spec_context().spec_is_external() ==> (r is Ok <==> range_fits(
                self.spec_registers()[REG_FP as int] as int,
                32,
                0,
                VM_MAX_RAM as int,
            )),
            !self.spec_context().spec_is_external() && r is Err ==> r == Err::<ContractId, RuntimeError>(
                RuntimeError::Recoverable(PanicReason::MemoryOverflow),
            ),
            r matches Ok(id) ==> id@ == self.spec_memory().subrange(
                self.spec_registers()[REG_FP as int] as int,
                self.spec_registers()[REG_FP as int] + 32,
            ),
    {
        internal_contract(&self.context, self.registers[REG_FP], &self.memory)
    }

    /// Reserves `len` bytes on the stack by moving the stack-start pointer,
    /// and returns where the reserved bytes start. In a contract context the
    /// stack-start pointer may not pass the stack pointer; it may never pass
    /// the heap pointer.
    pub fn reserve_stack(&mut self, len: Word) -> (r: Result<Word, RuntimeError>)
        ensures
            final(self).keeps_environment(old(self)),
            ({
                let regs = old(self).spec_registers();
                let ssp = regs[REG_SSP as int] + len;
                &&& r is Ok <==> ssp <= u64::MAX && ssp <= regs[REG_HP as int] && (
                !old(self).spec_context().spec_is_external() ==> ssp <= regs[REG_SP as int])
                &&& r matches Ok(start) ==> start == regs[REG_SSP as int]
                    && final(self).spec_registers() == regs.update(REG_SSP as int, ssp as Word)
                &&& r is Err ==> r == Err::<Word, RuntimeError>(
                    RuntimeError::Recoverable(PanicReason::MemoryOverflow),
                ) && final(self).spec_registers() == regs
                &&& !old(self).spec_context().spec_is_external() && stack_ordered(regs) ==> stack_ordered(
                    final(self).spec_registers(),
                )
            }),
            final(self).spec_memory() == old(self).spec_memory(),
            final(self).spec_context() == old(self).spec_context(),
            final(self).spec_tx() == old(self).spec_tx(),
            final(self).spec_receipts() == old(self).spec_receipts(),
            final(self).spec_params() == old(self).spec_params(),
    {
        let ssp = match self.registers[REG_SSP].checked_add(len) {
            Some(v) => v,
            None => return Err(RuntimeError::Recoverable(PanicReason::MemoryOverflow)),
        };
        if ssp > self.registers[REG_HP] || (!self.is_external_context() && ssp
            > self.registers[REG_SP]) {
            return Err(RuntimeError::Recoverable(PanicReason::MemoryOverflow));
        }
        let start = self.registers[REG_SSP];
        self.registers[REG_SSP] = ssp;
        Ok(start)
    }

    /// Reserves room for `data` on the stack and writes it there.
    pub fn push_stack(&mut self, data: &[u8]) -> (r: Result<(), RuntimeError>)
        requires
            old(self).spec_memory().len() == MEM_SIZE,
            old(self).spec_registers()[REG_HP as int] <= VM_MAX_RAM,
        ensures
            final(self).keeps_environment(old(self)),
            ({
                let regs = old(self).spec_registers();
                let ssp = regs[REG_SSP as int] + data@.len();
                &&& r is Ok <==> ssp <= regs[REG_HP as int] && (
                !old(self).spec_context().spec_is_external() ==> ssp <= regs[REG_SP as int])
                &&& r is Ok ==> final(self).spec_registers() == regs.update(REG_SSP as int, ssp as Word)
                    && final(self).spec_memory() == written(
                    old(self).spec_memory(),
                    regs[REG_SSP as int] as int,
                    data@,
                )
                &&& r is Err ==> r == Err::<(), RuntimeError>(
                    RuntimeError::Recoverable(PanicReason::MemoryOverflow),
                ) && final(self).spec_registers() == regs && final(self).spec_memory()
                    == old(self).spec_memory()
            }),
            final(self).spec_memory().len() == MEM_SIZE,
            final(self).spec_context() == old(self).spec_context(),
            final(self).spec_tx() == old(self).spec_tx(),
            final(self).spec_receipts() == old(self).spec_receipts(),
            final(self).spec_params() == old(self).spec_params(),
    {
        let start = self.reserve_stack(data.len() as Word)?;
        self.memory.write_unchecked(start as usize, data);
        Ok(())
    }

    /// Sets the flag register to `a`, which must set only known flags, then
    /// moves the program counter on.
    pub fn set_flag(&mut self, a: Word) -> (r: Result<(), RuntimeError>)
        ensures
            final(self).keeps_environment(old(self)),
            ({
                let regs = old(self).spec_registers();
                let pc = regs[REG_PC as int];
                &&& a & !FLAGS_MASK != 0 ==> r == Err::<(), RuntimeError>(
                    RuntimeError::Recoverable(PanicReason::ErrorFlag),
                ) && final(self).spec_registers() == regs
                &&& a & !FLAGS_MASK == 0 && pc + INSTRUCTION_SIZE <= u64::MAX ==> r is Ok
                    && final(self).spec_registers() == regs.update(REG_FLAG as int, a).update(
                    REG_PC as int,
                    (pc + INSTRUCTION_SIZE) as Word,
                )
                &&& a & !FLAGS_MASK == 0 && pc + INSTRUCTION_SIZE > u64::MAX ==> r
                    == Err::<(), RuntimeError>(
                    RuntimeError::Recoverable(PanicReason::ArithmeticOverflow),
                ) && final(self).spec_registers() == regs.update(REG_FLAG as int, a)
            }),
            final(self).spec_memory() == old(self).spec_memory(),
            final(self).spec_context() == old(self).spec_context(),
            final(self).spec_tx() == old(self).spec_tx(),
            final(self).spec_receipts() == old(self).spec_receipts(),
            final(self).spec_params() == old(self).spec_params(),
    {
        let mut flag = self.registers[REG_FLAG];
        let mut pc = self.registers[REG_PC];
        let r = set_flag(&mut flag, &mut pc, a);
        self.registers[REG_FLAG] = flag;
        self.registers[REG_PC] = pc;
        proof {
            if a & !FLAGS_MASK != 0 {
                assert(self.registers@ =~= old(self).registers@);
            }
        }
        r
    }

    /// Appends a serialized receipt; for a script transaction, the Merkle
    /// root of the receipts is then written both into the transaction and
    /// into its serialized copy in memory.
    pub fn append_receipt(&mut self, receipt: Vec<u8>)
        requires
            old(self).spec_memory().len() == MEM_SIZE,
            old(self).spec_tx() matches ExecutableTransaction::Script(s) ==> old(
                self,
            ).spec_params().tx_offset + s.receipts_root_offset + BYTES32_LEN <= MEM_SIZE,
        ensures
            final(self).keeps_environment(old(self)),
            final(self).spec_receipts() == old(self).spec_receipts().push(receipt@),
            final(self).spec_memory().len() == MEM_SIZE,
            final(self).spec_registers() == old(self).spec_registers(),
            final(self).spec_context() == old(self).spec_context(),
            final(self).spec_params() == old(self).spec_params(),
            old(self).spec_tx() is Create ==> final(self).spec_tx() == old(self).spec_tx()
                && final(self).spec_memory() == old(self).spec_memory(),
            old(self).spec_tx() matches ExecutableTransaction::Script(s) ==> ({
                let root = tree_root(leaf_hashes(final(self).spec_receipts()));
                &&& final(self).spec_tx() matches ExecutableTransaction::Script(t) && t.receipts_root@
                    == root && t.outputs@ == s.outputs@ && t.price == s.price
                    && t.receipts_root_offset == s.receipts_root_offset
                &&& final(self).spec_memory() == written(
                    old(self).spec_memory(),
                    old(self).spec_params().tx_offset + s.receipts_root_offset,
                    root,
                )
            }),
    {
        self.receipts.push(receipt);
        proof {
            assert(data_view(self.receipts@) =~= data_view(old(self).receipts@).push(receipt@));
        }
        let offset = self.params.tx_offset;
        match &mut self.tx {
            ExecutableTransaction::Script(script) => {
                let at = offset + script.receipts_root_offset;
                let root = merkle_root(&self.receipts);
                script.receipts_root = root;
                self.memory.write_unchecked(at, root.as_slice());
            },
            ExecutableTransaction::Create(_) => {},
        }
    }

    /// The registers that decide which memory the current frame owns. The
    /// call frames are kept by the caller, so the heap of this frame
    /// reaches the end of memory; the transaction is the serialized one.
    pub fn ownership_registers(&self) -> (r: OwnershipRegisters)
        ensures
            r == ownership_of(
                self.spec_registers(),
                self.spec_context(),
                self.spec_params().tx_offset,
                self.spec_tx_size(),
            ),
    {
        let tx_start = self.params.tx_offset as Word;
        let tx_end = match tx_start.checked_add(self.tx_size as Word) {
            Some(end) => end,
            None => u64::MAX,
        };
        OwnershipRegisters {
            sp: self.registers[REG_SP],
            ssp: self.registers[REG_SSP],
            hp: self.registers[REG_HP],
            prev_hp: VM_MAX_RAM,
            context: self.context,
            tx_start,
            tx_end,
        }
    }

    /// Runs the SHA-256 instruction on the VM's memory and program counter.
    pub fn sha256(&mut self, a: Word, b: Word, c: Word) -> (r: Result<(), RuntimeError>)
        requires
            old(self).spec_memory().len() == MEM_SIZE,
        ensures
            final(self).keeps_environment(old(self)),
            final(self).spec_memory().len() == MEM_SIZE,
            final(self).spec_registers() == old(self).spec_registers().update(
                REG_PC as int,
                final(self).spec_registers()[REG_PC as int],
            ),
            hash_instruction_done(
                old(self).spec_memory(),
                final(self).spec_memory(),
                ownership_of(
                    old(self).spec_registers(),
                    old(self).spec_context(),
                    old(self).spec_params().tx_offset,
                    old(self).spec_tx_size(),
                ),
                old(self).spec_registers()[REG_PC as int],
                final(self).spec_registers()[REG_PC as int],
                a,
                b,
                c,
                sha256_of(old(self).spec_memory().subrange(b as int, b + c)),
                r,
            ),
    {
        let owner = self.ownership_registers();
        let mut pc = self.registers[REG_PC];
        let r = sha256_instruction(&mut self.memory, owner, &mut pc, a, b, c);
        self.registers[REG_PC] = pc;
        assert(self.registers@ =~= old(self).registers@.update(REG_PC as int, pc));
        r
    }

    /// Runs the Keccak-256 instruction on the VM's memory and program
    /// counter.
    pub fn keccak256(&mut self, a: Word, b: Word, c: Word) -> (r: Result<(), RuntimeError>)
        requires
            old(self).spec_memory().len() == MEM_SIZE,
        ensures
            final(self).keeps_environment(old(self)),
            final(self).spec_memory().len() == MEM_SIZE,
            final(self).spec_registers() == old(self).spec_registers().update(
                REG_PC as int,
                final(self).spec_registers()[REG_PC as int],
            ),
            hash_instruction_done(
                old(self).spec_memory(),
                final(self).spec_memory(),
                ownership_of(
                    old(self).spec_registers(),
                    old(self).spec_context(),
                    old(self).spec_params().tx_offset,
                    old(self).spec_tx_size(),
                ),
                old(self).spec_registers()[REG_PC as int],
                final(self).spec_registers()[REG_PC as int],
                a,
                b,
                c,
                keccak256_of(old(self).spec_memory().subrange(b as int, b + c)),
                r,
            ),
    {
        let owner = self.ownership_registers();
        let mut pc = self.registers[REG_PC];
        let r = keccak256(&mut self.memory, owner, &mut pc, a, b, c);
        self.registers[REG_PC] = pc;
        assert(self.registers@ =~= old(self).registers@.update(REG_PC as int, pc));
        r
    }

    /// Runs the public key recovery instruction on the VM's memory, error
    /// register and program counter.
    pub fn ecrecover(&mut self, a: Word, b: Word, c: Word) -> (r: Result<(), RuntimeError>)
        requires
            old(self).spec_memory().len() == MEM_SIZE,
        ensures
            final(self).keeps_environment(old(self)),
            final(self).spec_memory().len() == MEM_SIZE,
            final(self).spec_registers() == old(self).spec_registers().update(
                REG_PC as int,
                final(self).spec_registers()[REG_PC as int],
            ).update(REG_ERR as int, final(self).spec_registers()[REG_ERR as int]),
            recover_instruction_done(
                old(self).spec_memory(),
                final(self).spec_memory(),
                ownership_of(
                    old(self).spec_registers(),
                    old(self).spec_context(),
                    old(self).spec_params().tx_offset,
                    old(self).spec_tx_size(),
                ),
                old(self).spec_registers()[REG_PC as int],
                final(self).spec_registers()[REG_PC as int],
                old(self).spec_registers()[REG_ERR as int],
                final(self).spec_registers()[REG_ERR as int],
                a,
                b,
                c,
                r,
            ),
    {
        let owner = self.ownership_registers();
        let mut pc = self.registers[REG_PC];
        let mut err = self.registers[REG_ERR];
        let r = ecrecover(&mut self.memory, owner, &mut err, &mut pc, a, b, c);
        self.registers[REG_PC] = pc;
        self.registers[REG_ERR] = err;
        assert(self.registers@ =~= old(self).registers@.update(REG_PC as int, pc).update(
            REG_ERR as int,
            err,
        ));
        r
    }

    /// Writes the serialized output `idx` of the transaction over its copy
    /// in memory.
    pub fn update_memory_output(&mut self, idx: usize) -> (r: Result<(), RuntimeError>)
        requires
            old(self).spec_memory().len() == MEM_SIZE,
        ensures
            final(self).keeps_environment(old(self)),
            final(self).spec_memory().len() == MEM_SIZE,
            ({
                let tx = old(self).spec_tx();
                let has_output = idx < tx.spec_outputs().len() && idx
                    < tx.spec_output_offsets().len() && encodable(tx.spec_outputs()[idx as int]);
                let start = old(self).spec_params().tx_offset + tx.spec_output_offsets()[idx as int];
                let size = output_bytes(tx.spec_outputs()[idx as int]).len();
                &&& !has_output ==> r == Err::<(), RuntimeError>(
                    RuntimeError::Recoverable(PanicReason::OutputNotFound),
                )
                &&& has_output ==> (r is Ok <==> start <= usize::MAX && range_fits(
                    start,
                    size as int,
                    0,
                    VM_MAX_RAM as int,
                ))
                &&& has_output && r is Err ==> r == Err::<(), RuntimeError>(
                    RuntimeError::Recoverable(PanicReason::MemoryOverflow),
                )
            }),
            r is Err ==> final(self).spec_memory() == old(self).spec_memory(),
            r is Ok ==> final(self).spec_memory() == written(
                old(self).spec_memory(),
                old(self).spec_params().tx_offset + old(self).spec_tx().spec_output_offsets()[idx as int],
                output_bytes(old(self).spec_tx().spec_outputs()[idx as int]),
            ),
            final(self).spec_tx() == old(self).spec_tx(),
            final(self).spec_registers() == old(self).spec_registers(),
    {
        update_memory_output(&self.tx, &mut self.memory, self.params.tx_offset, idx)
    }
}

} // verus!
