use fuel_vm_core::consts::{REG_ERR, REG_FLAG, REG_FP, REG_HP, REG_PC, REG_SP, REG_SSP};
use fuel_vm_core::crypto::{ecrecover, keccak256, sha256_instruction};
use fuel_vm_core::error::{PanicReason, RuntimeError};
use fuel_vm_core::interpreter::{
    absolute_output_mem_range, base_asset_balance_sub, clear_err, current_contract,
    external_asset_id_balance_sub, inc_pc, internal_contract, internal_contract_or_default,
    is_unsafe_math, is_wrapping, set_err, set_flag, set_variable_output, tx_id,
    update_memory_output, current_location, CheckedMetadata, CreateCheckedMetadata, Interpreter,
    ScriptCheckedMetadata,
};
use fuel_vm_core::memory::{mem, Context, OwnershipRegisters, VmMemory};
use fuel_vm_core::merkle::{leaf_sum, merkle_root};
use fuel_vm_core::transaction::{
    AssetBalances, ConsensusParameters, ExecutableTransaction, InitialBalances, Output, Script,
};

fn hex(bytes: &[u8]) -> String {
    bytes.iter().map(|b| format!("{:02x}", b)).collect()
}

fn vm(context: Context) -> Interpreter<()> {
    let tx = ExecutableTransaction::Script(Script {
        script: vec![],
        script_data: vec![],
        outputs: vec![],
        receipts_root: [0u8; 32],
        receipts_root_offset: 8,
        output_offsets: vec![],
        price: 0,
    });
    let initial = InitialBalances { non_retryable: AssetBalances { entries: vec![] }, retryable: None };
    let params = ConsensusParameters { gas_price_factor: 1, tx_offset: 100 };
    Interpreter::new((), tx, initial, params, context, 64)
}

const OVERFLOW: RuntimeError = RuntimeError::Recoverable(PanicReason::MemoryOverflow);

#[test]
fn pc_moves_by_one_instruction() {
    let mut pc = 8;
    assert_eq!(inc_pc(&mut pc), Ok(()));
    assert_eq!(pc, 12);
    let mut pc = u64::MAX - 2;
    assert_eq!(inc_pc(&mut pc), Err(RuntimeError::Recoverable(PanicReason::ArithmeticOverflow)));
    assert_eq!(pc, u64::MAX - 2);
}

#[test]
fn flags_accept_known_bits_only() {
    let (mut flag, mut pc) = (0, 0);
    assert_eq!(set_flag(&mut flag, &mut pc, 3), Ok(()));
    assert_eq!((flag, pc), (3, 4));
    assert!(is_wrapping(flag) && is_unsafe_math(flag));
    assert_eq!(set_flag(&mut flag, &mut pc, 4), Err(RuntimeError::Recoverable(PanicReason::ErrorFlag)));
    assert_eq!((flag, pc), (3, 4));
    assert_eq!(set_flag(&mut flag, &mut pc, 2), Ok(()));
    assert!(is_wrapping(flag) && !is_unsafe_math(flag));

    let mut vm = vm(Context::Script { block_height: 0 });
    assert_eq!(vm.set_flag(1), Ok(()));
    assert_eq!(vm.registers()[REG_FLAG], 1);
    assert_eq!(vm.registers()[REG_PC], 4);
    assert!(vm.set_flag(8).is_err());
    assert_eq!(vm.registers()[REG_FLAG], 1);
}

#[test]
fn err_register() {
    let mut err = 5;
    set_err(&mut err);
    assert_eq!(err, 1);
    clear_err(&mut err);
    assert_eq!(err, 0);
}

#[test]
fn stack_reservation_in_a_contract_stays_below_sp() {
    let mut vm = vm(Context::Call { block_height: 0 });
    vm.set_register(REG_SSP, 10);
    vm.set_register(REG_SP, 20);
    vm.set_register(REG_HP, 100);
    assert_eq!(vm.reserve_stack(10), Ok(10));
    assert_eq!(vm.registers()[REG_SSP], 20);
    assert_eq!(vm.reserve_stack(1), Err(OVERFLOW));
    assert_eq!(vm.registers()[REG_SSP], 20);
    assert_eq!(vm.reserve_stack(u64::MAX), Err(OVERFLOW));
}

#[test]
fn stack_push_in_a_script_writes_the_data() {
    let mut vm = vm(Context::Script { block_height: 0 });
    vm.set_register(REG_SSP, 10);
    vm.set_register(REG_SP, 10);
    vm.set_register(REG_HP, 14);
    assert_eq!(vm.push_stack(&[1, 2, 3]), Ok(()));
    assert_eq!(vm.registers()[REG_SSP], 13);
    assert_eq!(&vm.memory()[10..13], &[1, 2, 3]);
    assert_eq!(vm.push_stack(&[1, 2]), Err(OVERFLOW));
    assert_eq!(vm.registers()[REG_SSP], 13);
}

#[test]
fn contract_id_is_read_at_the_frame_pointer() {
    let memory = mem(&[&[3u8; 32], &[4u8; 32]]);
    let call = Context::Call { block_height: 0 };
    let script = Context::Script { block_height: 0 };
    assert_eq!(internal_contract(&call, 32, &memory), Ok([4u8; 32]));
    assert_eq!(
        internal_contract(&script, 0, &memory),
        Err(RuntimeError::Recoverable(PanicReason::ExpectedInternalContext))
    );
    assert_eq!(internal_contract(&call, u64::MAX, &memory), Err(OVERFLOW));
    assert_eq!(internal_contract_or_default(&script, 0, &memory), [0u8; 32]);
    assert_eq!(current_contract(&script, 0, &memory), Ok(None));
    assert_eq!(current_contract(&call, 0, &memory), Ok(Some([3u8; 32])));
    assert_eq!(tx_id(&memory), [3u8; 32]);

    let mut vm = vm(Context::Call { block_height: 7 });
    vm.set_register(REG_FP, 0);
    assert_eq!(vm.internal_contract(), Ok([0u8; 32]));
    assert_eq!(vm.get_block_height(), Ok(7));
    assert!(!vm.is_external_context());
    assert!(!vm.is_predicate());
}

#[test]
fn sha256_of_memory() {
    let mut memory = mem(&[b"abc"]);
    let owner = OwnershipRegisters::test(0..0, 100..200, Context::Script { block_height: 0 });
    let mut pc = 0;
    assert_eq!(sha256_instruction(&mut memory, owner, &mut pc, 100, 0, 3), Ok(()));
    assert_eq!(
        hex(&memory.as_slice()[100..132]),
        "ba7816bf8f01cfea414140de5dae2223b00361a396177a9cb410ff61f20015ad"
    );
    assert_eq!(pc, 4);
    assert_eq!(sha256_instruction(&mut memory, owner, &mut pc, 0, 0, 3), Err(OVERFLOW));
    assert_eq!(
        sha256_instruction(&mut memory, owner, &mut pc, 100, u64::MAX, 3),
        Err(RuntimeError::Recoverable(PanicReason::ArithmeticOverflow))
    );
    assert_eq!(sha256_instruction(&mut memory, owner, &mut pc, 100, 1 << 26, 1), Err(OVERFLOW));
    assert_eq!(pc, 4);
}

#[test]
fn keccak256_of_memory() {
    let mut memory = VmMemory::new();
    let owner = OwnershipRegisters::test(0..64, 64..64, Context::Script { block_height: 0 });
    let mut pc = 0;
    assert_eq!(keccak256(&mut memory, owner, &mut pc, 0, 500, 0), Ok(()));
    assert_eq!(
        hex(&memory.as_slice()[0..32]),
        "c5d2460186f7233c927e7db2dcc703c0e500b653ca82273b7bfad8045d85a470"
    );
    assert_eq!(keccak256(&mut memory, owner, &mut pc, 40, 0, 0), Err(OVERFLOW));
    assert_eq!(pc, 4);
}

#[test]
fn ecrecover_recovers_the_signer() {
    let secret = fuel_crypto::SecretKey::try_from(&[1u8; 32][..]).unwrap();
    let message = fuel_crypto::Message::new(b"the message");
    let signature = fuel_crypto::Signature::sign(&secret, &message);
    let public = secret.public_key();

    let sig: &[u8] = &*signature;
    let msg: &[u8] = &*message;
    let mut memory = mem(&[sig, msg]);
    let owner = OwnershipRegisters::test(200..300, 300..300, Context::Script { block_height: 0 });
    let (mut err, mut pc) = (1, 0);
    assert_eq!(ecrecover(&mut memory, owner, &mut err, &mut pc, 200, 0, 64), Ok(()));
    assert_eq!(&memory.as_slice()[200..264], &public[..]);
    assert_eq!((err, pc), (0, 4));

    memory.force_write_bytes(0, &[0u8; 64]);
    assert_eq!(ecrecover(&mut memory, owner, &mut err, &mut pc, 200, 0, 64), Ok(()));
    assert_eq!(&memory.as_slice()[200..264], &[0u8; 64][..]);
    assert_eq!((err, pc), (1, 8));

    assert_eq!(ecrecover(&mut memory, owner, &mut err, &mut pc, 100, 0, 64), Err(OVERFLOW));
    assert_eq!(ecrecover(&mut memory, owner, &mut err, &mut pc, (1 << 26) - 63, 0, 64), Err(OVERFLOW));
    assert_eq!(
        ecrecover(&mut memory, owner, &mut err, &mut pc, 200, u64::MAX, 64),
        Err(RuntimeError::Recoverable(PanicReason::ArithmeticOverflow))
    );
    assert_eq!((err, pc), (1, 8));
    assert_eq!(REG_ERR, 8);
}

#[test]
fn receipts_root_is_written_to_the_script_and_memory() {
    let mut vm = vm(Context::Script { block_height: 0 });
    vm.append_receipt(vec![1, 2, 3]);
    vm.append_receipt(vec![4]);
    let expected = merkle_root(&vec![vec![1, 2, 3], vec![4]]);
    assert_ne!(expected, leaf_sum(&[4]));
    assert_eq!(vm.receipts().len(), 2);
    match vm.transaction() {
        ExecutableTransaction::Script(s) => assert_eq!(s.receipts_root, expected),
        _ => unreachable!(),
    }
    assert_eq!(&vm.memory()[108..140], &expected[..]);
}

fn tx_with_outputs(outputs: Vec<Output>, output_offsets: Vec<usize>) -> ExecutableTransaction {
    ExecutableTransaction::Script(Script {
        script: vec![],
        script_data: vec![],
        outputs,
        receipts_root: [0u8; 32],
        receipts_root_offset: 0,
        output_offsets,
        price: 0,
    })
}

#[test]
fn variable_output_is_written_to_memory() {
    let empty = Output::Variable { to: [1u8; 32], amount: 0, asset_id: [0u8; 32] };
    let mut tx = tx_with_outputs(vec![empty, empty], vec![10, 200]);
    let mut memory = VmMemory::new();
    let filled = Output::Variable { to: [1u8; 32], amount: 77, asset_id: [2u8; 32] };
    assert_eq!(set_variable_output(&mut tx, &mut memory, 1000, 1, filled), Ok(()));
    let bytes = tx.output_bytes_at(1).unwrap();
    assert_eq!(tx.outputs()[1], filled);
    assert_eq!(&memory.as_slice()[1200..1200 + bytes.len()], &bytes[..]);
    assert_eq!(memory.as_slice()[1199], 0);

    let coin = Output::Coin { to: [1u8; 32], amount: 1, asset_id: [0u8; 32] };
    assert_eq!(
        set_variable_output(&mut tx, &mut memory, 1000, 0, coin),
        Err(RuntimeError::Recoverable(PanicReason::ExpectedOutputVariable))
    );
    assert_eq!(
        set_variable_output(&mut tx, &mut memory, 1000, 1, filled),
        Err(RuntimeError::Recoverable(PanicReason::OutputNotFound))
    );
}

#[test]
fn output_ranges_follow_the_offsets() {
    let coin = Output::Coin { to: [1u8; 32], amount: 1, asset_id: [0u8; 32] };
    let tx = tx_with_outputs(vec![coin, coin], vec![0, 500]);
    let size = tx.output_bytes_at(1).unwrap().len();
    let range = absolute_output_mem_range(&tx, 100, 1, None).unwrap().unwrap();
    assert_eq!((range.start(), range.end()), (600, 600 + size));
    assert!(absolute_output_mem_range(&tx, 100, 2, None).unwrap().is_none());
    assert_eq!(absolute_output_mem_range(&tx, 100, 1, Some(0..601)).err(), Some(OVERFLOW));
    assert_eq!(absolute_output_mem_range(&tx, (1 << 26) - 1, 0, None).err(), Some(OVERFLOW));

    let tx = tx_with_outputs(vec![coin], vec![]);
    let mut memory = VmMemory::new();
    assert_eq!(
        update_memory_output(&tx, &mut memory, 0, 0),
        Err(RuntimeError::Recoverable(PanicReason::OutputNotFound))
    );
}

#[test]
fn balance_subtraction() {
    let mut balances = AssetBalances { entries: vec![([0u8; 32], 10), ([5u8; 32], 1)] };
    assert_eq!(base_asset_balance_sub(&mut balances, 4), Ok(()));
    assert_eq!(balances.get(&[0u8; 32]), Some(6));
    assert_eq!(
        base_asset_balance_sub(&mut balances, 7),
        Err(RuntimeError::Recoverable(PanicReason::NotEnoughBalance))
    );
    assert_eq!(external_asset_id_balance_sub(&mut balances, &[5u8; 32], 1), Ok(()));
    assert_eq!(balances.get(&[5u8; 32]), Some(0));
    assert_eq!(
        external_asset_id_balance_sub(&mut balances, &[6u8; 32], 0),
        Err(RuntimeError::Recoverable(PanicReason::NotEnoughBalance))
    );
}

#[test]
fn interpreter_runs_the_hash_instructions_on_its_own_state() {
    let mut vm = vm(Context::Script { block_height: 0 });
    vm.set_register(REG_SSP, 0);
    vm.set_register(REG_SP, 64);
    vm.set_register(REG_HP, 1 << 20);
    let owner = vm.ownership_registers();
    assert_eq!((owner.ssp, owner.sp, owner.hp, owner.prev_hp), (0, 64, 1 << 20, 1 << 26));
    assert_eq!(vm.keccak256(0, 100, 0), Ok(()));
    assert_eq!(
        hex(&vm.memory()[0..32]),
        "c5d2460186f7233c927e7db2dcc703c0e500b653ca82273b7bfad8045d85a470"
    );
    assert_eq!(vm.sha256(32, 100, 0), Ok(()));
    assert_eq!(
        hex(&vm.memory()[32..64]),
        "e3b0c44298fc1c149afbf4c8996fb92427ae41e4649b934ca495991b7852b855"
    );
    assert_eq!(vm.registers()[REG_PC], 8);
    assert_eq!(vm.sha256(33, 100, 0), Err(OVERFLOW));
    assert_eq!(vm.registers()[REG_PC], 8);
    assert_eq!(vm.ecrecover(0, 200, 300), Ok(()));
    assert_eq!(vm.registers()[REG_ERR], 1);
    assert_eq!(&vm.memory()[0..64], &[0u8; 64][..]);
    assert_eq!(vm.registers()[REG_PC], 12);
}

#[test]
fn locations_are_offsets_from_the_code_start() {
    let loc = current_location(Some([1u8; 32]), 40, 16);
    assert_eq!(loc.offset, 24);
    assert_eq!(loc.context, Some([1u8; 32]));
}

#[test]
fn checked_metadata_gives_initial_balances() {
    let mut script = ScriptCheckedMetadata {
        non_retryable_balances: AssetBalances { entries: vec![([0u8; 32], 5)] },
        retryable_balance: 7,
        gas_used_by_predicates: 0,
    };
    script.set_gas_used_by_predicates(9);
    assert_eq!(script.gas_used_by_predicates(), 9);
    let b = script.balances();
    assert_eq!(b.retryable, Some(7));
    assert_eq!(b.non_retryable.get(&[0u8; 32]), Some(5));
    let create = CreateCheckedMetadata {
        free_balances: AssetBalances { entries: vec![] },
        gas_used_by_predicates: 3,
    };
    assert_eq!(create.gas_used_by_predicates(), 3);
    assert_eq!(create.balances().retryable, None);
}

#[test]
fn interpreter_writes_an_output_to_memory() {
    let coin = Output::Coin { to: [1u8; 32], amount: 1, asset_id: [0u8; 32] };
    let tx = tx_with_outputs(vec![coin], vec![40]);
    let initial = InitialBalances { non_retryable: AssetBalances { entries: vec![] }, retryable: None };
    let params = ConsensusParameters { gas_price_factor: 1, tx_offset: 100 };
    let mut vm = Interpreter::new((), tx, initial, params, Context::Script { block_height: 0 }, 0);
    assert_eq!(vm.update_memory_output(0), Ok(()));
    let bytes = vm.transaction().output_bytes_at(0).unwrap();
    assert_eq!(&vm.memory()[140..140 + bytes.len()], &bytes[..]);
    assert_eq!(
        vm.update_memory_output(1),
        Err(RuntimeError::Recoverable(PanicReason::OutputNotFound))
    );
}

#[test]
fn scripts_may_write_their_own_transaction() {
    let mut vm = vm(Context::Script { block_height: 0 });
    vm.set_register(REG_HP, 1 << 26);
    let owner = vm.ownership_registers();
    assert_eq!((owner.tx_start, owner.tx_end), (100, 164));
    let mut memory = VmMemory::new();
    assert_eq!(memory.try_write(owner, 132, &[1u8; 32]), Ok(()));
    assert_eq!(memory.try_write(owner, 133, &[1u8; 32]), Err(OVERFLOW));
    let call = OwnershipRegisters::test(0..0, 0..0, Context::Call { block_height: 0 })
        .with_tx_region(100..164);
    assert_eq!(memory.try_write(call, 132, &[1u8; 32]), Err(OVERFLOW));
}
