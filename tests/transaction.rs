use fuel_vm_core::error::{CheckError, PanicReason};
use fuel_vm_core::transaction::{
    gas_refund_value, AssetBalances, ConsensusParameters, Create, ExecutableTransaction,
    InitialBalances, Output, Script, TRANSACTION_CREATE, TRANSACTION_SCRIPT,
};

const BASE: [u8; 32] = [0u8; 32];
const OTHER: [u8; 32] = [7u8; 32];
const TO: [u8; 32] = [2u8; 32];

fn script(outputs: Vec<Output>, price: u64) -> ExecutableTransaction {
    ExecutableTransaction::Script(Script {
        script: vec![],
        script_data: vec![],
        outputs,
        receipts_root: [0u8; 32],
        receipts_root_offset: 0,
        output_offsets: vec![],
        price,
    })
}

fn params(factor: u64) -> ConsensusParameters {
    ConsensusParameters { gas_price_factor: factor, tx_offset: 0 }
}

fn balances(entries: &[([u8; 32], u64)]) -> AssetBalances {
    AssetBalances { entries: entries.to_vec() }
}

#[test]
fn variable_output_replacement() {
    let coin = Output::Coin { to: TO, amount: 5, asset_id: BASE };
    let mut tx = script(vec![Output::Variable { to: TO, amount: 0, asset_id: BASE }, coin], 1);
    let filled = Output::Variable { to: TO, amount: 10, asset_id: OTHER };
    assert_eq!(tx.replace_variable_output(0, filled), Ok(()));
    assert_eq!(tx.outputs()[0], filled);
    assert_eq!(tx.replace_variable_output(1, filled), Err(PanicReason::OutputNotFound));
    assert_eq!(tx.replace_variable_output(0, filled), Err(PanicReason::OutputNotFound));
    assert_eq!(tx.replace_variable_output(2, filled), Err(PanicReason::OutputNotFound));
    assert_eq!(tx.replace_variable_output(0, coin), Err(PanicReason::ExpectedOutputVariable));
    assert_eq!(tx.outputs()[1], coin);
}

#[test]
fn revert_resets_change_to_initial_balances_plus_refund() {
    let mut tx = script(
        vec![
            Output::Change { to: TO, amount: 3, asset_id: BASE },
            Output::Change { to: TO, amount: 3, asset_id: OTHER },
            Output::Variable { to: TO, amount: 9, asset_id: OTHER },
        ],
        1,
    );
    let initial = InitialBalances {
        non_retryable: balances(&[(BASE, 1000), (OTHER, 40)]),
        retryable: None,
    };
    let now = balances(&[(BASE, 1), (OTHER, 2)]);
    assert_eq!(tx.update_outputs(&params(1), true, 50, &initial, &now), Ok(()));
    assert_eq!(tx.outputs()[0], Output::Change { to: TO, amount: 1050, asset_id: BASE });
    assert_eq!(tx.outputs()[1], Output::Change { to: TO, amount: 40, asset_id: OTHER });
    assert_eq!(tx.outputs()[2], Output::Variable { to: TO, amount: 0, asset_id: OTHER });
}

#[test]
fn revert_without_gas_left_gives_the_initial_base_balance() {
    let mut tx = script(vec![Output::Change { to: TO, amount: 3, asset_id: BASE }], 5);
    let initial = InitialBalances { non_retryable: balances(&[(BASE, 1000)]), retryable: Some(1) };
    assert_eq!(tx.update_outputs(&params(3), true, 0, &initial, &balances(&[])), Ok(()));
    assert_eq!(tx.outputs()[0], Output::Change { to: TO, amount: 1000, asset_id: BASE });
}

#[test]
fn success_takes_current_balances() {
    let mut tx = script(
        vec![
            Output::Change { to: TO, amount: 3, asset_id: BASE },
            Output::Change { to: TO, amount: 3, asset_id: OTHER },
            Output::Variable { to: TO, amount: 9, asset_id: OTHER },
        ],
        2,
    );
    let initial = InitialBalances { non_retryable: balances(&[]), retryable: None };
    let now = balances(&[(OTHER, 11), (BASE, 100), (OTHER, 99)]);
    assert_eq!(tx.update_outputs(&params(4), false, 10, &initial, &now), Ok(()));
    assert_eq!(tx.outputs()[0], Output::Change { to: TO, amount: 105, asset_id: BASE });
    assert_eq!(tx.outputs()[1], Output::Change { to: TO, amount: 11, asset_id: OTHER });
    assert_eq!(tx.outputs()[2], Output::Variable { to: TO, amount: 9, asset_id: OTHER });
}

#[test]
fn overflowing_change_fails() {
    let mut tx = script(
        vec![
            Output::Variable { to: TO, amount: 9, asset_id: OTHER },
            Output::Change { to: TO, amount: 3, asset_id: BASE },
        ],
        1,
    );
    let initial = InitialBalances { non_retryable: balances(&[(BASE, u64::MAX)]), retryable: None };
    assert_eq!(
        tx.update_outputs(&params(1), true, 1, &initial, &balances(&[])),
        Err(CheckError::ArithmeticOverflow)
    );
    assert_eq!(tx.outputs()[0], Output::Variable { to: TO, amount: 0, asset_id: OTHER });
    assert_eq!(tx.outputs()[1], Output::Change { to: TO, amount: 3, asset_id: BASE });

    let mut tx = script(vec![Output::Change { to: TO, amount: 3, asset_id: BASE }], u64::MAX);
    assert_eq!(
        tx.update_outputs(&params(1), true, 2, &initial, &balances(&[])),
        Err(CheckError::ArithmeticOverflow)
    );
}

#[test]
fn refund_rounds_up() {
    assert_eq!(gas_refund_value(&params(1), 50, 1), Some(50));
    assert_eq!(gas_refund_value(&params(3), 10, 1), Some(4));
    assert_eq!(gas_refund_value(&params(5), 10, 2), Some(4));
    assert_eq!(gas_refund_value(&params(7), 0, 9), Some(0));
    assert_eq!(gas_refund_value(&params(1), u64::MAX, 2), None);
    assert_eq!(gas_refund_value(&params(2), u64::MAX, 2), Some(u64::MAX));
}

#[test]
fn finds_the_contract_output_of_an_input() {
    let tx = ExecutableTransaction::Create(Create {
        bytecode_witness_index: 0,
        output_offsets: vec![],
        outputs: vec![
            Output::Coin { to: TO, amount: 1, asset_id: BASE },
            Output::Contract { input_index: 1, balance_root: [0u8; 32], state_root: [0u8; 32] },
            Output::Contract { input_index: 1, balance_root: [1u8; 32], state_root: [0u8; 32] },
        ],
        price: 0,
    });
    let (idx, out) = tx.find_output_contract(1).unwrap();
    assert_eq!(idx, 1);
    assert_eq!(*out, Output::Contract { input_index: 1, balance_root: [0u8; 32], state_root: [0u8; 32] });
    assert!(tx.find_output_contract(0).is_none());
    assert_eq!(tx.transaction_type(), TRANSACTION_CREATE);
    assert!(tx.as_create().is_some());
    assert!(tx.as_script().is_none());
}

#[test]
fn script_kind() {
    let tx = script(vec![], 0);
    assert_eq!(tx.transaction_type(), TRANSACTION_SCRIPT);
    assert!(tx.as_script().is_some());
    assert_eq!(tx.price(), 0);
}

#[test]
fn first_balance_entry_counts() {
    let b = balances(&[(OTHER, 1), (OTHER, 2)]);
    assert_eq!(b.get(&OTHER), Some(1));
    assert_eq!(b.get(&BASE), None);
}

#[test]
fn outputs_serialize_as_the_transaction_format_does() {
    let coin = Output::Coin { to: TO, amount: 5, asset_id: OTHER };
    let tx = script(vec![coin], 0);
    let expected = fuel_types::canonical::Serialize::to_bytes(&fuel_tx::Output::coin(
        TO.into(),
        5,
        OTHER.into(),
    ));
    assert_eq!(tx.output_bytes_at(0), Some(expected.clone()));
    assert!(tx.output_bytes_at(1).is_none());
    let mut buf = vec![0xEEu8; expected.len() + 2];
    assert_eq!(tx.output_to_mem(0, &mut buf), Ok(expected.len()));
    assert_eq!(&buf[..expected.len()], &expected[..]);
    assert_eq!(&buf[expected.len()..], &[0xEE, 0xEE]);
    let mut short = vec![0u8; expected.len() - 1];
    assert_eq!(tx.output_to_mem(0, &mut short), Err(PanicReason::MemoryOverflow));
    assert_eq!(tx.output_to_mem(1, &mut buf), Err(PanicReason::OutputNotFound));
}

#[test]
fn balances_decrease_only_when_enough() {
    let mut b = balances(&[(OTHER, 10), (BASE, 3), (OTHER, 99)]);
    assert!(b.checked_balance_sub(&OTHER, 4));
    assert_eq!(b.get(&OTHER), Some(6));
    assert_eq!(b.entries[2], (OTHER, 99));
    assert!(!b.checked_balance_sub(&BASE, 4));
    assert_eq!(b.get(&BASE), Some(3));
    assert!(!b.checked_balance_sub(&TO, 0));
}

#[test]
fn mutable_views_of_the_kinds() {
    let mut tx = script(vec![], 3);
    tx.as_script_mut().unwrap().price = 9;
    assert_eq!(tx.price(), 9);
    assert!(tx.as_create_mut().is_none());
    let mut tx = ExecutableTransaction::Create(Create {
        bytecode_witness_index: 0,
        output_offsets: vec![],
        outputs: vec![],
        price: 1,
    });
    tx.as_create_mut().unwrap().bytecode_witness_index = 2;
    assert_eq!(tx.as_create().unwrap().bytecode_witness_index, 2);
    assert!(tx.as_script_mut().is_none());
}

#[test]
fn message_output_replacement() {
    let open = Output::Message { recipient: [0u8; 32], amount: 0 };
    let sent = Output::Message { recipient: TO, amount: 4 };
    let mut tx = script(vec![open, Output::Coin { to: TO, amount: 1, asset_id: BASE }], 0);
    assert_eq!(tx.replace_message_output(0, open), Err(PanicReason::OutputNotFound));
    assert_eq!(
        tx.replace_message_output(0, Output::Coin { to: TO, amount: 1, asset_id: BASE }),
        Err(PanicReason::OutputNotFound)
    );
    assert_eq!(tx.replace_message_output(1, sent), Err(PanicReason::NonZeroMessageOutputRecipient));
    assert_eq!(tx.replace_message_output(0, sent), Ok(()));
    assert_eq!(tx.outputs()[0], sent);
    assert_eq!(tx.replace_message_output(0, sent), Err(PanicReason::NonZeroMessageOutputRecipient));
    assert!(tx.output_bytes_at(0).is_none());
    assert!(tx.output_bytes_at(1).is_some());
}
