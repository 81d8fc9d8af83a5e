use massa_execution::error::InterfaceError;
use massa_execution::interface_impl::{InterfaceImpl, SignatureCheck};
use massa_execution::ledger_step::{BalanceError, TransferError};
use massa_execution::models::{
    Address, Amount, BlockId, Digest, OperationId, SCOutputEventId, Slot,
};
use massa_execution::sce_ledger::SCELedger;
use massa_execution::timeslots::MassaTime;
use massa_execution::types::{ExecutionContext, StackElement};

fn digest(n: u8) -> Digest {
    Digest::from_bytes([n; 32])
}

fn address(n: u8) -> Address {
    Address(digest(n))
}

/// Nobody called; 1 has 100 coins, 2 has all but 3, and 9 a module.
fn idle() -> InterfaceImpl {
    let ledger = SCELedger::from_balances_map(&vec![
        (address(1), Amount::from_raw(100)),
        (address(2), Amount::from_raw(u64::MAX - 3)),
    ]);
    let context = ExecutionContext::new(ledger, Slot::new(0, 1));
    let mut interface = InterfaceImpl::new(
        context,
        2,
        MassaTime::from_millis(1_000),
        MassaTime::from_millis(5_000),
    );
    interface.context.ledger_step.set_module(address(9), Some(vec![42]));
    interface
}

/// The same, while 1 is called.
fn called() -> InterfaceImpl {
    let mut interface = idle();
    interface.context.stack.push(StackElement::new(address(1), Amount::from_raw(8)));
    interface
}

#[test]
fn call_moves_coins_and_returns_bytecode() {
    let mut interface = called();
    assert_eq!(interface.init_call(address(9), 30), Ok(vec![42]));
    assert_eq!(interface.get_call_stack(), Ok(vec![address(1), address(9)]));
    assert_eq!(interface.get_call_coins(), Ok(30));
    assert_eq!(interface.get_owned_addresses(), Ok(vec![address(9)]));
    assert_eq!(interface.get_balance(), Ok(30));
    assert_eq!(interface.get_balance_for(&address(1)), Ok(70));
    assert_eq!(interface.finish_call(), Ok(()));
    assert_eq!(interface.get_call_stack(), Ok(vec![address(1)]));
    assert_eq!(interface.get_call_coins(), Ok(8));
    assert_eq!(interface.get_balance(), Ok(70));
}

#[test]
fn calls_are_refused() {
    let mut interface = called();
    assert_eq!(interface.init_call(address(3), 0), Err(InterfaceError::BytecodeNotFound));
    assert_eq!(
        interface.init_call(address(9), 101),
        Err(InterfaceError::Transfer(TransferError::Debit(BalanceError::Underflow)))
    );
    interface.context.ledger_step.set_module(address(2), Some(vec![1]));
    assert_eq!(
        interface.init_call(address(2), 4),
        Err(InterfaceError::Transfer(TransferError::Credit(BalanceError::Overflow)))
    );
    assert_eq!(interface.get_balance_for(&address(1)), Ok(100));
    assert_eq!(interface.get_call_stack(), Ok(vec![address(1)]));
    let mut interface = idle();
    assert_eq!(interface.init_call(address(9), 0), Err(InterfaceError::NoCurrentAddress));
}

#[test]
fn without_a_call_there_is_little_to_ask() {
    let mut interface = idle();
    assert_eq!(interface.finish_call(), Err(InterfaceError::CallStackOutOfBounds));
    assert_eq!(interface.get_balance(), Err(InterfaceError::NoCurrentAddress));
    assert_eq!(interface.raw_get_data(&digest(5)), Err(InterfaceError::NoCurrentAddress));
    assert_eq!(interface.raw_set_data(digest(5), &[1]), Err(InterfaceError::NoCurrentAddress));
    assert_eq!(interface.has_data(&digest(5)), Err(InterfaceError::NoCurrentAddress));
    assert_eq!(interface.transfer_coins(address(3), 1), Err(InterfaceError::NoCurrentAddress));
    assert_eq!(
        interface.get_owned_addresses(),
        Err(InterfaceError::OwnedAddressesOutOfBounds)
    );
    assert_eq!(interface.get_call_stack(), Ok(vec![]));
    assert_eq!(interface.get_call_coins(), Ok(0));
    // the module is written, though nobody owns it
    assert_eq!(interface.create_module(address(7), &[1, 2]), Err(InterfaceError::NoOwner));
    assert_eq!(interface.context.ledger_step.get_module(&address(7)), Some(vec![1, 2]));
    assert_eq!(interface.context.created_addr_index, 0);
}

#[test]
fn created_modules_are_owned() {
    let mut interface = called();
    interface.context.opt_block_id = Some(BlockId(digest(50)));
    interface.context.operation_index = 258;
    let mut data = vec![50u8; 32];
    data.extend([0, 0, 0, 0, 0, 0, 1, 2]);
    let mut first = data.clone();
    first.extend([0, 0, 0, 0, 0, 0, 0, 0]);
    assert_eq!(interface.module_address_data(), first);
    assert_eq!(interface.create_module(address(7), &[1, 2]), Ok(address(7)));
    let mut second = data;
    second.extend([0, 0, 0, 0, 0, 0, 0, 1]);
    assert_eq!(interface.module_address_data(), second);
    assert_eq!(interface.get_owned_addresses(), Ok(vec![address(1), address(7)]));
    assert_eq!(interface.context.ledger_step.get_module(&address(7)), Some(vec![1, 2]));
    assert_eq!(interface.raw_set_data_for(address(7), digest(5), &[3]), Ok(()));
    assert_eq!(interface.raw_get_data_for(&address(7), &digest(5)), Ok(vec![3]));
    assert_eq!(interface.has_data_for(&address(7), &digest(5)), Ok(true));
}

#[test]
fn modules_outside_of_blocks_are_named_by_the_slot() {
    let mut interface = called();
    interface.context.slot = Slot::new(1, 1);
    interface.context.created_addr_index = 3;
    let counting = vec![0, 0, 0, 0, 0, 0, 0, 1, 1, 0, 0, 0, 0, 0, 0, 0, 3, 1];
    assert_eq!(interface.module_address_data(), counting);
    let read_only = vec![0, 0, 0, 0, 0, 0, 0, 1, 1, 0, 0, 0, 0, 0, 0, 0, 3, 0];
    interface.context.read_only = true;
    assert_eq!(interface.module_address_data(), read_only);
    // a block that an earlier execution left behind does not matter
    interface.context.opt_block_id = Some(BlockId(digest(50)));
    assert_eq!(interface.module_address_data(), read_only);
    interface.context.read_only = false;
    assert_eq!(interface.module_address_data().len(), 48);
}

#[test]
fn created_modules_do_not_meet() {
    let mut interface = called();
    interface.context.opt_block_id = Some(BlockId(digest(50)));
    let first = interface.module_address_data();
    assert_eq!(interface.create_module(address(7), &[1]), Ok(address(7)));
    assert_eq!(interface.raw_set_data_for(address(7), digest(5), &[3]), Ok(()));
    let second = interface.module_address_data();
    assert_ne!(first, second);
    assert_eq!(interface.create_module(address(8), &[1]), Ok(address(8)));
    assert_eq!(interface.context.ledger_step.get_module(&address(7)), Some(vec![1]));
    assert_eq!(interface.context.ledger_step.get_module(&address(8)), Some(vec![1]));
    interface.context.operation_index = 1;
    interface.context.created_addr_index = 0;
    assert_ne!(interface.module_address_data(), first);
}

#[test]
fn only_owned_addresses_are_written() {
    let mut interface = called();
    assert_eq!(
        interface.raw_set_data_for(address(9), digest(5), &[3]),
        Err(InterfaceError::WriteAccessDenied)
    );
    assert_eq!(interface.has_data_for(&address(9), &digest(5)), Ok(false));
    assert_eq!(
        interface.raw_get_data_for(&address(9), &digest(5)),
        Err(InterfaceError::DataEntryNotFound)
    );
    assert_eq!(interface.raw_set_data(digest(5), &[3]), Ok(()));
    assert_eq!(interface.raw_get_data(&digest(5)), Ok(vec![3]));
    assert_eq!(interface.has_data(&digest(5)), Ok(true));
    assert_eq!(interface.has_data(&digest(6)), Ok(false));
    assert_eq!(interface.raw_get_data(&digest(6)), Err(InterfaceError::DataEntryNotFound));
    assert_eq!(interface.raw_get_data_for(&address(1), &digest(5)), Ok(vec![3]));
}

#[test]
fn only_owned_addresses_are_spent_from() {
    let mut interface = called();
    assert_eq!(interface.transfer_coins(address(3), 40), Ok(()));
    assert_eq!(interface.transfer_coins_for(address(1), address(4), 10), Ok(()));
    assert_eq!(
        interface.transfer_coins_for(address(3), address(1), 10),
        Err(InterfaceError::SpendingAccessDenied)
    );
    assert_eq!(
        interface.transfer_coins(address(3), 51),
        Err(InterfaceError::Transfer(TransferError::Debit(BalanceError::Underflow)))
    );
    assert_eq!(
        interface.transfer_coins(address(2), 4),
        Err(InterfaceError::Transfer(TransferError::Credit(BalanceError::Overflow)))
    );
    assert_eq!(interface.get_balance_for(&address(1)), Ok(50));
    assert_eq!(interface.get_balance_for(&address(3)), Ok(40));
    assert_eq!(interface.get_balance_for(&address(4)), Ok(10));
}

#[test]
fn signatures_of_malformed_parts_verify_nothing() {
    let interface = idle();
    assert_eq!(interface.signature_verify(SignatureCheck::MalformedSignature), Ok(false));
    assert_eq!(interface.signature_verify(SignatureCheck::MalformedPublicKey), Ok(false));
    assert_eq!(interface.signature_verify(SignatureCheck::Refused), Ok(false));
    assert_eq!(interface.signature_verify(SignatureCheck::Verified), Ok(true));
}

#[test]
fn events_are_stamped() {
    let mut interface = called();
    interface.context.slot = Slot::new(2, 1);
    interface.context.opt_block_id = Some(BlockId(digest(50)));
    interface.context.origin_operation_id = Some(OperationId(digest(60)));
    assert_eq!(
        interface.event_id_data(),
        vec![0, 0, 0, 0, 0, 0, 0, 2, 1, 0, 0, 0, 0, 0, 0, 0, 0, 1]
    );
    assert_eq!(interface.generate_event(SCOutputEventId(digest(70)), "one".to_string()), Ok(()));
    assert_eq!(
        interface.event_id_data(),
        vec![0, 0, 0, 0, 0, 0, 0, 2, 1, 0, 0, 0, 0, 0, 0, 0, 1, 1]
    );
    assert_eq!(interface.generate_event(SCOutputEventId(digest(71)), "two".to_string()), Ok(()));
    let events = interface.context.events.export();
    assert_eq!(events.len(), 2);
    assert_eq!(events[1].id, SCOutputEventId(digest(71)));
    assert_eq!(events[1].data, "two");
    assert_eq!(events[1].context.slot, Slot::new(2, 1));
    assert_eq!(events[1].context.block, Some(BlockId(digest(50))));
    assert_eq!(events[1].context.call_stack, vec![address(1)]);
    assert!(!events[1].context.read_only);
    assert_eq!(events[1].context.index_in_slot, 1);
    assert_eq!(events[1].context.origin_operation_id, Some(OperationId(digest(60))));
}

#[test]
fn time_is_that_of_the_slot() {
    let mut interface = idle();
    interface.context.slot = Slot::new(3, 1);
    assert_eq!(interface.get_time(), Ok(8_500));
    interface.context.slot = Slot::new(u64::MAX, 0);
    assert_eq!(interface.get_time(), Err(InterfaceError::TimeOverflow));
}

#[test]
fn errors_of_the_interface_have_texts() {
    let text = |error: InterfaceError| error.message();
    assert_eq!(text(InterfaceError::BytecodeNotFound), "Error bytecode not found");
    assert_eq!(
        text(InterfaceError::NoCurrentAddress),
        "Failed to read call stack current address"
    );
    assert_eq!(text(InterfaceError::CallStackOutOfBounds), "call stack out of bounds");
    assert_eq!(text(InterfaceError::NoOwner), "owned addresses not found in stack");
    assert_eq!(
        text(InterfaceError::OwnedAddressesOutOfBounds),
        "owned address stack out of bounds"
    );
    assert_eq!(
        text(InterfaceError::WriteAccessDenied),
        "You don't have the write access to this entry"
    );
    assert_eq!(
        text(InterfaceError::SpendingAccessDenied),
        "You don't have the spending access to this entry"
    );
    assert_eq!(text(InterfaceError::DataEntryNotFound), "Data entry not found");
    assert_eq!(
        text(InterfaceError::Transfer(TransferError::Debit(BalanceError::Underflow))),
        "balance underflow"
    );
    assert_eq!(
        text(InterfaceError::Transfer(TransferError::Credit(BalanceError::Overflow))),
        "Error crediting destination balance: balance overflow"
    );
    assert_eq!(text(InterfaceError::TimeOverflow), "Time overflow error");
}
