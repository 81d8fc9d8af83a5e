use massa_execution::ledger_step::{BalanceError, FinalLedger, SCELedgerStep, TransferError};
use massa_execution::models::{Address, Amount, Digest, Slot};
use massa_execution::sce_ledger::{
    DataUpdate, SCELedger, SCELedgerChange, SCELedgerChanges, SCELedgerEntry, SCELedgerEntryUpdate,
};
use massa_execution::vec_map::{Value, VecMap};

fn digest(n: u8) -> Digest {
    Digest::from_bytes([n; 32])
}

fn address(n: u8) -> Address {
    Address(digest(n))
}

fn coins(raw: u64) -> Amount {
    Amount::from_raw(raw)
}

fn balance(ledger: &SCELedger, of: u8) -> Option<u64> {
    ledger.0.get(&address(of)).map(|entry| entry.balance.to_raw())
}

fn step(balances: Vec<(Address, Amount)>) -> SCELedgerStep {
    SCELedgerStep::new(FinalLedger {
        ledger: SCELedger::from_balances_map(&balances),
        slot: Slot::new(0, 1),
    })
}

fn writing(raw: Option<u64>, module: Option<Option<Vec<u8>>>, key: u8, row: DataUpdate) -> SCELedgerChange {
    let mut update = SCELedgerEntryUpdate::empty();
    update.update_balance = raw.map(coins);
    update.update_opt_module = module;
    update.update_data.insert(digest(key), row);
    SCELedgerChange::Update(update)
}

#[test]
fn map_keeps_one_value_per_key() {
    let mut map: VecMap<Digest, Vec<u8>> = VecMap::new();
    map.insert(digest(1), vec![1]);
    map.insert(digest(2), vec![2]);
    map.insert(digest(1), vec![3]);
    assert_eq!(map.len(), 2);
    assert_eq!(map.get(&digest(1)), Some(&vec![3]));
    let copy = map.duplicate();
    map.remove(&digest(1));
    assert!(!map.contains_key(&digest(1)));
    assert!(map.contains_key(&digest(2)));
    assert!(copy.contains_key(&digest(1)));
    map.clear();
    assert_eq!(map.len(), 0);
}

#[test]
fn ledger_of_balances_takes_the_last_one() {
    let ledger = SCELedger::from_balances_map(&vec![
        (address(1), coins(10)),
        (address(2), coins(20)),
        (address(1), coins(30)),
    ]);
    assert_eq!(balance(&ledger, 1), Some(30));
    assert_eq!(balance(&ledger, 2), Some(20));
    assert_eq!(balance(&ledger, 3), None);
}

#[test]
fn changes_apply_to_a_ledger() {
    let mut ledger =
        SCELedger::from_balances_map(&vec![(address(1), coins(10)), (address(2), coins(20))]);
    let mut changes = SCELedgerChanges::new();
    changes.apply_change(address(1), &SCELedgerChange::Delete);
    changes.apply_change(address(2), &writing(None, Some(Some(vec![7])), 5, DataUpdate::Write(vec![8])));
    changes.apply_change(address(3), &writing(Some(4), None, 5, DataUpdate::Remove));
    ledger.apply_changes(&changes);
    assert_eq!(balance(&ledger, 1), None);
    let entry = ledger.0.get(&address(2)).unwrap();
    assert_eq!(entry.balance, coins(20));
    assert_eq!(entry.opt_module, Some(vec![7]));
    assert_eq!(entry.data.get(&digest(5)), Some(&vec![8]));
    assert_eq!(balance(&ledger, 3), Some(4));
    assert_eq!(ledger.0.get(&address(3)).unwrap().data.len(), 0);
}

#[test]
fn composed_changes_do_what_both_do() {
    let start = SCELedger::from_balances_map(&vec![(address(1), coins(10)), (address(2), coins(20))]);
    let mut earlier = SCELedgerChanges::new();
    earlier.apply_change(address(1), &SCELedgerChange::Delete);
    earlier.apply_change(address(2), &writing(Some(21), None, 5, DataUpdate::Write(vec![1])));
    let mut later = SCELedgerChanges::new();
    later.apply_change(address(1), &writing(Some(11), None, 6, DataUpdate::Write(vec![2])));
    later.apply_change(address(2), &writing(None, Some(Some(vec![9])), 5, DataUpdate::Remove));
    later.apply_change(address(3), &SCELedgerChange::Put(SCELedgerEntry::empty()));

    let mut in_turn = start.duplicate();
    in_turn.apply_changes(&earlier);
    in_turn.apply_changes(&later);
    let mut both = earlier.duplicate();
    both.apply_changes(&later);
    let mut at_once = start.duplicate();
    at_once.apply_changes(&both);

    for ledger in [&in_turn, &at_once] {
        assert_eq!(ledger.0.len(), 3);
        let first = ledger.0.get(&address(1)).unwrap();
        assert_eq!(first.balance, coins(11));
        assert_eq!(first.data.get(&digest(6)), Some(&vec![2]));
        let second = ledger.0.get(&address(2)).unwrap();
        assert_eq!(second.balance, coins(21));
        assert_eq!(second.opt_module, Some(vec![9]));
        assert!(!second.data.contains_key(&digest(5)));
        assert_eq!(balance(ledger, 3), Some(0));
    }
}

#[test]
fn update_after_replacement_stays_a_replacement() {
    let mut entry = SCELedgerEntry::empty();
    entry.balance = coins(3);
    entry.data.insert(digest(1), vec![1]);
    let change = SCELedgerChange::Put(entry).apply_change(&writing(None, None, 1, DataUpdate::Remove));
    match change {
        SCELedgerChange::Put(entry) => {
            assert_eq!(entry.balance, coins(3));
            assert_eq!(entry.data.len(), 0);
        }
        _ => panic!("not a replacement"),
    }
}

#[test]
fn step_reads_through_its_changes_and_the_history() {
    let mut step = step(vec![(address(1), coins(10)), (address(2), coins(20))]);
    let history = &mut step.cumulative_history_changes;
    history.apply_change(address(1), &writing(Some(11), Some(Some(vec![1])), 5, DataUpdate::Write(vec![2])));
    history.apply_change(address(2), &SCELedgerChange::Delete);
    assert_eq!(step.get_balance(&address(1)), coins(11));
    assert_eq!(step.get_balance(&address(2)), coins(0));
    assert_eq!(step.get_balance(&address(3)), coins(0));
    assert_eq!(step.get_module(&address(1)), Some(vec![1]));
    assert_eq!(step.get_module(&address(2)), None);
    assert_eq!(step.get_data_entry(&address(1), &digest(5)), Some(vec![2]));

    step.set_balance(address(1), coins(12));
    step.set_module(address(1), None);
    step.set_data_entry(address(2), digest(6), vec![3]);
    assert_eq!(step.get_balance(&address(1)), coins(12));
    assert_eq!(step.get_module(&address(1)), None);
    assert_eq!(step.get_data_entry(&address(1), &digest(5)), Some(vec![2]));
    assert!(step.has_data_entry(&address(2), &digest(6)));
    assert!(!step.has_data_entry(&address(1), &digest(6)));
    step.caused_changes.apply_change(address(1), &SCELedgerChange::Delete);
    assert_eq!(step.get_balance(&address(1)), coins(0));
    assert!(!step.has_data_entry(&address(1), &digest(5)));
    assert_eq!(balance(&step.final_ledger_slot.ledger, 1), Some(10));
}

#[test]
fn balance_deltas() {
    let mut step = step(vec![(address(1), coins(10))]);
    assert_eq!(step.set_balance_delta(address(1), coins(5), true), Ok(()));
    assert_eq!(step.get_balance(&address(1)), coins(15));
    assert_eq!(step.set_balance_delta(address(1), coins(16), false), Err(BalanceError::Underflow));
    assert_eq!(
        step.set_balance_delta(address(1), coins(u64::MAX), true),
        Err(BalanceError::Overflow)
    );
    assert_eq!(step.get_balance(&address(1)), coins(15));
    assert_eq!(step.set_balance_delta(address(1), coins(15), false), Ok(()));
    assert_eq!(step.get_balance(&address(1)), coins(0));
}

#[test]
fn transfers_conserve_coins() {
    let mut step = step(vec![(address(1), coins(10)), (address(2), coins(u64::MAX - 3))]);
    assert_eq!(step.transfer(address(1), address(3), coins(4)), Ok(()));
    assert_eq!(step.get_balance(&address(1)), coins(6));
    assert_eq!(step.get_balance(&address(3)), coins(4));
    assert_eq!(step.transfer(address(1), address(1), coins(6)), Ok(()));
    assert_eq!(step.get_balance(&address(1)), coins(6));
    assert_eq!(
        step.transfer(address(1), address(3), coins(7)),
        Err(TransferError::Debit(BalanceError::Underflow))
    );
    assert_eq!(
        step.transfer(address(1), address(2), coins(4)),
        Err(TransferError::Credit(BalanceError::Overflow))
    );
    assert_eq!(step.get_balance(&address(1)), coins(6));
    assert_eq!(step.get_balance(&address(2)), coins(u64::MAX - 3));
    assert_eq!(step.get_balance(&address(3)), coins(4));
}
