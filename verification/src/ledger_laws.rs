//! What changes do to a ledger and what a step sees of it, said of entries and their parts.

use crate::ledger_step::{lemma_with_balance, BalanceError, LedgerStepModel, TransferError};
use crate::models::{Address, Amount, Digest};
use crate::sce_ledger::{
    applied, balance_in, data_in, empty_update, ledger_of_balances, lemma_apply_composed,
    lemma_apply_empty, lemma_apply_with_change, module_in, ChangeModel, ChangesModel, LedgerModel,
    UpdateModel,
};
use crate::types::{history_changes, HistoryItemModel};
use vstd::prelude::*;

verus! {

/// What an address has in a ledger: what its entry says, and nothing where it has none.
pub proof fn lemma_ledger_reads(ledger: LedgerModel, address: Address, key: Digest)
    ensures
        ledger.contains_key(address) ==> {
            &&& balance_in(ledger, address) == ledger[address].balance
            &&& module_in(ledger, address) == ledger[address].opt_module
            &&& ledger[address].data.contains_key(key) ==> data_in(ledger, address, key) == Some(
                ledger[address].data[key],
            )
            &&& !ledger[address].data.contains_key(key) ==> data_in(ledger, address, key) is None
        },
        !ledger.contains_key(address) ==> {
            &&& balance_in(ledger, address).raw == 0
            &&& module_in(ledger, address) is None
            &&& data_in(ledger, address, key) is None
        },
{
}

/// What changes do to one address: nothing where they have none for it; a deletion takes its
/// entry out, a replacement puts the new one in, and an update writes what it holds and leaves
/// the rest, starting from nothing where there was no entry.
pub proof fn lemma_changes_of_an_address(
    ledger: LedgerModel,
    changes: ChangesModel,
    address: Address,
    key: Digest,
)
    ensures
        ({
            let after = applied(ledger, changes);
            if !changes.contains_key(address) {
                &&& after.contains_key(address) <==> ledger.contains_key(address)
                &&& ledger.contains_key(address) ==> after[address] == ledger[address]
            } else {
                match changes[address] {
                    ChangeModel::Delete => !after.contains_key(address),
                    ChangeModel::Put(entry) => after.contains_key(address) && after[address]
                        == entry,
                    ChangeModel::Update(update) => {
                        &&& after.contains_key(address)
                        &&& update.balance matches Some(balance) ==> after[address].balance
                            == balance
                        &&& update.balance is None ==> after[address].balance == balance_in(
                            ledger,
                            address,
                        )
                        &&& update.opt_module matches Some(module) ==> after[address].opt_module
                            == module
                        &&& update.opt_module is None ==> after[address].opt_module == module_in(
                            ledger,
                            address,
                        )
                        &&& update.data.contains_key(key) && update.data[key] is Some
                            ==> after[address].data.contains_key(key) && after[address].data[key]
                            == update.data[key]->0
                        &&& update.data.contains_key(key) && update.data[key] is None
                            ==> !after[address].data.contains_key(key)
                        &&& !update.data.contains_key(key) ==> data_in(after, address, key)
                            == data_in(ledger, address, key)
                    },
                }
            }
        }),
{
}

/// A ledger of balances has just the addresses listed, each with the balance that is listed last
/// for it, and without module and data.
pub proof fn lemma_ledger_of_balances(
    balances: Seq<(Address, Amount)>,
    address: Address,
    at: int,
)
    ensures
        ledger_of_balances(balances).contains_key(address) <==> exists|i: int|
            0 <= i < balances.len() && (#[trigger] balances[i]).0 == address,
        0 <= at < balances.len() && balances[at].0 == address && (forall|i: int|
            at < i < balances.len() ==> (#[trigger] balances[i]).0 != address) ==> {
            let entry = ledger_of_balances(balances)[address];
            &&& entry.balance == balances[at].1
            &&& entry.opt_module is None
            &&& entry.data == Map::<Digest, Seq<u8>>::empty()
        },
    decreases balances.len(),
{
    if balances.len() > 0 {
        let rest = balances.drop_last();
        lemma_ledger_of_balances(rest, address, at);
        let last = balances[balances.len() - 1];
        assert forall|i: int| 0 <= i < rest.len() implies #[trigger] rest[i] == balances[i] by {}
        if exists|i: int| 0 <= i < balances.len() && (#[trigger] balances[i]).0 == address {
            let i = choose|i: int| 0 <= i < balances.len() && (#[trigger] balances[i]).0 == address;
            if i < rest.len() {
                assert(rest[i].0 == address);
            }
        }
        if exists|i: int| 0 <= i < rest.len() && (#[trigger] rest[i]).0 == address {
            let i = choose|i: int| 0 <= i < rest.len() && (#[trigger] rest[i]).0 == address;
            assert(balances[i].0 == address);
        }
    }
}

/// A step reads its own changes first.
pub proof fn lemma_step_reads_caused_changes(step: LedgerStepModel, address: Address, key: Digest)
    ensures
        step.caused_changes.contains_key(address) ==> match step.caused_changes[address] {
            ChangeModel::Delete => {
                &&& step.balance(address).raw == 0
                &&& step.module(address) is None
                &&& step.data(address, key) is None
            },
            ChangeModel::Put(entry) => {
                &&& step.balance(address) == entry.balance
                &&& step.module(address) == entry.opt_module
                &&& entry.data.contains_key(key) ==> step.data(address, key) == Some(
                    entry.data[key],
                )
                &&& !entry.data.contains_key(key) ==> step.data(address, key) is None
            },
            ChangeModel::Update(update) => {
                &&& update.balance matches Some(balance) ==> step.balance(address) == balance
                &&& update.opt_module matches Some(module) ==> step.module(address) == module
                &&& update.data.contains_key(key) ==> step.data(address, key) == update.data[key]
            },
        },
{
}

/// What its own changes leave open a step reads from the changes of the history, and what these
/// leave open from the final ledger.
pub proof fn lemma_step_reads_below(step: LedgerStepModel, address: Address, key: Digest)
    ensures
        ({
            let history = LedgerStepModel {
                caused_changes: step.cumulative_history_changes,
                cumulative_history_changes: Map::empty(),
                ..step
            };
            let open = !step.caused_changes.contains_key(address);
            let update = step.caused_changes[address];
            &&& open || (update is Update && update->Update_0.balance is None) ==> step.balance(
                address,
            ) == history.balance(address)
            &&& open || (update is Update && update->Update_0.opt_module is None) ==> step.module(
                address,
            ) == history.module(address)
            &&& open || (update is Update && !update->Update_0.data.contains_key(key))
                ==> step.data(address, key) == history.data(address, key)
        }),
        step.cumulative_history_changes == Map::<Address, ChangeModel>::empty() ==> {
            let ledger = step.final_ledger_slot.ledger;
            let open = !step.caused_changes.contains_key(address);
            let update = step.caused_changes[address];
            &&& open || (update is Update && update->Update_0.balance is None) ==> step.balance(
                address,
            ) == balance_in(ledger, address)
            &&& open || (update is Update && update->Update_0.opt_module is None) ==> step.module(
                address,
            ) == module_in(ledger, address)
            &&& open || (update is Update && !update->Update_0.data.contains_key(key))
                ==> step.data(address, key) == data_in(ledger, address, key)
        },
{
    lemma_apply_empty(step.final_ledger_slot.ledger);
    let base = applied(step.final_ledger_slot.ledger, step.cumulative_history_changes);
    lemma_changes_of_an_address(base, step.caused_changes, address, key);
    lemma_ledger_reads(base, address, key);
    lemma_ledger_reads(step.current(), address, key);
}

/// What a step writes it writes into any ledger that its changes are applied to: just the balance,
/// the module or the row that was written, besides what its changes did before.
pub proof fn lemma_writes_carry_over(
    step: LedgerStepModel,
    ledger: LedgerModel,
    address: Address,
    balance: Amount,
    opt_module: Option<Seq<u8>>,
    key: Digest,
    value: Seq<u8>,
    other: Address,
    other_key: Digest,
)
    ensures
        ({
            let before = applied(ledger, step.caused_changes);
            let paid = applied(ledger, step.with_balance(address, balance).caused_changes);
            let coded = applied(ledger, step.with_module(address, opt_module).caused_changes);
            let stored = applied(ledger, step.with_data(address, key, value).caused_changes);
            &&& balance_in(paid, address) == balance
            &&& module_in(paid, address) == module_in(before, address)
            &&& data_in(paid, address, other_key) == data_in(before, address, other_key)
            &&& module_in(coded, address) == opt_module
            &&& balance_in(coded, address) == balance_in(before, address)
            &&& data_in(coded, address, other_key) == data_in(before, address, other_key)
            &&& data_in(stored, address, key) == Some(value)
            &&& other_key != key ==> data_in(stored, address, other_key) == data_in(
                before,
                address,
                other_key,
            )
            &&& balance_in(stored, address) == balance_in(before, address)
            &&& module_in(stored, address) == module_in(before, address)
            &&& other != address ==> {
                &&& paid.contains_key(other) <==> before.contains_key(other)
                &&& coded.contains_key(other) <==> before.contains_key(other)
                &&& stored.contains_key(other) <==> before.contains_key(other)
                &&& before.contains_key(other) ==> paid[other] == before[other] && coded[other]
                    == before[other] && stored[other] == before[other]
            }
        }),
        step.with_balance(address, balance).final_ledger_slot == step.final_ledger_slot,
        step.with_module(address, opt_module).final_ledger_slot == step.final_ledger_slot,
        step.with_data(address, key, value).final_ledger_slot == step.final_ledger_slot,
        step.with_balance(address, balance).cumulative_history_changes
            == step.cumulative_history_changes,
        step.with_module(address, opt_module).cumulative_history_changes
            == step.cumulative_history_changes,
        step.with_data(address, key, value).cumulative_history_changes
            == step.cumulative_history_changes,
{
    let nothing = empty_update();
    lemma_apply_with_change(
        ledger,
        step.caused_changes,
        address,
        ChangeModel::Update(UpdateModel { balance: Some(balance), ..nothing }),
    );
    lemma_apply_with_change(
        ledger,
        step.caused_changes,
        address,
        ChangeModel::Update(UpdateModel { opt_module: Some(opt_module), ..nothing }),
    );
    lemma_apply_with_change(
        ledger,
        step.caused_changes,
        address,
        ChangeModel::Update(
            UpdateModel { data: Map::empty().insert(key, Some(value)), ..nothing },
        ),
    );
}

/// The changes of a history are made one after the other.
pub proof fn lemma_history_is_applied_in_order(
    ledger: LedgerModel,
    history: Seq<HistoryItemModel>,
    item: HistoryItemModel,
)
    ensures
        applied(ledger, history_changes(Seq::empty())) == ledger,
        applied(ledger, history_changes(history.push(item))) == applied(
            applied(ledger, history_changes(history)),
            item.ledger_changes,
        ),
{
    lemma_apply_empty(ledger);
    assert(history.push(item).drop_last() =~= history);
    lemma_apply_composed(ledger, history_changes(history), item.ledger_changes);
}

/// A credit succeeds just where it fits, and then adds the amount to that balance and changes
/// nothing else that the step shows. Where it does not fit, nothing changes.
pub proof fn lemma_credit(step: LedgerStepModel, address: Address, amount: Amount)
    ensures
        ({
            let (after, res) = step.credited(address, amount);
            &&& res is Ok <==> step.balance(address).raw + amount.raw <= u64::MAX
            &&& res is Err ==> res == Err::<(), BalanceError>(BalanceError::Overflow) && after
                == step
            &&& res is Ok ==> {
                &&& after.balance(address).raw == step.balance(address).raw + amount.raw
                &&& forall|a: Address|
                    a != address ==> #[trigger] after.balance(a) == step.balance(a)
                &&& after.same_but_balances(step)
            }
            &&& after.final_ledger_slot == step.final_ledger_slot
            &&& after.cumulative_history_changes == step.cumulative_history_changes
        }),
{
    if step.balance(address).raw + amount.raw <= u64::MAX {
        lemma_with_balance(
            step,
            address,
            Amount { raw: (step.balance(address).raw + amount.raw) as u64 },
        );
    }
}

/// A debit succeeds just where the coins are there, and then takes the amount from that balance
/// and changes nothing else that the step shows. Else nothing changes.
pub proof fn lemma_debit(step: LedgerStepModel, address: Address, amount: Amount)
    ensures
        ({
            let (after, res) = step.debited(address, amount);
            &&& res is Ok <==> amount.raw <= step.balance(address).raw
            &&& res is Err ==> res == Err::<(), BalanceError>(BalanceError::Underflow) && after
                == step
            &&& res is Ok ==> {
                &&& after.balance(address).raw == step.balance(address).raw - amount.raw
                &&& forall|a: Address|
                    a != address ==> #[trigger] after.balance(a) == step.balance(a)
                &&& after.same_but_balances(step)
            }
            &&& after.final_ledger_slot == step.final_ledger_slot
            &&& after.cumulative_history_changes == step.cumulative_history_changes
        }),
{
    if amount.raw <= step.balance(address).raw {
        lemma_with_balance(
            step,
            address,
            Amount { raw: (step.balance(address).raw - amount.raw) as u64 },
        );
    }
}

/// Why a transfer fails: the source lacks the coins, and then nothing at all changes; or the
/// destination, another address, has no room for them.
pub proof fn lemma_transfer_errors(
    step: LedgerStepModel,
    from: Address,
    to: Address,
    amount: Amount,
)
    ensures
        ({
            let (after, res) = step.transferred(from, to, amount);
            let lacking = step.balance(from).raw < amount.raw;
            let full = from != to && step.balance(to).raw + amount.raw > u64::MAX;
            &&& lacking <==> res == Err::<(), TransferError>(
                TransferError::Debit(BalanceError::Underflow),
            )
            &&& lacking ==> after == step
            &&& !lacking && full <==> res == Err::<(), TransferError>(
                TransferError::Credit(BalanceError::Overflow),
            )
            &&& !lacking && !full <==> res == Ok::<(), TransferError>(())
        }),
{
    lemma_debit(step, from, amount);
    lemma_credit(step.debited(from, amount).0, to, amount);
}

/// Two ledgers show the same where every address has the same balance, module and data.
pub proof fn lemma_shows_same(a: LedgerStepModel, b: LedgerStepModel, address: Address, key: Digest)
    requires
        a.shows_same_as(b),
    ensures
        a.balance(address) == b.balance(address),
        a.module(address) == b.module(address),
        a.data(address, key) == b.data(address, key),
{
}

} // verus!
