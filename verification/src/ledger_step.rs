//! The ledger as an execution step sees it.

use crate::models::{Address, Amount, Digest, Slot};
use crate::sce_ledger::{
    applied, balance_in, data_in, duplicate_module, empty_update, entry_in,
    lemma_apply_with_change, module_in, module_view, with_change, ChangeModel, ChangesModel,
    DataUpdate, LedgerModel, SCELedger, SCELedgerChange, SCELedgerChanges, SCELedgerEntryUpdate,
    UpdateModel,
};
use crate::vec_map::Value;
use vstd::prelude::*;

verus! {

/// A final ledger and the slot it is of.
#[verifier::ext_equal]
pub struct FinalLedgerModel {
    pub ledger: LedgerModel,
    pub slot: Slot,
}

/// What a [`SCELedgerStep`] stands for.
#[verifier::ext_equal]
pub struct LedgerStepModel {
    pub final_ledger_slot: FinalLedgerModel,
    pub cumulative_history_changes: ChangesModel,
    pub caused_changes: ChangesModel,
}

impl LedgerStepModel {
    /// The current ledger: the final one, after the changes of the history, after those that the
    /// step caused.
    pub open spec fn current(self) -> LedgerModel {
        applied(
            applied(self.final_ledger_slot.ledger, self.cumulative_history_changes),
            self.caused_changes,
        )
    }

    /// The current balance of `address`.
    pub open spec fn balance(self, address: Address) -> Amount {
        balance_in(self.current(), address)
    }

    /// The current module of `address`.
    pub open spec fn module(self, address: Address) -> Option<Seq<u8>> {
        module_in(self.current(), address)
    }

    /// The current data of `address` under `key`.
    pub open spec fn data(self, address: Address, key: Digest) -> Option<Seq<u8>> {
        data_in(self.current(), address, key)
    }

    /// The step after it caused `update` of `address`.
    pub open spec fn with_update(self, address: Address, update: UpdateModel) -> LedgerStepModel {
        LedgerStepModel {
            caused_changes: with_change(self.caused_changes, address, ChangeModel::Update(update)),
            ..self
        }
    }

    /// The step after it gave `address` the balance `balance`.
    pub open spec fn with_balance(self, address: Address, balance: Amount) -> LedgerStepModel {
        self.with_update(address, UpdateModel { balance: Some(balance), ..empty_update() })
    }

    /// The step after it gave `address` the module `opt_module`.
    pub open spec fn with_module(
        self,
        address: Address,
        opt_module: Option<Seq<u8>>,
    ) -> LedgerStepModel {
        self.with_update(address, UpdateModel { opt_module: Some(opt_module), ..empty_update() })
    }

    /// The step after it wrote `value` under `key` into the datastore of `address`.
    pub open spec fn with_data(
        self,
        address: Address,
        key: Digest,
        value: Seq<u8>,
    ) -> LedgerStepModel {
        self.with_update(
            address,
            UpdateModel { data: Map::empty().insert(key, Some(value)), ..empty_update() },
        )
    }

    /// The step after an attempt to credit `address` with `amount`.
    pub open spec fn credited(self, address: Address, amount: Amount) -> (
        LedgerStepModel,
        Result<(), BalanceError>,
    ) {
        let balance = self.balance(address);
        if balance.raw + amount.raw > u64::MAX {
            (self, Err(BalanceError::Overflow))
        } else {
            (
                self.with_balance(address, Amount { raw: (balance.raw + amount.raw) as u64 }),
                Ok(()),
            )
        }
    }

    /// The step after an attempt to debit `address` by `amount`.
    pub open spec fn debited(self, address: Address, amount: Amount) -> (
        LedgerStepModel,
        Result<(), BalanceError>,
    ) {
        let balance = self.balance(address);
        if balance.raw < amount.raw {
            (self, Err(BalanceError::Underflow))
        } else {
            (
                self.with_balance(address, Amount { raw: (balance.raw - amount.raw) as u64 }),
                Ok(()),
            )
        }
    }

    /// The step after an attempt to move `amount` coins from one address to another. Where the
    /// destination cannot be credited, the source is credited back.
    pub open spec fn transferred(self, from: Address, to: Address, amount: Amount) -> (
        LedgerStepModel,
        Result<(), TransferError>,
    ) {
        match self.debited(from, amount) {
            (_, Err(error)) => (self, Err(TransferError::Debit(error))),
            (debited, Ok(_)) => match debited.credited(to, amount) {
                (_, Err(error)) => (
                    debited.with_balance(from, self.balance(from)),
                    Err(TransferError::Credit(error)),
                ),
                (credited, Ok(_)) => (credited, Ok(())),
            },
        }
    }

    /// Whether a transfer succeeds: the source has the coins, and the destination has room for
    /// them.
    pub open spec fn can_transfer(self, from: Address, to: Address, amount: Amount) -> bool {
        &&& amount.raw <= self.balance(from).raw
        &&& from == to || self.balance(to).raw + amount.raw <= u64::MAX
    }

    /// Whether both steps show the same ledger: the same balances, modules and data.
    pub open spec fn shows_same_as(self, other: LedgerStepModel) -> bool {
        &&& forall|address: Address| #[trigger] self.balance(address) == other.balance(address)
        &&& self.same_but_balances(other)
    }

    /// Whether both steps show the same modules and data.
    pub open spec fn same_but_balances(self, other: LedgerStepModel) -> bool {
        &&& forall|address: Address| #[trigger] self.module(address) == other.module(address)
        &&& forall|address: Address, key: Digest| #[trigger]
            self.data(address, key) == other.data(address, key)
    }
}

/// An update changes one entry of the current ledger.
proof fn lemma_with_update(step: LedgerStepModel, address: Address, update: UpdateModel)
    ensures
        forall|a: Address|
            #![trigger entry_in(step.with_update(address, update).current(), a)]
            entry_in(step.with_update(address, update).current(), a) == if a == address {
                ChangeModel::Update(update).applied(entry_in(step.current(), a))
            } else {
                entry_in(step.current(), a)
            },
{
    let base = applied(step.final_ledger_slot.ledger, step.cumulative_history_changes);
    lemma_apply_with_change(base, step.caused_changes, address, ChangeModel::Update(update));
}

/// Giving an address a balance changes that balance, and nothing else.
pub proof fn lemma_with_balance(step: LedgerStepModel, address: Address, balance: Amount)
    ensures
        step.with_balance(address, balance).balance(address) == balance,
        forall|a: Address|
            a != address ==> #[trigger] step.with_balance(address, balance).balance(a)
                == step.balance(a),
        step.with_balance(address, balance).same_but_balances(step),
{
    lemma_with_update(step, address, UpdateModel { balance: Some(balance), ..empty_update() });
}

/// Giving an address a module changes that module, and nothing else.
pub proof fn lemma_with_module(
    step: LedgerStepModel,
    address: Address,
    opt_module: Option<Seq<u8>>,
)
    ensures
        step.with_module(address, opt_module).module(address) == opt_module,
        forall|a: Address|
            a != address ==> #[trigger] step.with_module(address, opt_module).module(a)
                == step.module(a),
        forall|a: Address| #[trigger]
            step.with_module(address, opt_module).balance(a) == step.balance(a),
        forall|a: Address, key: Digest| #[trigger]
            step.with_module(address, opt_module).data(a, key) == step.data(a, key),
{
    lemma_with_update(
        step,
        address,
        UpdateModel { opt_module: Some(opt_module), ..empty_update() },
    );
}

/// Writing a row of a datastore changes that row, and nothing else.
pub proof fn lemma_with_data(step: LedgerStepModel, address: Address, key: Digest, value: Seq<u8>)
    ensures
        step.with_data(address, key, value).data(address, key) == Some(value),
        forall|a: Address, k: Digest|
            a != address || k != key ==> #[trigger] step.with_data(address, key, value).data(a, k)
                == step.data(a, k),
        forall|a: Address| #[trigger]
            step.with_data(address, key, value).balance(a) == step.balance(a),
        forall|a: Address| #[trigger]
            step.with_data(address, key, value).module(a) == step.module(a),
{
    lemma_with_update(
        step,
        address,
        UpdateModel { data: Map::empty().insert(key, Some(value)), ..empty_update() },
    );
}

/// A transfer moves coins and neither makes nor loses any: it either takes the amount from the
/// source and gives it to the destination, or leaves every balance as it was. It succeeds just
/// where the source has the coins and the destination has room. It touches no module and no data.
pub proof fn lemma_transfer_conserves_coins(
    step: LedgerStepModel,
    from: Address,
    to: Address,
    amount: Amount,
)
    ensures
        step.transferred(from, to, amount).1 is Ok <==> step.can_transfer(from, to, amount),
        step.transferred(from, to, amount).1 is Err || from == to ==> step.transferred(
            from,
            to,
            amount,
        ).0.shows_same_as(step),
        step.transferred(from, to, amount).1 is Ok && from != to ==> {
            let after = step.transferred(from, to, amount).0;
            &&& after.balance(from).raw == step.balance(from).raw - amount.raw
            &&& after.balance(to).raw == step.balance(to).raw + amount.raw
            &&& forall|a: Address|
                a != from && a != to ==> #[trigger] after.balance(a) == step.balance(a)
        },
        step.transferred(from, to, amount).0.same_but_balances(step),
        step.transferred(from, to, amount).0.final_ledger_slot == step.final_ledger_slot,
        step.transferred(from, to, amount).0.cumulative_history_changes
            == step.cumulative_history_changes,
{
    let start = step.balance(from);
    if amount.raw <= start.raw {
        let left = Amount { raw: (start.raw - amount.raw) as u64 };
        let debited = step.with_balance(from, left);
        lemma_with_balance(step, from, left);
        let there = debited.balance(to);
        if there.raw + amount.raw <= u64::MAX {
            lemma_with_balance(debited, to, Amount { raw: (there.raw + amount.raw) as u64 });
        } else {
            lemma_with_balance(debited, from, start);
        }
    }
}

/// A balance that would be too large or negative.
#[derive(Clone, Copy, Debug, PartialEq, Eq)]
pub enum BalanceError {
    Overflow,
    Underflow,
}

/// Why a transfer failed.
#[derive(Clone, Copy, Debug, PartialEq, Eq)]
pub enum TransferError {
    /// the source could not be debited
    Debit(BalanceError),
    /// the destination could not be credited
    Credit(BalanceError),
}

/// A final ledger and the slot it is of.
pub struct FinalLedger {
    /// ledger
    pub ledger: SCELedger,
    /// slot after which the ledger is as it is
    pub slot: Slot,
}

impl View for FinalLedger {
    type V = FinalLedgerModel;

    open spec fn view(&self) -> FinalLedgerModel {
        FinalLedgerModel { ledger: self.ledger@, slot: self.slot }
    }
}

impl Value for FinalLedger {
    fn duplicate(&self) -> (copy: Self) {
        FinalLedger { ledger: self.ledger.duplicate(), slot: self.slot }
    }
}

/// The ledger as an execution step sees it: applying `cumulative_history_changes` and then
/// `caused_changes` to the final ledger gives the current one.
pub struct SCELedgerStep {
    /// final ledger and its slot
    pub final_ledger_slot: FinalLedger,
    /// changes of the steps that are not final yet
    pub cumulative_history_changes: SCELedgerChanges,
    /// changes of this step
    pub caused_changes: SCELedgerChanges,
}

impl View for SCELedgerStep {
    type V = LedgerStepModel;

    open spec fn view(&self) -> LedgerStepModel {
        LedgerStepModel {
            final_ledger_slot: self.final_ledger_slot@,
            cumulative_history_changes: self.cumulative_history_changes@,
            caused_changes: self.caused_changes@,
        }
    }
}

impl SCELedgerStep {
    /// A step on `final_ledger_slot` with no changes.
    pub fn new(final_ledger_slot: FinalLedger) -> (step: SCELedgerStep)
        ensures
            step@ == (LedgerStepModel {
                final_ledger_slot: final_ledger_slot@,
                cumulative_history_changes: Map::empty(),
                caused_changes: Map::empty(),
            }),
    {
        SCELedgerStep {
            final_ledger_slot,
            cumulative_history_changes: SCELedgerChanges::new(),
            caused_changes: SCELedgerChanges::new(),
        }
    }

    /// The current balance of `address`; zero where it has no entry.
    pub fn get_balance(&self, address: &Address) -> (balance: Amount)
        ensures
            balance == self@.balance(*address),
    {
        match self.caused_changes.0.get(address) {
            Some(SCELedgerChange::Delete) => return Amount::zero(),
            Some(SCELedgerChange::Put(entry)) => return entry.balance,
            Some(SCELedgerChange::Update(update)) => {
                if let Some(balance) = update.update_balance {
                    return balance;
                }
            },
            None => {},
        }
        match self.cumulative_history_changes.0.get(address) {
            Some(SCELedgerChange::Delete) => return Amount::zero(),
            Some(SCELedgerChange::Put(entry)) => return entry.balance,
            Some(SCELedgerChange::Update(update)) => {
                if let Some(balance) = update.update_balance {
                    return balance;
                }
            },
            None => {},
        }
        match self.final_ledger_slot.ledger.0.get(address) {
            Some(entry) => entry.balance,
            None => Amount::zero(),
        }
    }

    /// The current module of `address`, if it has one.
    pub fn get_module(&self, address: &Address) -> (opt_module: Option<Vec<u8>>)
        ensures
            module_view(opt_module) == self@.module(*address),
    {
        match self.caused_changes.0.get(address) {
            Some(SCELedgerChange::Delete) => return None,
            Some(SCELedgerChange::Put(entry)) => return duplicate_module(&entry.opt_module),
            Some(SCELedgerChange::Update(update)) => {
                if let Some(opt_module) = &update.update_opt_module {
                    return duplicate_module(opt_module);
                }
            },
            None => {},
        }
        match self.cumulative_history_changes.0.get(address) {
            Some(SCELedgerChange::Delete) => return None,
            Some(SCELedgerChange::Put(entry)) => return duplicate_module(&entry.opt_module),
            Some(SCELedgerChange::Update(update)) => {
                if let Some(opt_module) = &update.update_opt_module {
                    return duplicate_module(opt_module);
                }
            },
            None => {},
        }
        match self.final_ledger_slot.ledger.0.get(address) {
            Some(entry) => duplicate_module(&entry.opt_module),
            None => None,
        }
    }

    /// The current data of `address` under `key`, if there is any.
    fn find_data_entry(&self, address: &Address, key: &Digest) -> (value: Option<&Vec<u8>>)
        ensures
            match value {
                Some(value) => self@.data(*address, *key) == Some(value@),
                None => self@.data(*address, *key) is None,
            },
    {
        match self.caused_changes.0.get(address) {
            Some(SCELedgerChange::Delete) => return None,
            Some(SCELedgerChange::Put(entry)) => return entry.data.get(key),
            Some(SCELedgerChange::Update(update)) => {
                match update.update_data.get(key) {
                    Some(DataUpdate::Write(value)) => return Some(value),
                    Some(DataUpdate::Remove) => return None,
                    None => {},
                }
            },
            None => {},
        }
        match self.cumulative_history_changes.0.get(address) {
            Some(SCELedgerChange::Delete) => return None,
            Some(SCELedgerChange::Put(entry)) => return entry.data.get(key),
            Some(SCELedgerChange::Update(update)) => {
                match update.update_data.get(key) {
                    Some(DataUpdate::Write(value)) => return Some(value),
                    Some(DataUpdate::Remove) => return None,
                    None => {},
                }
            },
            None => {},
        }
        match self.final_ledger_slot.ledger.0.get(address) {
            Some(entry) => entry.data.get(key),
            None => None,
        }
    }

    /// A copy of the current data of `address` under `key`, if there is any.
    pub fn get_data_entry(&self, address: &Address, key: &Digest) -> (value: Option<Vec<u8>>)
        ensures
            module_view(value) == self@.data(*address, *key),
    {
        match self.find_data_entry(address, key) {
            Some(value) => Some(value.duplicate()),
            None => None,
        }
    }

    /// Whether `address` has data under `key`.
    pub fn has_data_entry(&self, address: &Address, key: &Digest) -> (present: bool)
        ensures
            present == (self@.data(*address, *key) is Some),
    {
        self.find_data_entry(address, key).is_some()
    }

    /// Gives `address` the balance `balance`.
    pub fn set_balance(&mut self, address: Address, balance: Amount)
        ensures
            final(self)@ == old(self)@.with_balance(address, balance),
    {
        let mut update = SCELedgerEntryUpdate::empty();
        update.update_balance = Some(balance);
        self.caused_changes.apply_change(address, &SCELedgerChange::Update(update));
    }

    /// Credits `address` with `amount` if `positive`, else debits it. Nothing changes on error.
    pub fn set_balance_delta(&mut self, address: Address, amount: Amount, positive: bool) -> (res:
        Result<(), BalanceError>)
        ensures
            positive ==> (final(self)@, res) == old(self)@.credited(address, amount),
            !positive ==> (final(self)@, res) == old(self)@.debited(address, amount),
    {
        let balance = self.get_balance(&address);
        if positive {
            match balance.checked_add(amount) {
                Some(balance) => {
                    self.set_balance(address, balance);
                    Ok(())
                },
                None => Err(BalanceError::Overflow),
            }
        } else {
            match balance.checked_sub(amount) {
                Some(balance) => {
                    self.set_balance(address, balance);
                    Ok(())
                },
                None => Err(BalanceError::Underflow),
            }
        }
    }

    /// Moves `amount` coins from one address to another. On error every balance is as before.
    pub fn transfer(&mut self, from: Address, to: Address, amount: Amount) -> (res: Result<
        (),
        TransferError,
    >)
        ensures
            (final(self)@, res) == old(self)@.transferred(from, to, amount),
    {
        if let Err(error) = self.set_balance_delta(from, amount, false) {
            return Err(TransferError::Debit(error));
        }
        let ghost debited = self@;
        proof {
            let start = old(self)@.balance(from);
            lemma_with_balance(
                old(self)@,
                from,
                Amount { raw: (start.raw - amount.raw) as u64 },
            );
        }
        if let Err(error) = self.set_balance_delta(to, amount, true) {
            // the same coins were just taken out, so there is room for them
            let cancelled = self.set_balance_delta(from, amount, true);
            assert(cancelled is Ok);
            assert(self@ == debited.with_balance(from, old(self)@.balance(from)));
            return Err(TransferError::Credit(error));
        }
        Ok(())
    }

    /// Gives `address` the module `opt_module`.
    pub fn set_module(&mut self, address: Address, opt_module: Option<Vec<u8>>)
        ensures
            final(self)@ == old(self)@.with_module(address, module_view(opt_module)),
    {
        let mut update = SCELedgerEntryUpdate::empty();
        update.update_opt_module = Some(opt_module);
        self.caused_changes.apply_change(address, &SCELedgerChange::Update(update));
    }

    /// Writes `value` under `key` into the datastore of `address`.
    pub fn set_data_entry(&mut self, address: Address, key: Digest, value: Vec<u8>)
        ensures
            final(self)@ == old(self)@.with_data(address, key, value@),
    {
        let mut update = SCELedgerEntryUpdate::empty();
        update.update_data.insert(key, DataUpdate::Write(value));
        self.caused_changes.apply_change(address, &SCELedgerChange::Update(update));
    }
}

} // verus!
