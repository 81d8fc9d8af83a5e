//! The ledger of the smart contract engine, and changes to it.
//!
//! A ledger maps addresses to entries: a balance, a module and a datastore. What an execution
//! does to a ledger is kept apart from it, as changes by address. Changes can be applied to a
//! ledger, and to earlier changes: doing the one or the other first makes no difference
//! ([`lemma_apply_composed`]).

use crate::models::{Address, Amount, Digest};
use crate::vec_map::{Value, VecMap};
use vstd::prelude::*;

verus! {

/// What a ledger entry holds.
#[verifier::ext_equal]
pub struct EntryModel {
    pub balance: Amount,
    pub opt_module: Option<Seq<u8>>,
    pub data: Map<Digest, Seq<u8>>,
}

/// What an update writes into an entry. Of the data, `None` takes a row out.
#[verifier::ext_equal]
pub struct UpdateModel {
    pub balance: Option<Amount>,
    pub opt_module: Option<Option<Seq<u8>>>,
    pub data: Map<Digest, Option<Seq<u8>>>,
}

/// A change to one entry.
#[verifier::ext_equal]
pub enum ChangeModel {
    Delete,
    Put(EntryModel),
    Update(UpdateModel),
}

/// A ledger.
pub type LedgerModel = Map<Address, EntryModel>;

/// Changes by address.
pub type ChangesModel = Map<Address, ChangeModel>;

/// An entry that nothing was written into: no coins, no module, no data.
pub open spec fn empty_entry() -> EntryModel {
    EntryModel { balance: Amount { raw: 0 }, opt_module: None, data: Map::empty() }
}

/// An update that writes nothing.
pub open spec fn empty_update() -> UpdateModel {
    UpdateModel { balance: None, opt_module: None, data: Map::empty() }
}

/// A datastore after the writes `update`.
pub open spec fn data_updated(
    data: Map<Digest, Seq<u8>>,
    update: Map<Digest, Option<Seq<u8>>>,
) -> Map<Digest, Seq<u8>> {
    Map::new(
        |key: Digest|
            if update.contains_key(key) {
                update[key] is Some
            } else {
                data.contains_key(key)
            },
        |key: Digest|
            if update.contains_key(key) {
                update[key]->0
            } else {
                data[key]
            },
    )
}

impl EntryModel {
    /// The entry after `update`.
    pub open spec fn updated(self, update: UpdateModel) -> EntryModel {
        EntryModel {
            balance: match update.balance {
                Some(balance) => balance,
                None => self.balance,
            },
            opt_module: match update.opt_module {
                Some(opt_module) => opt_module,
                None => self.opt_module,
            },
            data: data_updated(self.data, update.data),
        }
    }
}

impl UpdateModel {
    /// This update, followed by `later`.
    pub open spec fn followed_by(self, later: UpdateModel) -> UpdateModel {
        UpdateModel {
            balance: match later.balance {
                Some(balance) => Some(balance),
                None => self.balance,
            },
            opt_module: match later.opt_module {
                Some(opt_module) => Some(opt_module),
                None => self.opt_module,
            },
            data: self.data.union_prefer_right(later.data),
        }
    }
}

impl ChangeModel {
    /// This change, followed by `later`.
    pub open spec fn followed_by(self, later: ChangeModel) -> ChangeModel {
        match later {
            ChangeModel::Delete => ChangeModel::Delete,
            ChangeModel::Put(entry) => ChangeModel::Put(entry),
            ChangeModel::Update(update) => match self {
                ChangeModel::Delete => ChangeModel::Put(empty_entry().updated(update)),
                ChangeModel::Put(entry) => ChangeModel::Put(entry.updated(update)),
                ChangeModel::Update(earlier) => ChangeModel::Update(earlier.followed_by(update)),
            },
        }
    }

    /// What becomes of an entry, `None` where there is none. An update creates a missing entry.
    pub open spec fn applied(self, entry: Option<EntryModel>) -> Option<EntryModel> {
        match self {
            ChangeModel::Delete => None,
            ChangeModel::Put(entry) => Some(entry),
            ChangeModel::Update(update) => Some(
                match entry {
                    Some(entry) => entry,
                    None => empty_entry(),
                }.updated(update),
            ),
        }
    }
}

/// The entry of `address`, if it has one.
pub open spec fn entry_in(ledger: LedgerModel, address: Address) -> Option<EntryModel> {
    if ledger.contains_key(address) {
        Some(ledger[address])
    } else {
        None
    }
}

/// The balance of `address`; zero where it has no entry.
pub open spec fn balance_in(ledger: LedgerModel, address: Address) -> Amount {
    match entry_in(ledger, address) {
        Some(entry) => entry.balance,
        None => Amount { raw: 0 },
    }
}

/// The module of `address`, if it has one.
pub open spec fn module_in(ledger: LedgerModel, address: Address) -> Option<Seq<u8>> {
    match entry_in(ledger, address) {
        Some(entry) => entry.opt_module,
        None => None,
    }
}

/// The data of `address` under `key`, if there is any.
pub open spec fn data_in(ledger: LedgerModel, address: Address, key: Digest) -> Option<Seq<u8>> {
    match entry_in(ledger, address) {
        Some(entry) => if entry.data.contains_key(key) {
            Some(entry.data[key])
        } else {
            None
        },
        None => None,
    }
}

/// What becomes of the entry of `address` under `changes`.
pub open spec fn entry_after(
    ledger: LedgerModel,
    changes: ChangesModel,
    address: Address,
) -> Option<EntryModel> {
    if changes.contains_key(address) {
        changes[address].applied(entry_in(ledger, address))
    } else {
        entry_in(ledger, address)
    }
}

/// A ledger after `changes`.
pub open spec fn applied(ledger: LedgerModel, changes: ChangesModel) -> LedgerModel {
    Map::new(
        |address: Address| entry_after(ledger, changes, address) is Some,
        |address: Address| entry_after(ledger, changes, address)->0,
    )
}

/// `changes`, followed by `change` to `address`.
pub open spec fn with_change(
    changes: ChangesModel,
    address: Address,
    change: ChangeModel,
) -> ChangesModel {
    changes.insert(
        address,
        if changes.contains_key(address) {
            changes[address].followed_by(change)
        } else {
            change
        },
    )
}

/// `earlier`, followed by `later`.
pub open spec fn composed(earlier: ChangesModel, later: ChangesModel) -> ChangesModel {
    Map::new(
        |address: Address| earlier.contains_key(address) || later.contains_key(address),
        |address: Address|
            if !later.contains_key(address) {
                earlier[address]
            } else if earlier.contains_key(address) {
                earlier[address].followed_by(later[address])
            } else {
                later[address]
            },
    )
}

/// The ledger in which each address has the balance that `balances` last gives it, and nothing
/// else.
pub open spec fn ledger_of_balances(balances: Seq<(Address, Amount)>) -> LedgerModel
    decreases balances.len(),
{
    if balances.len() == 0 {
        Map::empty()
    } else {
        ledger_of_balances(balances.drop_last()).insert(
            balances.last().0,
            EntryModel { balance: balances.last().1, ..empty_entry() },
        )
    }
}

/// Applying changes one after the other is the same as applying their composition.
pub proof fn lemma_apply_composed(ledger: LedgerModel, earlier: ChangesModel, later: ChangesModel)
    ensures
        applied(applied(ledger, earlier), later) == applied(ledger, composed(earlier, later)),
{
    let left = applied(applied(ledger, earlier), later);
    let right = applied(ledger, composed(earlier, later));
    let middle = applied(ledger, earlier);
    assert forall|address: Address|
        #![trigger left.contains_key(address)]
        #![trigger right.contains_key(address)]
        entry_in(left, address) == entry_in(right, address) by {
        assert(entry_in(middle, address) == entry_after(ledger, earlier, address));
        assert(entry_in(left, address) == entry_after(middle, later, address));
        assert(entry_in(right, address) == entry_after(ledger, composed(earlier, later), address));
        if earlier.contains_key(address) && later.contains_key(address) {
            lemma_change_followed_by(earlier[address], later[address], entry_in(ledger, address));
        }
    }
    assert forall|address: Address| left.contains_key(address) implies left[address]
        == right[address] by {
        assert(entry_in(left, address) == entry_in(right, address));
    }
    assert(left =~= right);
}

/// Two updates in a row are the update that writes both.
proof fn lemma_update_followed_by(earlier: UpdateModel, later: UpdateModel, entry: EntryModel)
    ensures
        entry.updated(earlier).updated(later) == entry.updated(earlier.followed_by(later)),
{
    let left = entry.updated(earlier).updated(later);
    let right = entry.updated(earlier.followed_by(later));
    assert(left.data =~= right.data);
    assert(left =~= right);
}

/// Two changes in a row are the change that does both.
proof fn lemma_change_followed_by(
    earlier: ChangeModel,
    later: ChangeModel,
    entry: Option<EntryModel>,
)
    ensures
        later.applied(earlier.applied(entry)) == earlier.followed_by(later).applied(entry),
{
    if let (ChangeModel::Update(first), ChangeModel::Update(second)) = (earlier, later) {
        let start = match entry {
            Some(entry) => entry,
            None => empty_entry(),
        };
        lemma_update_followed_by(first, second, start);
    }
}

/// Changes compose in whatever grouping.
pub proof fn lemma_composed_associative(a: ChangesModel, b: ChangesModel, c: ChangesModel)
    ensures
        composed(composed(a, b), c) == composed(a, composed(b, c)),
{
    let left = composed(composed(a, b), c);
    let right = composed(a, composed(b, c));
    assert forall|address: Address| left.contains_key(address) implies left[address]
        == right[address] by {
        if a.contains_key(address) && b.contains_key(address) && c.contains_key(address) {
            lemma_followed_by_associative(a[address], b[address], c[address]);
        }
    }
    assert(left =~= right);
}

proof fn lemma_followed_by_associative(a: ChangeModel, b: ChangeModel, c: ChangeModel)
    ensures
        a.followed_by(b).followed_by(c) == a.followed_by(b.followed_by(c)),
{
    if let ChangeModel::Update(second) = b {
        if let ChangeModel::Update(third) = c {
            match a {
                ChangeModel::Delete => {
                    lemma_update_followed_by(second, third, empty_entry());
                },
                ChangeModel::Put(entry) => {
                    lemma_update_followed_by(second, third, entry);
                },
                ChangeModel::Update(first) => {
                    let left = first.followed_by(second).followed_by(third);
                    let right = first.followed_by(second.followed_by(third));
                    assert(left.data =~= right.data);
                    assert(left =~= right);
                },
            }
        }
    }
}

/// No changes are neutral.
pub proof fn lemma_composed_empty(changes: ChangesModel)
    ensures
        composed(changes, Map::empty()) == changes,
        composed(Map::empty(), changes) == changes,
{
    assert(composed(changes, Map::empty()) =~= changes);
    assert(composed(Map::empty(), changes) =~= changes);
}

/// Without changes a ledger stays as it is.
pub proof fn lemma_apply_empty(ledger: LedgerModel)
    ensures
        applied(ledger, Map::empty()) == ledger,
{
    assert(applied(ledger, Map::empty()) =~= ledger);
}

/// Recording one more change is the same as making that change to the ledger that the changes
/// give.
pub proof fn lemma_apply_with_change(
    ledger: LedgerModel,
    changes: ChangesModel,
    address: Address,
    change: ChangeModel,
)
    ensures
        applied(ledger, with_change(changes, address, change)) == applied(
            applied(ledger, changes),
            Map::empty().insert(address, change),
        ),
{
    let one = Map::<Address, ChangeModel>::empty().insert(address, change);
    lemma_apply_composed(ledger, changes, one);
    assert(composed(changes, one) =~= with_change(changes, address, change));
}

/// A module, or none.
pub open spec fn module_view(opt_module: Option<Vec<u8>>) -> Option<Seq<u8>> {
    match opt_module {
        Some(module) => Some(module@),
        None => None,
    }
}

/// A copy of a module, or none.
pub fn duplicate_module(opt_module: &Option<Vec<u8>>) -> (copy: Option<Vec<u8>>)
    ensures
        module_view(copy) == module_view(*opt_module),
{
    match opt_module {
        Some(module) => Some(module.duplicate()),
        None => None,
    }
}

/// An entry in the ledger.
pub struct SCELedgerEntry {
    /// balance
    pub balance: Amount,
    /// executable module, if any
    pub opt_module: Option<Vec<u8>>,
    /// datastore
    pub data: VecMap<Digest, Vec<u8>>,
}

impl View for SCELedgerEntry {
    type V = EntryModel;

    open spec fn view(&self) -> EntryModel {
        EntryModel {
            balance: self.balance,
            opt_module: module_view(self.opt_module),
            data: self.data@,
        }
    }
}

impl Value for SCELedgerEntry {
    fn duplicate(&self) -> (copy: Self) {
        SCELedgerEntry {
            balance: self.balance,
            opt_module: duplicate_module(&self.opt_module),
            data: self.data.duplicate(),
        }
    }
}

impl SCELedgerEntry {
    /// An entry with no coins, no module and no data.
    pub fn empty() -> (entry: SCELedgerEntry)
        ensures
            entry@ == empty_entry(),
    {
        SCELedgerEntry { balance: Amount::zero(), opt_module: None, data: VecMap::new() }
    }

    /// Applies an update to the entry.
    pub fn apply_entry_update(&mut self, update: &SCELedgerEntryUpdate)
        ensures
            final(self)@ == old(self)@.updated(update@),
    {
        if let Some(balance) = update.update_balance {
            self.balance = balance;
        }
        if let Some(opt_module) = &update.update_opt_module {
            self.opt_module = duplicate_module(opt_module);
        }
        let len: usize = update.update_data.len();
        let mut i: usize = 0;
        assert(self.data@ =~= data_updated(old(self).data@, update.update_data.prefix(0)));
        while i < len
            invariant
                i <= len,
                len == update.update_data.spec_len(),
                self.balance == old(self)@.updated(update@).balance,
                module_view(self.opt_module) == old(self)@.updated(update@).opt_module,
                self.data@ == data_updated(old(self).data@, update.update_data.prefix(i as int)),
            decreases len - i,
        {
            let (key, row) = update.update_data.entry_at(i);
            match row {
                DataUpdate::Write(value) => {
                    self.data.insert(key, value.duplicate());
                },
                DataUpdate::Remove => {
                    self.data.remove(&key);
                },
            }
            i = i + 1;
            assert(self.data@ =~= data_updated(
                old(self).data@,
                update.update_data.prefix(i as int),
            ));
        }
    }
}

/// What an update does to one row of a datastore.
pub enum DataUpdate {
    /// write the row
    Write(Vec<u8>),
    /// take the row out
    Remove,
}

impl View for DataUpdate {
    type V = Option<Seq<u8>>;

    open spec fn view(&self) -> Option<Seq<u8>> {
        match self {
            DataUpdate::Write(value) => Some(value@),
            DataUpdate::Remove => None,
        }
    }
}

impl Value for DataUpdate {
    fn duplicate(&self) -> (copy: Self) {
        match self {
            DataUpdate::Write(value) => DataUpdate::Write(value.duplicate()),
            DataUpdate::Remove => DataUpdate::Remove,
        }
    }
}

/// An update of a ledger entry: it writes what it holds and leaves the rest.
pub struct SCELedgerEntryUpdate {
    /// new balance, if any
    pub update_balance: Option<Amount>,
    /// new module or removal of the module, if any
    pub update_opt_module: Option<Option<Vec<u8>>>,
    /// rows of the datastore
    pub update_data: VecMap<Digest, DataUpdate>,
}

impl View for SCELedgerEntryUpdate {
    type V = UpdateModel;

    open spec fn view(&self) -> UpdateModel {
        UpdateModel {
            balance: self.update_balance,
            opt_module: match self.update_opt_module {
                Some(opt_module) => Some(module_view(opt_module)),
                None => None,
            },
            data: self.update_data@,
        }
    }
}

impl Value for SCELedgerEntryUpdate {
    fn duplicate(&self) -> (copy: Self) {
        SCELedgerEntryUpdate {
            update_balance: self.update_balance,
            update_opt_module: match &self.update_opt_module {
                Some(opt_module) => Some(duplicate_module(opt_module)),
                None => None,
            },
            update_data: self.update_data.duplicate(),
        }
    }
}

impl SCELedgerEntryUpdate {
    /// An update that writes nothing.
    pub fn empty() -> (update: SCELedgerEntryUpdate)
        ensures
            update@ == empty_update(),
    {
        SCELedgerEntryUpdate {
            update_balance: None,
            update_opt_module: None,
            update_data: VecMap::new(),
        }
    }

    /// Adds what `other` writes to what this update writes.
    pub fn apply_entry_update(&mut self, other: &SCELedgerEntryUpdate)
        ensures
            final(self)@ == old(self)@.followed_by(other@),
    {
        if let Some(balance) = other.update_balance {
            self.update_balance = Some(balance);
        }
        if let Some(opt_module) = &other.update_opt_module {
            self.update_opt_module = Some(duplicate_module(opt_module));
        }
        let len: usize = other.update_data.len();
        let mut i: usize = 0;
        assert(self.update_data@ =~= old(self).update_data@.union_prefer_right(
            other.update_data.prefix(0),
        ));
        let ghost balance = old(self)@.followed_by(other@).balance;
        let ghost opt_module = old(self)@.followed_by(other@).opt_module;
        while i < len
            invariant
                i <= len,
                len == other.update_data.spec_len(),
                self@.balance == balance,
                self@.opt_module == opt_module,
                self.update_data@ == old(self).update_data@.union_prefer_right(
                    other.update_data.prefix(i as int),
                ),
            decreases len - i,
        {
            let (key, row) = other.update_data.entry_at(i);
            self.update_data.insert(key, row.duplicate());
            i = i + 1;
            assert(self.update_data@ =~= old(self).update_data@.union_prefer_right(
                other.update_data.prefix(i as int),
            ));
        }
    }
}

/// A change to a ledger entry.
pub enum SCELedgerChange {
    /// delete the entry
    Delete,
    /// insert or replace the entry
    Put(SCELedgerEntry),
    /// update the entry
    Update(SCELedgerEntryUpdate),
}

impl View for SCELedgerChange {
    type V = ChangeModel;

    open spec fn view(&self) -> ChangeModel {
        match self {
            SCELedgerChange::Delete => ChangeModel::Delete,
            SCELedgerChange::Put(entry) => ChangeModel::Put(entry@),
            SCELedgerChange::Update(update) => ChangeModel::Update(update@),
        }
    }
}

impl Value for SCELedgerChange {
    fn duplicate(&self) -> (copy: Self) {
        match self {
            SCELedgerChange::Delete => SCELedgerChange::Delete,
            SCELedgerChange::Put(entry) => SCELedgerChange::Put(entry.duplicate()),
            SCELedgerChange::Update(update) => SCELedgerChange::Update(update.duplicate()),
        }
    }
}

impl SCELedgerChange {
    /// This change, followed by `other`.
    pub fn apply_change(self, other: &SCELedgerChange) -> (change: SCELedgerChange)
        ensures
            change@ == self@.followed_by(other@),
    {
        match other {
            SCELedgerChange::Delete => SCELedgerChange::Delete,
            SCELedgerChange::Put(entry) => SCELedgerChange::Put(entry.duplicate()),
            SCELedgerChange::Update(update) => match self {
                SCELedgerChange::Delete => {
                    let mut entry = SCELedgerEntry::empty();
                    entry.apply_entry_update(update);
                    SCELedgerChange::Put(entry)
                },
                SCELedgerChange::Put(mut entry) => {
                    entry.apply_entry_update(update);
                    SCELedgerChange::Put(entry)
                },
                SCELedgerChange::Update(mut earlier) => {
                    earlier.apply_entry_update(update);
                    SCELedgerChange::Update(earlier)
                },
            },
        }
    }
}

/// Changes to a ledger, by address.
pub struct SCELedgerChanges(pub VecMap<Address, SCELedgerChange>);

impl View for SCELedgerChanges {
    type V = ChangesModel;

    open spec fn view(&self) -> ChangesModel {
        self.0@
    }
}

impl Value for SCELedgerChanges {
    fn duplicate(&self) -> (copy: Self) {
        SCELedgerChanges(self.0.duplicate())
    }
}

impl SCELedgerChanges {
    /// No changes.
    pub fn new() -> (changes: SCELedgerChanges)
        ensures
            changes@ == Map::<Address, ChangeModel>::empty(),
    {
        SCELedgerChanges(VecMap::new())
    }

    /// Adds one change.
    pub fn apply_change(&mut self, address: Address, change: &SCELedgerChange)
        ensures
            final(self)@ == with_change(old(self)@, address, change@),
    {
        let new_change = match self.0.get(&address) {
            Some(current) => current.duplicate().apply_change(change),
            None => change.duplicate(),
        };
        self.0.insert(address, new_change);
    }

    /// Adds all changes of `other`.
    pub fn apply_changes(&mut self, other: &SCELedgerChanges)
        ensures
            final(self)@ == composed(old(self)@, other@),
    {
        let len: usize = other.0.len();
        let mut i: usize = 0;
        assert(self@ =~= composed(old(self)@, other.0.prefix(0)));
        while i < len
            invariant
                i <= len,
                len == other.0.spec_len(),
                self@ == composed(old(self)@, other.0.prefix(i as int)),
            decreases len - i,
        {
            let (address, change) = other.0.entry_at(i);
            self.apply_change(address, change);
            i = i + 1;
            assert(self@ =~= composed(old(self)@, other.0.prefix(i as int)));
        }
        assert(other.0.prefix(len as int) == other@) by {
            assert(len == other.0.spec_len());
        }
    }

    /// Drops all changes.
    pub fn clear(&mut self)
        ensures
            final(self)@ == Map::<Address, ChangeModel>::empty(),
    {
        self.0.clear();
    }
}

/// A ledger.
pub struct SCELedger(pub VecMap<Address, SCELedgerEntry>);

impl View for SCELedger {
    type V = LedgerModel;

    open spec fn view(&self) -> LedgerModel {
        self.0@
    }
}

impl Value for SCELedger {
    fn duplicate(&self) -> (copy: Self) {
        SCELedger(self.0.duplicate())
    }
}

impl SCELedger {
    /// The ledger in which each address has the balance that `balances` last gives it.
    pub fn from_balances_map(balances: &Vec<(Address, Amount)>) -> (ledger: SCELedger)
        ensures
            ledger@ == ledger_of_balances(balances@),
    {
        let mut ledger = SCELedger(VecMap::new());
        let mut i: usize = 0;
        while i < balances.len()
            invariant
                i <= balances@.len(),
                ledger@ == ledger_of_balances(balances@.take(i as int)),
            decreases balances@.len() - i,
        {
            let (address, balance) = balances[i];
            let mut entry = SCELedgerEntry::empty();
            entry.balance = balance;
            ledger.0.insert(address, entry);
            i = i + 1;
            assert(balances@.take(i as int).drop_last() =~= balances@.take(i - 1));
        }
        assert(balances@.take(i as int) =~= balances@);
        ledger
    }

    /// Applies changes to the ledger.
    pub fn apply_changes(&mut self, changes: &SCELedgerChanges)
        ensures
            final(self)@ == applied(old(self)@, changes@),
    {
        let len: usize = changes.0.len();
        let mut i: usize = 0;
        assert(self@ =~= applied(old(self)@, changes.0.prefix(0)));
        while i < len
            invariant
                i <= len,
                len == changes.0.spec_len(),
                self@ == applied(old(self)@, changes.0.prefix(i as int)),
            decreases len - i,
        {
            let (address, change) = changes.0.entry_at(i);
            assert(entry_in(self@, address) == entry_in(old(self)@, address));
            match change {
                SCELedgerChange::Delete => {
                    self.0.remove(&address);
                },
                SCELedgerChange::Put(entry) => {
                    self.0.insert(address, entry.duplicate());
                },
                SCELedgerChange::Update(update) => {
                    let mut entry = match self.0.get(&address) {
                        Some(entry) => entry.duplicate(),
                        None => SCELedgerEntry::empty(),
                    };
                    entry.apply_entry_update(update);
                    self.0.insert(address, entry);
                },
            }
            i = i + 1;
            assert(self@ =~= applied(old(self)@, changes.0.prefix(i as int)));
        }
    }
}

} // verus!
