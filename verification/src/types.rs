//! What is executed, and the state of an execution.

use crate::event_store::{EventModel, EventStore, SCOutputEvent};
use crate::ledger_step::{FinalLedger, FinalLedgerModel, LedgerStepModel, SCELedgerStep};
use crate::models::{Address, Amount, BlockId, OperationId, Slot};
use crate::rng::{generator_from_seed, generator_of};
use crate::sce_ledger::{composed, ChangesModel, SCELedger, SCELedgerChanges};
use rand_xoshiro::Xoshiro256PlusPlus;
use std::collections::VecDeque;
use vstd::prelude::*;

verus! {

/// What a [`StackElement`] holds.
#[verifier::ext_equal]
pub struct StackModel {
    pub address: Address,
    pub coins: Amount,
    pub owned_addresses: Seq<Address>,
}

/// A call on the call stack.
#[derive(Debug)]
pub struct StackElement {
    /// called address
    pub address: Address,
    /// coins that came with the call
    pub coins: Amount,
    /// addresses that the call may write to and spend from
    pub owned_addresses: Vec<Address>,
}

impl View for StackElement {
    type V = StackModel;

    open spec fn view(&self) -> StackModel {
        StackModel {
            address: self.address,
            coins: self.coins,
            owned_addresses: self.owned_addresses@,
        }
    }
}

/// A call of `address` with `coins` that owns just `address`.
pub open spec fn fresh_call(address: Address, coins: Amount) -> StackModel {
    StackModel { address, coins, owned_addresses: seq![address] }
}

impl StackElement {
    /// A call of `address` with `coins` that owns just `address`.
    pub fn new(address: Address, coins: Amount) -> (element: StackElement)
        ensures
            element@ == fresh_call(address, coins),
    {
        let mut owned_addresses: Vec<Address> = Vec::new();
        owned_addresses.push(address);
        let element = StackElement { address, coins, owned_addresses };
        assert(element@ =~= fresh_call(address, coins));
        element
    }
}

/// What a call stack holds.
pub open spec fn stack_views(stack: Seq<StackElement>) -> Seq<StackModel> {
    Seq::new(stack.len(), |i: int| stack[i]@)
}

/// What an [`ExecutionContext`] holds.
#[verifier::ext_equal]
pub struct ContextModel {
    pub ledger_step: LedgerStepModel,
    pub max_gas: u64,
    pub gas_price: Amount,
    pub slot: Slot,
    pub opt_block_id: Option<BlockId>,
    pub opt_block_creator_addr: Option<Address>,
    pub operation_index: u64,
    pub stack: Seq<StackModel>,
    pub created_addr_index: u64,
    pub created_event_index: u64,
    pub events: Seq<EventModel>,
    pub read_only: bool,
    pub unsafe_rng: Xoshiro256PlusPlus,
    pub origin_operation_id: Option<OperationId>,
}

/// The state of an execution.
pub struct ExecutionContext {
    /// ledger as the step sees it
    pub ledger_step: SCELedgerStep,
    /// gas limit of the operation
    pub max_gas: u64,
    /// price of the gas
    pub gas_price: Amount,
    /// slot of the step
    pub slot: Slot,
    /// block of the step, if any
    pub opt_block_id: Option<BlockId>,
    /// creator of that block, if any
    pub opt_block_creator_addr: Option<Address>,
    /// position of the operation in its block
    pub operation_index: u64,
    /// call stack, the current call last
    pub stack: Vec<StackElement>,
    /// how many addresses were created in the slot
    pub created_addr_index: u64,
    /// how many events were created in the slot
    pub created_event_index: u64,
    /// events of the step
    pub events: EventStore,
    /// whether the execution is read-only
    pub read_only: bool,
    /// generator that contracts draw from
    pub unsafe_rng: Xoshiro256PlusPlus,
    /// operation that started the execution, if any
    pub origin_operation_id: Option<OperationId>,
}

impl View for ExecutionContext {
    type V = ContextModel;

    open spec fn view(&self) -> ContextModel {
        ContextModel {
            ledger_step: self.ledger_step@,
            max_gas: self.max_gas,
            gas_price: self.gas_price,
            slot: self.slot,
            opt_block_id: self.opt_block_id,
            opt_block_creator_addr: self.opt_block_creator_addr,
            operation_index: self.operation_index,
            stack: stack_views(self.stack@),
            created_addr_index: self.created_addr_index,
            created_event_index: self.created_event_index,
            events: self.events@,
            read_only: self.read_only,
            unsafe_rng: self.unsafe_rng,
            origin_operation_id: self.origin_operation_id,
        }
    }
}

/// The context on a final ledger before anything was executed.
pub open spec fn initial_context(final_ledger_slot: FinalLedgerModel) -> ContextModel {
    ContextModel {
        ledger_step: LedgerStepModel {
            final_ledger_slot,
            cumulative_history_changes: Map::empty(),
            caused_changes: Map::empty(),
        },
        max_gas: 0,
        gas_price: Amount { raw: 0 },
        slot: Slot { period: 0, thread: 0 },
        opt_block_id: None,
        opt_block_creator_addr: None,
        operation_index: 0,
        stack: Seq::empty(),
        created_addr_index: 0,
        created_event_index: 0,
        events: Seq::empty(),
        read_only: false,
        unsafe_rng: generator_of(Seq::new(32, |i: int| 0u8)),
        origin_operation_id: None,
    }
}

impl ExecutionContext {
    /// A context on the final ledger `ledger` of `at_slot`, before anything was executed.
    pub fn new(ledger: SCELedger, at_slot: Slot) -> (context: ExecutionContext)
        ensures
            context@ == initial_context(FinalLedgerModel { ledger: ledger@, slot: at_slot }),
    {
        let seed: [u8; 32] = [0u8; 32];
        assert(seed@ =~= Seq::new(32, |i: int| 0u8));
        let context = ExecutionContext {
            ledger_step: SCELedgerStep::new(FinalLedger { ledger, slot: at_slot }),
            max_gas: 0,
            gas_price: Amount::zero(),
            slot: Slot::new(0, 0),
            opt_block_id: None,
            opt_block_creator_addr: None,
            operation_index: 0,
            stack: Vec::new(),
            created_addr_index: 0,
            created_event_index: 0,
            events: EventStore::new(),
            read_only: false,
            unsafe_rng: generator_from_seed(seed),
            origin_operation_id: None,
        };
        assert(context@.stack =~= Seq::empty());
        context
    }
}

/// What an [`ExecutionData`] holds.
#[verifier::ext_equal]
pub struct DataModel {
    pub bytecode: Seq<u8>,
    pub sender_address: Address,
    pub max_gas: u64,
    pub gas_price: Amount,
    pub coins: Amount,
}

/// What an operation asks to execute.
#[derive(Debug)]
pub struct ExecutionData {
    /// bytecode to run
    pub bytecode: Vec<u8>,
    /// address of the sender of the operation
    pub sender_address: Address,
    /// gas limit
    pub max_gas: u64,
    /// price of the gas
    pub gas_price: Amount,
    /// coins that the sender sends along
    pub coins: Amount,
}

impl View for ExecutionData {
    type V = DataModel;

    open spec fn view(&self) -> DataModel {
        DataModel {
            bytecode: self.bytecode@,
            sender_address: self.sender_address,
            max_gas: self.max_gas,
            gas_price: self.gas_price,
            coins: self.coins,
        }
    }
}

/// What an operation is about.
#[derive(Debug)]
pub enum OperationContent {
    /// execution of bytecode
    ExecuteSC(ExecutionData),
    /// anything that the execution has no part in
    Other,
}

/// What an [`Operation`] holds, as far as the execution reads it.
#[verifier::ext_equal]
pub struct OperationModel {
    pub id: Option<OperationId>,
    pub data: Option<DataModel>,
}

/// An operation of a block.
#[derive(Debug)]
pub struct Operation {
    /// identifier; `None` where it cannot be computed
    pub id: Option<OperationId>,
    /// what the operation is about
    pub content: OperationContent,
}

impl View for Operation {
    type V = OperationModel;

    open spec fn view(&self) -> OperationModel {
        OperationModel {
            id: self.id,
            data: match self.content {
                OperationContent::ExecuteSC(data) => Some(data@),
                OperationContent::Other => None,
            },
        }
    }
}

impl OperationModel {
    /// Whether the operation is executed: it is about execution and has an identifier.
    pub open spec fn executable(self) -> bool {
        self.data is Some && self.id is Some
    }
}

/// What a list of operations holds.
pub open spec fn operation_views(operations: Seq<Operation>) -> Seq<OperationModel> {
    Seq::new(operations.len(), |i: int| operations[i]@)
}

/// A block.
#[derive(Debug)]
pub struct Block {
    /// address of the creator
    pub creator_address: Address,
    /// operations, in the order of their execution
    pub operations: Vec<Operation>,
}

/// A block and its identifier.
#[verifier::ext_equal]
pub struct BlockModel {
    pub id: BlockId,
    pub creator_address: Address,
    pub operations: Seq<OperationModel>,
}

/// What an [`ExecutionStep`] holds.
#[verifier::ext_equal]
pub struct ExecutionStepModel {
    pub slot: Slot,
    pub block: Option<BlockModel>,
}

/// A slot to execute: with a block, or without one where the slot is a miss.
#[derive(Debug)]
pub struct ExecutionStep {
    /// slot
    pub slot: Slot,
    /// block of the slot and its identifier, if any
    pub block: Option<(BlockId, Block)>,
}

impl View for ExecutionStep {
    type V = ExecutionStepModel;

    open spec fn view(&self) -> ExecutionStepModel {
        ExecutionStepModel {
            slot: self.slot,
            block: match self.block {
                Some((id, block)) => Some(
                    BlockModel {
                        id,
                        creator_address: block.creator_address,
                        operations: operation_views(block.operations@),
                    },
                ),
                None => None,
            },
        }
    }
}

impl ExecutionStepModel {
    /// The identifier of the block, if there is one.
    pub open spec fn block_id(self) -> Option<BlockId> {
        match self.block {
            Some(block) => Some(block.id),
            None => None,
        }
    }
}

/// What a [`StepHistoryItem`] holds.
#[verifier::ext_equal]
pub struct HistoryItemModel {
    pub slot: Slot,
    pub opt_block_id: Option<BlockId>,
    pub ledger_changes: ChangesModel,
    pub events: Seq<EventModel>,
}

/// The outcome of an executed step.
pub struct StepHistoryItem {
    /// slot of the step
    pub slot: Slot,
    /// block of the step, if any
    pub opt_block_id: Option<BlockId>,
    /// what the step did to the ledger
    pub ledger_changes: SCELedgerChanges,
    /// events of the step
    pub events: EventStore,
}

impl View for StepHistoryItem {
    type V = HistoryItemModel;

    open spec fn view(&self) -> HistoryItemModel {
        HistoryItemModel {
            slot: self.slot,
            opt_block_id: self.opt_block_id,
            ledger_changes: self.ledger_changes@,
            events: self.events@,
        }
    }
}

/// Outcomes of executed steps that are not final yet, the earliest first.
pub type StepHistory = VecDeque<StepHistoryItem>;

/// What a history holds.
pub open spec fn history_views(history: Seq<StepHistoryItem>) -> Seq<HistoryItemModel> {
    Seq::new(history.len(), |i: int| history[i]@)
}

/// The changes of a history: those of its items, one after the other.
pub open spec fn history_changes(history: Seq<HistoryItemModel>) -> ChangesModel
    decreases history.len(),
{
    if history.len() == 0 {
        Map::empty()
    } else {
        composed(history_changes(history.drop_last()), history.last().ledger_changes)
    }
}

/// The changes of a history: those of its items, one after the other.
pub fn changes_of_history(history: &StepHistory) -> (changes: SCELedgerChanges)
    ensures
        changes@ == history_changes(history_views(history@)),
{
    let mut changes = SCELedgerChanges::new();
    let mut i: usize = 0;
    let ghost items = history_views(history@);
    while i < history.len()
        invariant
            i <= history@.len(),
            items == history_views(history@),
            changes@ == history_changes(items.take(i as int)),
        decreases history@.len() - i,
    {
        changes.apply_changes(&history[i].ledger_changes);
        i = i + 1;
        assert(items.take(i as int).drop_last() =~= items.take(i - 1));
    }
    assert(items.take(i as int) =~= items);
    changes
}

/// What came of a read-only execution.
#[derive(Debug)]
pub enum ReadOnlyResult {
    /// the bytecode ran to its end
    Success,
    /// the bytecode failed; why
    Error(String),
}

/// The answer to a read-only request.
#[derive(Debug)]
pub struct ExecuteReadOnlyResponse {
    /// slot of the request
    pub executed_at: Slot,
    /// what came of it
    pub result: ReadOnlyResult,
    /// events of the execution
    pub output_events: Vec<SCOutputEvent>,
}

} // verus!
