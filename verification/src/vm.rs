//! Execution of steps, and the history of executed steps.
//!
//! A step is executed slot by slot, operation by operation. Digests are computed and bytecode is
//! run outside: a method of [`VM`] that needs either returns a [`Progress`] that says so, and the
//! execution goes on when the answer is handed to [`VM::provide_seed`] or
//! [`VM::provide_run_result`]. While bytecode runs, its contracts act on
//! [`VM::execution_interface`].
//!
//! Steps become final in order. Until then what they did is kept in the history, and the ledger
//! that a step sees is the final one after the changes of the history.

use crate::error::ExecutionError;
use crate::event_store::{event_views, EventFilter, EventStore, SCOutputEvent};
use crate::interface_impl::InterfaceImpl;
use crate::ledger_step::{FinalLedger, FinalLedgerModel};
use crate::models::{Address, Amount, BlockId, Digest, Key, OperationId, Slot};
use crate::progress::{OperationBackup, PendingRun, PendingSeed, Progress, StepMode};
use crate::rng::generator_from_seed;
use crate::sce_ledger::{
    duplicate_module, empty_entry, entry_in, ledger_of_balances, module_view, EntryModel,
    SCELedger, SCELedgerChanges, SCELedgerEntry,
};
use crate::timeslots::{get_latest_block_slot_at_timestamp, slot_count_in_range, MassaTime};
use crate::types::{
    changes_of_history, fresh_call, history_views, operation_views, stack_views,
    ExecuteReadOnlyResponse, ExecutionContext, ExecutionData, ExecutionStep, OperationContent,
    ReadOnlyResult, StackElement, StepHistory, StepHistoryItem,
};
use crate::vec_map::{Value, VecMap};
use crate::vm_model::{
    initial_vm, last_genesis_slot, next_executable, step_seed_bytes, VMModel,
};
use std::collections::VecDeque;
use vstd::prelude::*;

verus! {

/// Configuration of the execution.
#[derive(Clone, Copy, Debug)]
pub struct ExecutionConfigs {
    /// how many threads there are
    pub thread_count: u8,
    /// length of a period
    pub t0: MassaTime,
    /// time of the first slot
    pub genesis_timestamp: MassaTime,
}

/// Where the first final ledger comes from.
pub enum LedgerBootstrap {
    /// a final ledger and its slot, from another node
    Snapshot(SCELedger, Slot),
    /// the balances in the file of the initial ledger, or why it could not be read
    InitialFile(Result<Vec<(Address, Amount)>, ExecutionError>),
}

/// What is known of an address in the final ledger.
pub struct SCELedgerInfo {
    /// balance
    pub balance: Amount,
    /// executable module, if any
    pub module: Option<Vec<u8>>,
    /// datastore
    pub datastore: VecMap<Digest, Vec<u8>>,
}

impl View for SCELedgerInfo {
    type V = EntryModel;

    open spec fn view(&self) -> EntryModel {
        EntryModel {
            balance: self.balance,
            opt_module: module_view(self.module),
            data: self.datastore@,
        }
    }
}

impl Value for SCELedgerInfo {
    fn duplicate(&self) -> (copy: Self) {
        SCELedgerInfo {
            balance: self.balance,
            module: duplicate_module(&self.module),
            datastore: self.datastore.duplicate(),
        }
    }
}

/// The virtual machine and the history of executed steps.
pub struct VM {
    /// how many threads there are
    pub thread_count: u8,
    /// time of the first slot
    pub genesis_timestamp: MassaTime,
    /// length of a period
    pub t0: MassaTime,
    /// outcomes of executed steps that are not final yet
    pub step_history: StepHistory,
    /// interface for running contracts, with the state of the execution
    pub execution_interface: InterfaceImpl,
    /// events of final steps
    pub final_events: EventStore,
}

impl View for VM {
    type V = VMModel;

    open spec fn view(&self) -> VMModel {
        VMModel {
            thread_count: self.thread_count,
            genesis_timestamp: self.genesis_timestamp,
            t0: self.t0,
            step_history: history_views(self.step_history@),
            interface: self.execution_interface@,
            final_events: self.final_events@,
        }
    }
}

impl VM {
    /// A VM on the ledger that `ledger_bootstrap` gives. The ledger of the file is that of the
    /// last slot of the first period.
    pub fn new(cfg: ExecutionConfigs, ledger_bootstrap: LedgerBootstrap) -> (res: Result<
        VM,
        ExecutionError,
    >)
        ensures
            match ledger_bootstrap {
                LedgerBootstrap::Snapshot(ledger, slot) => res matches Ok(vm) && vm@ == initial_vm(
                    cfg,
                    FinalLedgerModel { ledger: ledger@, slot },
                ),
                LedgerBootstrap::InitialFile(Ok(balances)) => res matches Ok(vm) && vm@
                    == initial_vm(
                    cfg,
                    FinalLedgerModel {
                        ledger: ledger_of_balances(balances@),
                        slot: last_genesis_slot(cfg.thread_count),
                    },
                ),
                LedgerBootstrap::InitialFile(Err(error)) => res matches Err(e) && e == error,
            },
    {
        let (ledger, slot) = match ledger_bootstrap {
            LedgerBootstrap::Snapshot(ledger, slot) => (ledger, slot),
            LedgerBootstrap::InitialFile(Ok(balances)) => (
                SCELedger::from_balances_map(&balances),
                Slot::new(0, cfg.thread_count.saturating_sub(1)),
            ),
            LedgerBootstrap::InitialFile(Err(error)) => return Err(error),
        };
        let context = ExecutionContext::new(ledger, slot);
        let vm = VM {
            thread_count: cfg.thread_count,
            genesis_timestamp: cfg.genesis_timestamp,
            t0: cfg.t0,
            step_history: VecDeque::new(),
            execution_interface: InterfaceImpl::new(
                context,
                cfg.thread_count,
                cfg.t0,
                cfg.genesis_timestamp,
            ),
            final_events: EventStore::new(),
        };
        assert(vm@.step_history =~= Seq::empty());
        Ok(vm)
    }

    /// A copy of the final ledger and its slot.
    pub fn get_bootstrap_state(&self) -> (state: FinalLedger)
        ensures
            state@ == self@.final_ledger_slot(),
    {
        self.execution_interface.context.ledger_step.final_ledger_slot.duplicate()
    }

    /// The events that pass the filter: first those of the history, step by step, then the final
    /// ones. The slots range from `start`, by default the very first slot, to before `end`, by
    /// default the latest slot at the current time `now`, `None` where the clock gives none.
    pub fn get_filtered_sc_output_event(
        &self,
        start: Option<Slot>,
        end: Option<Slot>,
        emitter_address: Option<Address>,
        original_caller_address: Option<Address>,
        original_operation_id: Option<OperationId>,
        now: Option<MassaTime>,
    ) -> (events: Vec<SCOutputEvent>)
        ensures
            event_views(events@) == self@.filtered_events(
                EventFilter {
                    start: match start {
                        Some(slot) => slot,
                        None => Slot { period: 0, thread: 0 },
                    },
                    end: match end {
                        Some(slot) => slot,
                        None => self@.default_end(now),
                    },
                    emitter_address,
                    original_caller_address,
                    original_operation_id,
                },
            ),
    {
        let first = Slot::new(0, 0);
        let default_end = match now {
            Some(now) => match get_latest_block_slot_at_timestamp(
                self.thread_count,
                self.t0,
                self.genesis_timestamp,
                now,
            ) {
                Ok(Some(slot)) => slot,
                _ => first,
            },
            None => first,
        };
        let filter = EventFilter {
            start: start.unwrap_or(first),
            end: end.unwrap_or(default_end),
            emitter_address,
            original_caller_address,
            original_operation_id,
        };
        let mut events: Vec<SCOutputEvent> = Vec::new();
        let mut i: usize = 0;
        let ghost items = self@.step_history;
        assert(event_views(events@) =~= VMModel::history_events(items.take(0), filter));
        while i < self.step_history.len()
            invariant
                i <= self.step_history@.len(),
                items == history_views(self.step_history@),
                event_views(events@) == VMModel::history_events(items.take(i as int), filter),
            decreases self.step_history@.len() - i,
        {
            let item = &self.step_history[i];
            if item.slot.within(&filter.start, &filter.end) {
                item.events.append_filtered(&filter, &mut events);
            }
            i = i + 1;
            assert(items.take(i as int).drop_last() =~= items.take(i - 1));
        }
        assert(items.take(i as int) =~= items);
        self.final_events.append_filtered(&filter, &mut events);
        events
    }

    /// What the final ledger holds of each of `addresses`: the entry of an address that has none
    /// is empty.
    pub fn get_sce_ledger_entry_for_addresses(&self, addresses: Vec<Address>) -> (infos: VecMap<
        Address,
        SCELedgerInfo,
    >)
        ensures
            infos@ == self@.entries_for(addresses@),
    {
        let ledger = &self.execution_interface.context.ledger_step.final_ledger_slot.ledger;
        let mut infos: VecMap<Address, SCELedgerInfo> = VecMap::new();
        let mut i: usize = 0;
        while i < addresses.len()
            invariant
                i <= addresses@.len(),
                ledger@ == self@.final_ledger_slot().ledger,
                forall|address: Address| #[trigger]
                    infos@.contains_key(address) <==> addresses@.take(i as int).contains(address),
                forall|address: Address| #[trigger]
                    infos@.contains_key(address) ==> infos@[address] == match entry_in(
                        ledger@,
                        address,
                    ) {
                        Some(entry) => entry,
                        None => empty_entry(),
                    },
            decreases addresses@.len() - i,
        {
            let address = addresses[i];
            let entry = match ledger.0.get(&address) {
                Some(entry) => entry.duplicate(),
                None => SCELedgerEntry::empty(),
            };
            let info = SCELedgerInfo {
                balance: entry.balance,
                module: entry.opt_module,
                datastore: entry.data,
            };
            infos.insert(address, info);
            proof {
                let before = addresses@.take(i as int);
                let upto = addresses@.take(i + 1);
                assert(upto =~= before.push(address));
                assert forall|a: Address| upto.contains(a) <==> before.contains(a) || a
                    == address by {
                    if before.contains(a) {
                        let j = choose|j: int| 0 <= j < before.len() && before[j] == a;
                        assert(upto[j] == a);
                    }
                    assert(upto[i as int] == address);
                    if upto.contains(a) && a != address {
                        let j = choose|j: int| 0 <= j < upto.len() && upto[j] == a;
                        assert(before[j] == a);
                    }
                }
            }
            i = i + 1;
        }
        proof {
            assert(addresses@.take(i as int) =~= addresses@);
            assert(infos@ =~= self@.entries_for(addresses@));
        }
        infos
    }

    /// Takes the earliest step of the history out if it is `step`.
    pub fn pop_cached_step(&mut self, step: &ExecutionStep) -> (item: Option<StepHistoryItem>)
        ensures
            match item {
                Some(item) => {
                    &&& old(self)@.has_cached(step@)
                    &&& item@ == old(self)@.step_history[0]
                    &&& final(self)@ == (VMModel {
                        step_history: old(self)@.step_history.drop_first(),
                        ..old(self)@
                    })
                },
                None => !old(self)@.has_cached(step@) && final(self)@ == old(self)@,
            },
    {
        if self.step_history.len() == 0 {
            return None;
        }
        let front = &self.step_history[0];
        let found = if front.slot == step.slot {
            match (&front.opt_block_id, &step.block) {
                (None, None) => true,
                (Some(cached), Some((block_id, _))) => cached.same(block_id),
                (None, Some(_)) => false,
                (Some(_), None) => false,
            }
        } else {
            false
        };
        if found {
            let ghost before = self.step_history@;
            let item = self.step_history.pop_front();
            assert(history_views(self.step_history@) =~= history_views(before).drop_first());
            item
        } else {
            None
        }
    }

    /// Prepares the context for a step: drops what the last execution caused, created and called,
    /// and sets the changes of the history.
    pub fn clear_and_update_context(&mut self)
        ensures
            final(self)@ == old(self)@.cleared(),
    {
        let changes = changes_of_history(&self.step_history);
        let context = &mut self.execution_interface.context;
        context.ledger_step.caused_changes.clear();
        context.ledger_step.cumulative_history_changes = changes;
        context.created_addr_index = 0;
        context.created_event_index = 0;
        context.stack.clear();
        context.events.clear();
        context.read_only = false;
        context.origin_operation_id = None;
        assert(stack_views(self.execution_interface.context.stack@) =~= Seq::empty());
    }

    /// Prepares the context for an operation: credits its sender and the creator of its block,
    /// and puts the sender on the call stack. Returns what is to be put back where the bytecode
    /// fails; that leaves the credits in place.
    pub fn prepare_context(
        &mut self,
        data: &ExecutionData,
        block_creator_addr: Address,
        block_id: BlockId,
        slot: Slot,
        operation: Option<OperationId>,
        operation_index: u64,
    ) -> (backup: OperationBackup)
        ensures
            final(self)@ == old(self)@.with_context(
                old(self)@.interface.context.prepared(
                    data@,
                    block_creator_addr,
                    block_id,
                    slot,
                    operation,
                    operation_index,
                ),
            ),
            backup@ == final(self)@.interface.context.backup(),
    {
        let context = &mut self.execution_interface.context;
        let _sender = context.ledger_step.set_balance_delta(data.sender_address, data.coins, true);
        let _creator = context.ledger_step.set_balance_delta(
            block_creator_addr,
            data.gas_price.saturating_mul_u64(data.max_gas),
            true,
        );
        context.gas_price = data.gas_price;
        context.max_gas = data.max_gas;
        let mut stack: Vec<StackElement> = Vec::new();
        stack.push(StackElement::new(data.sender_address, data.coins));
        assert(stack_views(stack@) =~= seq![fresh_call(data.sender_address, data.coins)]);
        context.stack = stack;
        context.slot = slot;
        context.opt_block_id = Some(block_id);
        context.opt_block_creator_addr = Some(block_creator_addr);
        context.operation_index = operation_index;
        context.origin_operation_id = operation;
        OperationBackup {
            ledger_changes: context.ledger_step.caused_changes.duplicate(),
            created_addr_index: context.created_addr_index,
            events: context.events.duplicate(),
            created_event_index: context.created_event_index,
            unsafe_rng: context.unsafe_rng.clone(),
        }
    }

    /// Starts a step.
    fn start_step(&mut self, mode: StepMode, step: ExecutionStep) -> (progress: Progress)
        ensures
            (final(self)@, progress@) == old(self)@.started(mode, step@),
    {
        self.clear_and_update_context();
        let mut data = step.slot.to_bytes_key();
        data.push(1u8);
        if let Some((block_id, _)) = &step.block {
            data.extend_from_slice(block_id.0.bytes.as_slice());
        }
        assert(data@ =~= step_seed_bytes(step.slot, step@.block_id()));
        Progress::Digest { data, pending_seed: PendingSeed::Step { mode, step } }
    }

    /// Goes on with the operations of a step from position `from`: prepares the next one that is
    /// executed, or ends the step where there is none.
    fn advance_step(&mut self, mode: StepMode, step: ExecutionStep, from: usize) -> (progress:
        Progress)
        ensures
            (final(self)@, progress@) == old(self)@.advanced(mode, step@, from as nat),
    {
        if let Some((block_id, block)) = &step.block {
            let ghost operations = operation_views(block.operations@);
            let mut i: usize = from;
            while i < block.operations.len()
                invariant
                    *self == *old(self),
                    step.block == Some((*block_id, *block)),
                    operations == operation_views(block.operations@),
                    next_executable(operations, i as nat) == next_executable(
                        operations,
                        from as nat,
                    ),
                decreases block.operations@.len() - i,
            {
                let operation = &block.operations[i];
                assert(operations[i as int] == operation@);
                if let (OperationContent::ExecuteSC(data), Some(id)) = (
                    &operation.content,
                    &operation.id,
                ) {
                    let backup = self.prepare_context(
                        data,
                        block.creator_address,
                        *block_id,
                        step.slot,
                        Some(*id),
                        i as u64,
                    );
                    let bytecode = data.bytecode.duplicate();
                    let max_gas: u64 = data.max_gas;
                    let next: usize = i + 1;
                    return Progress::Run {
                        bytecode,
                        max_gas,
                        pending_run: PendingRun::Operation { mode, step, next, backup },
                    };
                }
                i = i + 1;
            }
        }
        self.finish_step(mode, step);
        Progress::StepDone
    }

    /// Ends a step: takes its outcome out of the context, and makes it final or adds it to the
    /// history.
    fn finish_step(&mut self, mode: StepMode, step: ExecutionStep)
        ensures
            final(self)@ == old(self)@.finished(mode, step@),
    {
        let mut ledger_changes = SCELedgerChanges::new();
        std::mem::swap(
            &mut self.execution_interface.context.ledger_step.caused_changes,
            &mut ledger_changes,
        );
        let events = self.execution_interface.context.events.take();
        let item = StepHistoryItem {
            slot: step.slot,
            opt_block_id: match &step.block {
                Some((block_id, _)) => Some(*block_id),
                None => None,
            },
            ledger_changes,
            events,
        };
        assert(item@ == old(self)@.outcome(step@));
        match mode {
            StepMode::Final(max_final_events) => {
                self.finalize(item, step.slot, max_final_events);
            },
            StepMode::Active => {
                let ghost before = self.step_history@;
                self.step_history.push_back(item);
                assert(history_views(self.step_history@) =~= history_views(before).push(item@));
            },
        }
    }

    /// Makes a step final: applies its changes to the final ledger, and adds its events to the
    /// final ones, after any that the context holds.
    fn finalize(&mut self, item: StepHistoryItem, slot: Slot, max_final_events: usize)
        ensures
            final(self)@ == old(self)@.finalized(item@, slot, max_final_events as nat),
    {
        let context = &mut self.execution_interface.context;
        context.ledger_step.final_ledger_slot.ledger.apply_changes(&item.ledger_changes);
        context.ledger_step.final_ledger_slot.slot = slot;
        let events = context.events.take();
        self.final_events.extend(events);
        self.final_events.extend(item.events);
        self.final_events.prune(max_final_events);
    }

    /// Executes a step as final: what the history already has of it is taken from there, else the
    /// history is dropped and the step executed. At most `max_final_events` final events are
    /// kept.
    pub fn run_final_step(&mut self, step: ExecutionStep, max_final_events: usize) -> (progress:
        Progress)
        ensures
            (final(self)@, progress@) == old(self)@.after_final_step(step@, max_final_events),
    {
        match self.pop_cached_step(&step) {
            Some(item) => {
                self.finalize(item, step.slot, max_final_events);
                Progress::StepDone
            },
            None => {
                self.step_history.clear();
                assert(history_views(self.step_history@) =~= Seq::empty());
                self.start_step(StepMode::Final(max_final_events), step)
            },
        }
    }

    /// Executes a step as active: the steps of the history from its slot on are dropped, and the
    /// step joins the history.
    pub fn run_active_step(&mut self, step: ExecutionStep) -> (progress: Progress)
        ensures
            (final(self)@, progress@) == old(self)@.after_active_step(step@),
    {
        if self.step_history.len() > 0 {
            let front_slot = self.step_history[0].slot;
            if let Ok(count) = slot_count_in_range(front_slot, step.slot, self.thread_count) {
                let ghost before = self.step_history@;
                self.step_history.truncate(
                    #[verifier::truncate]
                    (count as usize),
                );
                proof {
                    if (count as usize) < before.len() {
                        assert(history_views(self.step_history@) =~= history_views(before).take(
                            count as usize as int,
                        ));
                    } else {
                        assert(history_views(self.step_history@) =~= history_views(before));
                    }
                }
            }
        }
        self.start_step(StepMode::Active, step)
    }

    /// Executes code in read-only mode: called by `address`, with no coins. Nothing of it reaches
    /// the ledger.
    pub fn run_read_only(
        &mut self,
        slot: Slot,
        max_gas: u64,
        simulated_gas_price: Amount,
        bytecode: Vec<u8>,
        address: Address,
    ) -> (progress: Progress)
        ensures
            (final(self)@, progress@) == old(self)@.after_read_only(
                slot,
                max_gas,
                simulated_gas_price,
                bytecode@,
                address,
            ),
    {
        self.clear_and_update_context();
        let context = &mut self.execution_interface.context;
        let mut stack: Vec<StackElement> = Vec::new();
        stack.push(StackElement::new(address, Amount::zero()));
        assert(stack_views(stack@) =~= seq![fresh_call(address, Amount { raw: 0 })]);
        context.stack = stack;
        context.read_only = true;
        context.max_gas = max_gas;
        context.gas_price = simulated_gas_price;
        let mut data = slot.to_bytes_key();
        data.push(0u8);
        Progress::Digest { data, pending_seed: PendingSeed::ReadOnly { slot, max_gas, bytecode } }
    }

    /// Goes on with an execution that waited for the digest `seed`.
    pub fn provide_seed(&mut self, pending: PendingSeed, seed: [u8; 32]) -> (progress: Progress)
        ensures
            (final(self)@, progress@) == old(self)@.after_seed(pending@, seed@),
    {
        self.execution_interface.context.unsafe_rng = generator_from_seed(seed);
        match pending {
            PendingSeed::Step { mode, step } => self.advance_step(mode, step, 0),
            PendingSeed::ReadOnly { slot, max_gas, bytecode } => Progress::Run {
                bytecode,
                max_gas,
                pending_run: PendingRun::ReadOnly { slot },
            },
        }
    }

    /// Goes on with an execution that waited for bytecode to run. Where that failed, the effects
    /// of the operation are undone but for its credits.
    pub fn provide_run_result(&mut self, pending: PendingRun, success: bool) -> (progress: Progress)
        ensures
            (final(self)@, progress@) == old(self)@.after_run(pending@, success),
    {
        match pending {
            PendingRun::Operation { mode, step, next, backup } => {
                if !success {
                    let context = &mut self.execution_interface.context;
                    context.ledger_step.caused_changes = backup.ledger_changes;
                    context.created_addr_index = backup.created_addr_index;
                    context.events = backup.events;
                    context.created_event_index = backup.created_event_index;
                    context.unsafe_rng = backup.unsafe_rng;
                    context.origin_operation_id = None;
                }
                self.advance_step(mode, step, next)
            },
            PendingRun::ReadOnly { slot } => {
                let events = self.execution_interface.context.events.take();
                let result = if success {
                    ReadOnlyResult::Success
                } else {
                    ReadOnlyResult::Error("Failed to run in read-only mode".to_owned())
                };
                Progress::ReadOnlyDone(
                    ExecuteReadOnlyResponse {
                        executed_at: slot,
                        result,
                        output_events: events.export(),
                    },
                )
            },
        }
    }

    /// Drops the history.
    pub fn reset_to_final(&mut self)
        ensures
            final(self)@ == (VMModel { step_history: Seq::empty(), ..old(self)@ }),
    {
        self.step_history.clear();
        assert(history_views(self.step_history@) =~= Seq::empty());
    }
}

} // verus!
