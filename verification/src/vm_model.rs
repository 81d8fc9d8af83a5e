//! What the VM holds, and what executions do to it.

use crate::event_store::{pruned, with_events, EventFilter, EventModel};
use crate::interface_impl::InterfaceModel;
use crate::ledger_step::{FinalLedgerModel, LedgerStepModel};
use crate::models::{Address, Amount, BlockId, OperationId, Slot};
use crate::progress::{
    BackupModel, PendingRunModel, PendingSeedModel, ProgressModel, ResponseModel, StepMode,
};
use crate::rng::generator_of;
use crate::sce_ledger::{applied, empty_entry, entry_in, ChangesModel, EntryModel};
use crate::timeslots::{latest_slot, spec_slot_count, MassaTime};
use crate::types::{
    fresh_call, history_changes, initial_context, ContextModel, DataModel, ExecutionStepModel,
    HistoryItemModel, OperationModel,
};
use crate::vm::ExecutionConfigs;
use vstd::prelude::*;

verus! {

/// The bytes whose digest seeds the generator of a step: the key of its slot, 1, and the
/// identifier of its block, if it has one.
pub open spec fn step_seed_bytes(slot: Slot, block_id: Option<BlockId>) -> Seq<u8> {
    let prefix = slot.spec_bytes_key().push(1u8);
    match block_id {
        Some(id) => prefix + id.0.bytes@,
        None => prefix,
    }
}

/// The bytes whose digest seeds the generator of a read-only request: the key of its slot, and 0.
pub open spec fn read_only_seed_bytes(slot: Slot) -> Seq<u8> {
    slot.spec_bytes_key().push(0u8)
}

/// The position of the first operation from position `from` on that is executed, or the number of
/// operations where there is none.
pub open spec fn next_executable(operations: Seq<OperationModel>, from: nat) -> nat
    decreases operations.len() - from,
{
    if from >= operations.len() {
        operations.len()
    } else if operations[from as int].executable() {
        from
    } else {
        next_executable(operations, from + 1)
    }
}

/// The text of the answer to a read-only request whose bytecode failed.
pub open spec fn read_only_failure() -> Seq<char> {
    "Failed to run in read-only mode"@
}

impl ContextModel {
    /// The context before a step on a history with the changes `changes`: nothing caused, nothing
    /// created, nobody called.
    pub open spec fn cleared(self, changes: ChangesModel) -> ContextModel {
        ContextModel {
            ledger_step: LedgerStepModel {
                final_ledger_slot: self.ledger_step.final_ledger_slot,
                cumulative_history_changes: changes,
                caused_changes: Map::empty(),
            },
            created_addr_index: 0,
            created_event_index: 0,
            stack: Seq::empty(),
            events: Seq::empty(),
            read_only: false,
            origin_operation_id: None,
            ..self
        }
    }

    /// The context with the generator that `seed` gives.
    pub open spec fn seeded(self, seed: Seq<u8>) -> ContextModel {
        ContextModel { unsafe_rng: generator_of(seed), ..self }
    }

    /// The context before the bytecode of an operation runs: its sender is credited with the
    /// coins sent along, the creator of the block with the price of the gas, and the sender is
    /// the only one on the call stack. A credit that does not fit is left out.
    pub open spec fn prepared(
        self,
        data: DataModel,
        block_creator_addr: Address,
        block_id: BlockId,
        slot: Slot,
        operation: Option<OperationId>,
        operation_index: u64,
    ) -> ContextModel {
        let fee = Amount { raw: data.gas_price.spec_saturating_mul(data.max_gas) };
        let ledger_step = self.ledger_step.credited(data.sender_address, data.coins).0.credited(
            block_creator_addr,
            fee,
        ).0;
        ContextModel {
            ledger_step,
            gas_price: data.gas_price,
            max_gas: data.max_gas,
            stack: seq![fresh_call(data.sender_address, data.coins)],
            slot,
            opt_block_id: Some(block_id),
            opt_block_creator_addr: Some(block_creator_addr),
            operation_index,
            origin_operation_id: operation,
            ..self
        }
    }

    /// What is kept of the context while the bytecode of an operation runs.
    pub open spec fn backup(self) -> BackupModel {
        BackupModel {
            ledger_changes: self.ledger_step.caused_changes,
            created_addr_index: self.created_addr_index,
            events: self.events,
            created_event_index: self.created_event_index,
            unsafe_rng: self.unsafe_rng,
        }
    }

    /// The context after the bytecode of an operation failed.
    pub open spec fn rolled_back(self, backup: BackupModel) -> ContextModel {
        ContextModel {
            ledger_step: LedgerStepModel {
                caused_changes: backup.ledger_changes,
                ..self.ledger_step
            },
            created_addr_index: backup.created_addr_index,
            events: backup.events,
            created_event_index: backup.created_event_index,
            unsafe_rng: backup.unsafe_rng,
            origin_operation_id: None,
            ..self
        }
    }

    /// The context after what the step did was taken out.
    pub open spec fn harvested(self) -> ContextModel {
        ContextModel {
            ledger_step: LedgerStepModel { caused_changes: Map::empty(), ..self.ledger_step },
            events: Seq::empty(),
            ..self
        }
    }
}

/// What a [`VM`](crate::vm::VM) holds.
#[verifier::ext_equal]
pub struct VMModel {
    pub thread_count: u8,
    pub genesis_timestamp: MassaTime,
    pub t0: MassaTime,
    pub step_history: Seq<HistoryItemModel>,
    pub interface: InterfaceModel,
    pub final_events: Seq<EventModel>,
}

impl VMModel {
    /// The VM with another context.
    pub open spec fn with_context(self, context: ContextModel) -> VMModel {
        VMModel { interface: self.interface.with_context(context), ..self }
    }

    /// The final ledger and its slot.
    pub open spec fn final_ledger_slot(self) -> FinalLedgerModel {
        self.interface.context.ledger_step.final_ledger_slot
    }

    /// The VM before a step.
    pub open spec fn cleared(self) -> VMModel {
        self.with_context(self.interface.context.cleared(history_changes(self.step_history)))
    }

    /// Whether the earliest step of the history is `step`: of the same slot, with the same block
    /// or both without one.
    pub open spec fn has_cached(self, step: ExecutionStepModel) -> bool {
        &&& self.step_history.len() > 0
        &&& self.step_history[0].slot == step.slot
        &&& self.step_history[0].opt_block_id == step.block_id()
    }

    /// The VM after a step with the outcome `item` became final at `slot`: its changes are applied
    /// to the final ledger, and its events join the final ones, after any that the context holds.
    pub open spec fn finalized(
        self,
        item: HistoryItemModel,
        slot: Slot,
        max_final_events: nat,
    ) -> VMModel {
        let context = self.interface.context;
        let final_ledger_slot = FinalLedgerModel {
            ledger: applied(context.ledger_step.final_ledger_slot.ledger, item.ledger_changes),
            slot,
        };
        VMModel {
            final_events: pruned(
                with_events(with_events(self.final_events, context.events), item.events),
                max_final_events,
            ),
            ..self.with_context(
                ContextModel {
                    ledger_step: LedgerStepModel { final_ledger_slot, ..context.ledger_step },
                    events: Seq::empty(),
                    ..context
                },
            )
        }
    }

    /// The VM and its need after the start of a step.
    pub open spec fn started(self, mode: StepMode, step: ExecutionStepModel) -> (
        VMModel,
        ProgressModel,
    ) {
        (
            self.cleared(),
            ProgressModel::Digest {
                data: step_seed_bytes(step.slot, step.block_id()),
                pending_seed: PendingSeedModel::Step { mode, step },
            },
        )
    }

    /// The outcome of a step that ran to its end.
    pub open spec fn outcome(self, step: ExecutionStepModel) -> HistoryItemModel {
        HistoryItemModel {
            slot: step.slot,
            opt_block_id: step.block_id(),
            ledger_changes: self.interface.context.ledger_step.caused_changes,
            events: self.interface.context.events,
        }
    }

    /// The VM after the last operation of a step.
    pub open spec fn finished(self, mode: StepMode, step: ExecutionStepModel) -> VMModel {
        let harvested = self.with_context(self.interface.context.harvested());
        match mode {
            StepMode::Final(max_final_events) => harvested.finalized(
                self.outcome(step),
                step.slot,
                max_final_events as nat,
            ),
            StepMode::Active => VMModel {
                step_history: self.step_history.push(self.outcome(step)),
                ..harvested
            },
        }
    }

    /// The VM and its need after it went on with the operations of a step from position `from`.
    pub open spec fn advanced(self, mode: StepMode, step: ExecutionStepModel, from: nat) -> (
        VMModel,
        ProgressModel,
    ) {
        match step.block {
            None => (self.finished(mode, step), ProgressModel::StepDone),
            Some(block) => {
                let at = next_executable(block.operations, from);
                if at >= block.operations.len() {
                    (self.finished(mode, step), ProgressModel::StepDone)
                } else {
                    let operation = block.operations[at as int];
                    let data = operation.data->0;
                    let context = self.interface.context.prepared(
                        data,
                        block.creator_address,
                        block.id,
                        step.slot,
                        operation.id,
                        at as u64,
                    );
                    (
                        self.with_context(context),
                        ProgressModel::Run {
                            bytecode: data.bytecode,
                            max_gas: data.max_gas,
                            pending_run: PendingRunModel::Operation {
                                mode,
                                step,
                                next: at + 1,
                                backup: context.backup(),
                            },
                        },
                    )
                }
            },
        }
    }

    /// The VM and its need after a request to execute a step as final.
    pub open spec fn after_final_step(self, step: ExecutionStepModel, max_final_events: usize) -> (
        VMModel,
        ProgressModel,
    ) {
        if self.has_cached(step) {
            let popped = VMModel { step_history: self.step_history.drop_first(), ..self };
            (
                popped.finalized(self.step_history[0], step.slot, max_final_events as nat),
                ProgressModel::StepDone,
            )
        } else {
            VMModel { step_history: Seq::empty(), ..self }.started(
                StepMode::Final(max_final_events),
                step,
            )
        }
    }

    /// The history without the steps that a step at `slot` replaces.
    pub open spec fn rewound(self, slot: Slot) -> VMModel {
        if self.step_history.len() == 0 {
            self
        } else {
            match spec_slot_count(self.step_history[0].slot, slot, self.thread_count) {
                Ok(count) if (count as usize) < self.step_history.len() => VMModel {
                    step_history: self.step_history.take(count as usize as int),
                    ..self
                },
                _ => self,
            }
        }
    }

    /// The VM and its need after a request to execute a step as active.
    pub open spec fn after_active_step(self, step: ExecutionStepModel) -> (VMModel, ProgressModel) {
        self.rewound(step.slot).started(StepMode::Active, step)
    }

    /// The VM and its need after a request to execute code in read-only mode.
    pub open spec fn after_read_only(
        self,
        slot: Slot,
        max_gas: u64,
        simulated_gas_price: Amount,
        bytecode: Seq<u8>,
        address: Address,
    ) -> (VMModel, ProgressModel) {
        let cleared = self.cleared();
        (
            cleared.with_context(
                ContextModel {
                    stack: seq![fresh_call(address, Amount { raw: 0 })],
                    read_only: true,
                    max_gas,
                    gas_price: simulated_gas_price,
                    ..cleared.interface.context
                },
            ),
            ProgressModel::Digest {
                data: read_only_seed_bytes(slot),
                pending_seed: PendingSeedModel::ReadOnly { slot, max_gas, bytecode },
            },
        )
    }

    /// The VM and its need after it got the seed it waited for.
    pub open spec fn after_seed(self, pending: PendingSeedModel, seed: Seq<u8>) -> (
        VMModel,
        ProgressModel,
    ) {
        let seeded = self.with_context(self.interface.context.seeded(seed));
        match pending {
            PendingSeedModel::Step { mode, step } => seeded.advanced(mode, step, 0),
            PendingSeedModel::ReadOnly { slot, max_gas, bytecode } => (
                seeded,
                ProgressModel::Run {
                    bytecode,
                    max_gas,
                    pending_run: PendingRunModel::ReadOnly { slot },
                },
            ),
        }
    }

    /// The VM and its need after the bytecode that it waited for ran, or failed.
    pub open spec fn after_run(self, pending: PendingRunModel, success: bool) -> (
        VMModel,
        ProgressModel,
    ) {
        let context = self.interface.context;
        match pending {
            PendingRunModel::Operation { mode, step, next, backup } => if success {
                self.advanced(mode, step, next)
            } else {
                self.with_context(context.rolled_back(backup)).advanced(mode, step, next)
            },
            PendingRunModel::ReadOnly { slot } => (
                self.with_context(ContextModel { events: Seq::empty(), ..context }),
                ProgressModel::ReadOnlyDone(
                    ResponseModel {
                        executed_at: slot,
                        error: if success {
                            None
                        } else {
                            Some(read_only_failure())
                        },
                        output_events: context.events,
                    },
                ),
            ),
        }
    }

    /// The events of the history that pass `filter`: those of the steps in the range of slots,
    /// step by step.
    pub open spec fn history_events(history: Seq<HistoryItemModel>, filter: EventFilter) -> Seq<
        EventModel,
    >
        decreases history.len(),
    {
        if history.len() == 0 {
            Seq::empty()
        } else {
            let earlier = Self::history_events(history.drop_last(), filter);
            if history.last().slot.spec_within(filter.start, filter.end) {
                earlier + filter.select(history.last().events)
            } else {
                earlier
            }
        }
    }

    /// The events that pass `filter`: first those of the history, then the final ones.
    pub open spec fn filtered_events(self, filter: EventFilter) -> Seq<EventModel> {
        Self::history_events(self.step_history, filter) + filter.select(self.final_events)
    }

    /// What the final ledger holds of each of `addresses`.
    pub open spec fn entries_for(self, addresses: Seq<Address>) -> Map<Address, EntryModel> {
        Map::new(
            |address: Address| addresses.contains(address),
            |address: Address|
                match entry_in(self.final_ledger_slot().ledger, address) {
                    Some(entry) => entry,
                    None => empty_entry(),
                },
        )
    }

    /// The slot up to which events are returned by default: the latest slot at `now`, or the very
    /// first slot where there is none.
    pub open spec fn default_end(self, now: Option<MassaTime>) -> Slot {
        let first = Slot { period: 0, thread: 0 };
        match now {
            Some(now) => match latest_slot(
                self.thread_count,
                self.t0,
                self.genesis_timestamp,
                now,
            ) {
                Ok(Some(slot)) => slot,
                _ => first,
            },
            None => first,
        }
    }
}

/// A VM on a final ledger before anything was executed.
pub open spec fn initial_vm(cfg: ExecutionConfigs, final_ledger_slot: FinalLedgerModel) -> VMModel {
    VMModel {
        thread_count: cfg.thread_count,
        genesis_timestamp: cfg.genesis_timestamp,
        t0: cfg.t0,
        step_history: Seq::empty(),
        interface: InterfaceModel {
            context: initial_context(final_ledger_slot),
            thread_count: cfg.thread_count,
            t0: cfg.t0,
            genesis_timestamp: cfg.genesis_timestamp,
        },
        final_events: Seq::empty(),
    }
}

/// The last slot of the first period.
pub open spec fn last_genesis_slot(thread_count: u8) -> Slot {
    Slot {
        period: 0,
        thread: if thread_count == 0 {
            0
        } else {
            (thread_count - 1) as u8
        },
    }
}

} // verus!
