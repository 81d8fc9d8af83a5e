//! What each move of an execution does, said of the parts of the VM.

use crate::event_store::{pruned, with_events};
use crate::interface_impl::InterfaceModel;
use crate::ledger_laws::lemma_credit;
use crate::ledger_step::{FinalLedgerModel, LedgerStepModel};
use crate::models::{Address, Amount, BlockId, Digest, OperationId, Slot};
use crate::progress::{
    BackupModel, PendingRunModel, PendingSeedModel, ProgressModel, StepMode,
};
use crate::rng::generator_of;
use crate::sce_ledger::{applied, ChangeModel};
use crate::timeslots::spec_slot_count;
use crate::types::{
    fresh_call, history_changes, initial_context, ContextModel, DataModel, ExecutionStepModel,
    OperationModel,
};
use crate::vm::ExecutionConfigs;
use crate::vm_model::{
    initial_vm, last_genesis_slot, next_executable, read_only_seed_bytes, step_seed_bytes, VMModel,
};
use vstd::prelude::*;

verus! {

/// Whether an operation is about execution and has an identifier.
pub open spec fn can_run(operation: OperationModel) -> bool {
    operation.id is Some && operation.data is Some
}

/// The identifier of the block of a step is that of its block, if it has one.
pub proof fn lemma_block_of_step(step: ExecutionStepModel)
    ensures
        step.block is None ==> step.block_id() is None,
        step.block matches Some(block) ==> step.block_id() == Some(block.id),
{
}

/// The next operation to execute is the first one that can run.
pub proof fn lemma_next_operation(operations: Seq<OperationModel>, from: nat, j: int)
    ensures
        ({
            let at = next_executable(operations, from);
            &&& at <= operations.len()
            &&& at < operations.len() ==> from <= at && can_run(operations[at as int])
            &&& from <= j < at && j < operations.len() ==> !can_run(operations[j])
        }),
    decreases operations.len() - from,
{
    if from < operations.len() && !operations[from as int].executable() {
        lemma_next_operation(operations, from + 1, j);
    }
}

/// Putting a context into a VM changes nothing else of it.
pub proof fn lemma_vm_with_context(vm: VMModel, context: ContextModel)
    ensures
        ({
            let after = vm.with_context(context);
            &&& after.interface.context == context
            &&& after.interface.thread_count == vm.interface.thread_count
            &&& after.interface.t0 == vm.interface.t0
            &&& after.interface.genesis_timestamp == vm.interface.genesis_timestamp
            &&& after == (VMModel { interface: after.interface, ..vm })
        }),
{
}

/// The final ledger of a VM is the one in the context.
pub proof fn lemma_final_ledger_of_vm(vm: VMModel)
    ensures
        vm.final_ledger_slot() == vm.interface.context.ledger_step.final_ledger_slot,
{
}

/// A context before a step has caused and created nothing, has nobody on the call stack and no
/// events, counts, and sees the changes given. The rest stays.
pub proof fn lemma_cleared(vm: VMModel)
    ensures
        ({
            let before = vm.interface.context;
            let after = vm.cleared();
            let context = after.interface.context;
            &&& context.ledger_step.final_ledger_slot == before.ledger_step.final_ledger_slot
            &&& context.ledger_step.cumulative_history_changes == history_changes(vm.step_history)
            &&& context.ledger_step.caused_changes == Map::<Address, ChangeModel>::empty()
            &&& context.created_addr_index == 0
            &&& context.created_event_index == 0
            &&& context.stack.len() == 0
            &&& context.events.len() == 0
            &&& !context.read_only
            &&& context.origin_operation_id is None
            &&& context.max_gas == before.max_gas
            &&& context.gas_price == before.gas_price
            &&& context.slot == before.slot
            &&& context.opt_block_id == before.opt_block_id
            &&& context.opt_block_creator_addr == before.opt_block_creator_addr
            &&& context.operation_index == before.operation_index
            &&& context.unsafe_rng == before.unsafe_rng
            &&& after.step_history == vm.step_history
            &&& after.final_events == vm.final_events
            &&& after.thread_count == vm.thread_count
            &&& after.t0 == vm.t0
            &&& after.genesis_timestamp == vm.genesis_timestamp
        }),
{
}

/// A step starts on a cleared context and asks for the digest of the bytes that its slot and its
/// block give.
pub proof fn lemma_started(vm: VMModel, mode: StepMode, step: ExecutionStepModel)
    ensures
        vm.started(mode, step).0 == vm.cleared(),
        vm.started(mode, step).1 == (ProgressModel::Digest {
            data: step_seed_bytes(
                step.slot,
                match step.block {
                    Some(block) => Some(block.id),
                    None => None,
                },
            ),
            pending_seed: PendingSeedModel::Step { mode, step },
        }),
{
}

/// The digest becomes the seed of the generator, and the step goes on with its first operation.
pub proof fn lemma_seeded(vm: VMModel, mode: StepMode, step: ExecutionStepModel, seed: Seq<u8>)
    ensures
        ({
            let seeded = VMModel {
                interface: InterfaceModel {
                    context: ContextModel {
                        unsafe_rng: generator_of(seed),
                        ..vm.interface.context
                    },
                    ..vm.interface
                },
                ..vm
            };
            vm.after_seed(PendingSeedModel::Step { mode, step }, seed) == seeded.advanced(
                mode,
                step,
                0,
            )
        }),
{
}

/// Before the bytecode of an operation runs, the sender is the only one on the call stack, with
/// the coins sent along and owning just its own address; the context has the gas, slot, block,
/// creator, operation and position of the operation. What the step created so far stays.
pub proof fn lemma_prepared_context(
    context: ContextModel,
    data: DataModel,
    creator: Address,
    block_id: BlockId,
    slot: Slot,
    operation: Option<OperationId>,
    operation_index: u64,
)
    ensures
        ({
            let after = context.prepared(
                data,
                creator,
                block_id,
                slot,
                operation,
                operation_index,
            );
            &&& after.stack.len() == 1
            &&& after.stack[0].address == data.sender_address
            &&& after.stack[0].coins == data.coins
            &&& after.stack[0].owned_addresses.len() == 1
            &&& after.stack[0].owned_addresses[0] == data.sender_address
            &&& after.gas_price == data.gas_price
            &&& after.max_gas == data.max_gas
            &&& after.slot == slot
            &&& after.opt_block_id == Some(block_id)
            &&& after.opt_block_creator_addr == Some(creator)
            &&& after.origin_operation_id == operation
            &&& after.operation_index == operation_index
            &&& after.created_addr_index == context.created_addr_index
            &&& after.created_event_index == context.created_event_index
            &&& after.events == context.events
            &&& after.read_only == context.read_only
            &&& after.unsafe_rng == context.unsafe_rng
            &&& after.ledger_step.final_ledger_slot == context.ledger_step.final_ledger_slot
            &&& after.ledger_step.cumulative_history_changes
                == context.ledger_step.cumulative_history_changes
        }),
{
}

/// The sender is credited with the coins sent along, then the creator of the block with the price
/// of the gas, capped at the greatest amount. A credit that does not fit is left out. Nobody else
/// gets or loses anything, and no module and no data changes.
pub proof fn lemma_prepared_balances(
    context: ContextModel,
    data: DataModel,
    creator: Address,
    block_id: BlockId,
    slot: Slot,
    operation: Option<OperationId>,
    operation_index: u64,
)
    ensures
        ({
            let before = context.ledger_step;
            let after = context.prepared(
                data,
                creator,
                block_id,
                slot,
                operation,
                operation_index,
            ).ledger_step;
            let sender = data.sender_address;
            let price = data.gas_price.raw * data.max_gas;
            let fee = if price <= u64::MAX {
                price
            } else {
                u64::MAX as int
            };
            let sent = before.balance(sender).raw + data.coins.raw;
            let sender_has = if sent <= u64::MAX {
                sent
            } else {
                before.balance(sender).raw as int
            };
            let creator_had = if sender == creator {
                sender_has
            } else {
                before.balance(creator).raw as int
            };
            &&& after.balance(creator).raw == if creator_had + fee <= u64::MAX {
                creator_had + fee
            } else {
                creator_had
            }
            &&& sender != creator ==> after.balance(sender).raw == sender_has
            &&& forall|a: Address|
                a != sender && a != creator ==> #[trigger] after.balance(a) == before.balance(a)
            &&& forall|a: Address| #[trigger] after.module(a) == before.module(a)
            &&& forall|a: Address, key: Digest| #[trigger]
                after.data(a, key) == before.data(a, key)
        }),
{
    let before = context.ledger_step;
    let fee = Amount { raw: data.gas_price.spec_saturating_mul(data.max_gas) };
    let middle = before.credited(data.sender_address, data.coins).0;
    lemma_credit(before, data.sender_address, data.coins);
    lemma_credit(middle, creator, fee);
    assert(data.gas_price.raw * data.max_gas >= 0) by (nonlinear_arith);
}

/// Going on with a step from a position prepares the first operation from there on that can run,
/// hands out its own bytecode and gas limit, and remembers the context as prepared and the
/// position after it. Where none can run, the step ends.
pub proof fn lemma_goes_on(
    vm: VMModel,
    mode: StepMode,
    step: ExecutionStepModel,
    from: nat,
    j: int,
)
    ensures
        ({
            let (after, progress) = vm.advanced(mode, step, from);
            let operations = step.block->0.operations;
            match progress {
                ProgressModel::Run { bytecode, max_gas, pending_run } => {
                    &&& step.block is Some
                    &&& pending_run matches PendingRunModel::Operation {
                        mode: m,
                        step: s,
                        next,
                        backup,
                    }
                    &&& m == mode
                    &&& s == step
                    &&& from < next <= operations.len()
                    &&& can_run(operations[next - 1])
                    &&& from <= j < next - 1 ==> !can_run(operations[j])
                    &&& bytecode == operations[next - 1].data->0.bytecode
                    &&& max_gas == operations[next - 1].data->0.max_gas
                    &&& after.interface.context == vm.interface.context.prepared(
                        operations[next - 1].data->0,
                        step.block->0.creator_address,
                        step.block->0.id,
                        step.slot,
                        operations[next - 1].id,
                        (next - 1) as u64,
                    )
                    &&& after == (VMModel {
                        interface: InterfaceModel {
                            context: after.interface.context,
                            ..vm.interface
                        },
                        ..vm
                    })
                    &&& backup.ledger_changes
                        == after.interface.context.ledger_step.caused_changes
                    &&& backup.created_addr_index == after.interface.context.created_addr_index
                    &&& backup.events == after.interface.context.events
                    &&& backup.created_event_index == after.interface.context.created_event_index
                    &&& backup.unsafe_rng == after.interface.context.unsafe_rng
                },
                ProgressModel::StepDone => {
                    &&& after == vm.finished(mode, step)
                    &&& step.block is Some && from <= j < operations.len() ==> !can_run(
                        operations[j],
                    )
                },
                _ => false,
            }
        }),
{
    if let Some(block) = step.block {
        lemma_next_operation(block.operations, from, j);
    }
}

/// After a run that succeeded the step goes on from what the run left. After one that failed it
/// goes on as if the run had caused, created, said and drawn nothing.
pub proof fn lemma_after_operation(
    vm: VMModel,
    mode: StepMode,
    step: ExecutionStepModel,
    next: nat,
    backup: BackupModel,
)
    ensures
        ({
            let pending = PendingRunModel::Operation { mode, step, next, backup };
            let context = vm.interface.context;
            let undone = VMModel {
                interface: InterfaceModel {
                    context: ContextModel {
                        ledger_step: LedgerStepModel {
                            caused_changes: backup.ledger_changes,
                            ..context.ledger_step
                        },
                        created_addr_index: backup.created_addr_index,
                        created_event_index: backup.created_event_index,
                        events: backup.events,
                        unsafe_rng: backup.unsafe_rng,
                        origin_operation_id: None,
                        ..context
                    },
                    ..vm.interface
                },
                ..vm
            };
            &&& vm.after_run(pending, true) == vm.advanced(mode, step, next)
            &&& vm.after_run(pending, false) == undone.advanced(mode, step, next)
        }),
{
}

/// The outcome of a step has its slot and block, all that it changed and all its events.
pub proof fn lemma_outcome(vm: VMModel, step: ExecutionStepModel)
    ensures
        ({
            let item = vm.outcome(step);
            &&& item.slot == step.slot
            &&& step.block is None ==> item.opt_block_id is None
            &&& step.block matches Some(block) ==> item.opt_block_id == Some(block.id)
            &&& item.ledger_changes == vm.interface.context.ledger_step.caused_changes
            &&& item.events == vm.interface.context.events
        }),
{
}

/// An active step that ends adds its outcome at the end of the history, and leaves a context
/// without changes and events. Nothing becomes final.
pub proof fn lemma_active_step_ends(vm: VMModel, step: ExecutionStepModel)
    ensures
        ({
            let after = vm.finished(StepMode::Active, step);
            let context = after.interface.context;
            &&& after.step_history == vm.step_history.push(vm.outcome(step))
            &&& context.ledger_step.caused_changes == Map::<Address, ChangeModel>::empty()
            &&& context.events.len() == 0
            &&& context == (ContextModel {
                ledger_step: LedgerStepModel {
                    caused_changes: context.ledger_step.caused_changes,
                    ..vm.interface.context.ledger_step
                },
                events: context.events,
                ..vm.interface.context
            })
            &&& after == (VMModel {
                step_history: after.step_history,
                interface: after.interface,
                ..vm
            })
        }),
{
}

/// A final step that ends applies what it changed to the final ledger, which is then that of its
/// slot, and adds its events to the final ones. The history stays.
pub proof fn lemma_final_step_ends(vm: VMModel, step: ExecutionStepModel, max_final_events: usize)
    ensures
        ({
            let after = vm.finished(StepMode::Final(max_final_events), step);
            let context = after.interface.context;
            let before = vm.interface.context;
            &&& after.final_ledger_slot().slot == step.slot
            &&& after.final_ledger_slot().ledger == applied(
                vm.final_ledger_slot().ledger,
                before.ledger_step.caused_changes,
            )
            &&& after.final_events == pruned(
                with_events(vm.final_events, before.events),
                max_final_events as nat,
            )
            &&& context.ledger_step.caused_changes == Map::<Address, ChangeModel>::empty()
            &&& context.events.len() == 0
            &&& context == (ContextModel {
                ledger_step: LedgerStepModel {
                    final_ledger_slot: context.ledger_step.final_ledger_slot,
                    caused_changes: context.ledger_step.caused_changes,
                    ..before.ledger_step
                },
                events: context.events,
                ..before
            })
            &&& after == (VMModel {
                final_events: after.final_events,
                interface: after.interface,
                ..vm
            })
        }),
{
}

/// A step becomes final without being executed just where the first item of the history is of the
/// same slot and has the same block, or neither has one. A step with a block is executed whenever
/// that item is a miss, and a miss whenever that item has a block.
pub proof fn lemma_final_step_is_cached(
    vm: VMModel,
    step: ExecutionStepModel,
    max_final_events: usize,
)
    ensures
        ({
            let (after, progress) = vm.after_final_step(step, max_final_events);
            let first = vm.step_history[0];
            let same_block = match (first.opt_block_id, step.block) {
                (None, None) => true,
                (Some(id), Some(block)) => id == block.id,
                _ => false,
            };
            let cached = vm.step_history.len() > 0 && first.slot == step.slot && same_block;
            &&& cached <==> vm.has_cached(step)
            &&& cached <==> progress is StepDone
            &&& vm.step_history.len() > 0 && first.opt_block_id is None && step.block is Some
                ==> progress is Digest
            &&& vm.step_history.len() > 0 && first.opt_block_id is Some && step.block is None
                ==> progress is Digest
            &&& cached ==> {
                &&& after.step_history == vm.step_history.skip(1)
                &&& after.final_ledger_slot().slot == step.slot
                &&& after.final_ledger_slot().ledger == applied(
                    vm.final_ledger_slot().ledger,
                    first.ledger_changes,
                )
                &&& after.final_events == pruned(
                    with_events(
                        with_events(vm.final_events, vm.interface.context.events),
                        first.events,
                    ),
                    max_final_events as nat,
                )
                &&& after.interface.context.events.len() == 0
            }
            &&& !cached ==> {
                &&& after.step_history.len() == 0
                &&& after.final_ledger_slot() == vm.final_ledger_slot()
                &&& after.final_events == vm.final_events
                &&& (after, progress) == (VMModel {
                    step_history: Seq::empty(),
                    ..vm
                }).started(StepMode::Final(max_final_events), step)
            }
        }),
{
    if vm.step_history.len() > 0 {
        assert(vm.step_history.drop_first() =~= vm.step_history.skip(1));
    }
}

/// A step that becomes final by what the history has of it leaves everything of the context but
/// the final ledger and the events.
pub proof fn lemma_cached_step_keeps_context(
    vm: VMModel,
    step: ExecutionStepModel,
    max_final_events: usize,
)
    requires
        vm.has_cached(step),
    ensures
        ({
            let after = vm.after_final_step(step, max_final_events).0;
            let context = after.interface.context;
            &&& context == (ContextModel {
                ledger_step: LedgerStepModel {
                    final_ledger_slot: context.ledger_step.final_ledger_slot,
                    ..vm.interface.context.ledger_step
                },
                events: context.events,
                ..vm.interface.context
            })
            &&& after == (VMModel {
                step_history: after.step_history,
                final_events: after.final_events,
                interface: after.interface,
                ..vm
            })
        }),
{
}

/// Rewinding keeps a beginning of the history, as long as there are slots from its first one to
/// before the given one, and all of it where these cannot be counted. It changes nothing else.
pub proof fn lemma_rewound(vm: VMModel, slot: Slot)
    ensures
        ({
            let after = vm.rewound(slot);
            let len = vm.step_history.len();
            let count = spec_slot_count(vm.step_history[0].slot, slot, vm.thread_count);
            &&& after.step_history == vm.step_history.take(after.step_history.len() as int)
            &&& after.step_history.len() <= len
            &&& len == 0 || count is Err ==> after.step_history.len() == len
            &&& len > 0 && count is Ok && len <= count->Ok_0 as usize ==> after.step_history.len()
                == len
            &&& len > 0 && count is Ok && count->Ok_0 as usize <= len ==> after.step_history.len()
                == count->Ok_0 as usize
            &&& after == (VMModel { step_history: after.step_history, ..vm })
        }),
{
    assert(vm.step_history.take(vm.step_history.len() as int) =~= vm.step_history);
}

/// An active step starts on the history without the steps from its slot on.
pub proof fn lemma_active_step_begins(vm: VMModel, step: ExecutionStepModel)
    ensures
        vm.after_active_step(step) == vm.rewound(step.slot).started(StepMode::Active, step),
        vm.after_active_step(step).0.step_history == vm.rewound(step.slot).step_history,
        vm.after_active_step(step).0.final_ledger_slot() == vm.final_ledger_slot(),
        vm.after_active_step(step).0.final_events == vm.final_events,
{
}

/// A read-only request begins on a cleared context, with the caller as the only one on the call
/// stack, without coins and owning just its own address. It asks for the digest of the bytes that
/// its slot gives, and keeps the bytecode and the gas limit.
pub proof fn lemma_read_only_begins(
    vm: VMModel,
    slot: Slot,
    max_gas: u64,
    simulated_gas_price: Amount,
    bytecode: Seq<u8>,
    address: Address,
)
    ensures
        ({
            let (after, progress) = vm.after_read_only(
                slot,
                max_gas,
                simulated_gas_price,
                bytecode,
                address,
            );
            let cleared = vm.cleared().interface.context;
            let context = after.interface.context;
            &&& context.stack.len() == 1
            &&& context.stack[0].address == address
            &&& context.stack[0].coins.raw == 0
            &&& context.stack[0].owned_addresses.len() == 1
            &&& context.stack[0].owned_addresses[0] == address
            &&& context.read_only
            &&& context.max_gas == max_gas
            &&& context.gas_price == simulated_gas_price
            &&& context == (ContextModel {
                stack: context.stack,
                read_only: true,
                max_gas,
                gas_price: simulated_gas_price,
                ..cleared
            })
            &&& after == (VMModel { interface: after.interface, ..vm.cleared() })
            &&& progress == (ProgressModel::Digest {
                data: read_only_seed_bytes(slot),
                pending_seed: PendingSeedModel::ReadOnly { slot, max_gas, bytecode },
            })
        }),
{
}

/// A read-only request that got its seed asks for its own bytecode to be run with its own gas
/// limit, on the context as it was but for the generator.
pub proof fn lemma_read_only_runs(
    vm: VMModel,
    slot: Slot,
    max_gas: u64,
    bytecode: Seq<u8>,
    seed: Seq<u8>,
)
    ensures
        ({
            let (after, progress) = vm.after_seed(
                PendingSeedModel::ReadOnly { slot, max_gas, bytecode },
                seed,
            );
            &&& progress == (ProgressModel::Run {
                bytecode,
                max_gas,
                pending_run: PendingRunModel::ReadOnly { slot },
            })
            &&& after.interface.context == (ContextModel {
                unsafe_rng: generator_of(seed),
                ..vm.interface.context
            })
            &&& after == (VMModel { interface: after.interface, ..vm })
        }),
{
}

/// The answer to a read-only request has the slot of the request, an error just where the run
/// failed, and all events that the context holds. The events leave the context, and nothing else
/// changes.
pub proof fn lemma_read_only_ends(vm: VMModel, slot: Slot, success: bool)
    ensures
        ({
            let (after, progress) = vm.after_run(PendingRunModel::ReadOnly { slot }, success);
            &&& progress matches ProgressModel::ReadOnlyDone(response)
            &&& response.executed_at == slot
            &&& success ==> response.error is None
            &&& !success ==> response.error == Some("Failed to run in read-only mode"@)
            &&& response.output_events == vm.interface.context.events
            &&& after.interface.context.events.len() == 0
            &&& after.interface.context == (ContextModel {
                events: after.interface.context.events,
                ..vm.interface.context
            })
            &&& after == (VMModel { interface: after.interface, ..vm })
        }),
{
}

/// A VM starts on the final ledger it is given, with an empty history and no events, and with the
/// configuration it is given.
pub proof fn lemma_initial_vm(cfg: ExecutionConfigs, final_ledger_slot: FinalLedgerModel)
    ensures
        ({
            let vm = initial_vm(cfg, final_ledger_slot);
            let context = vm.interface.context;
            &&& vm.thread_count == cfg.thread_count
            &&& vm.t0 == cfg.t0
            &&& vm.genesis_timestamp == cfg.genesis_timestamp
            &&& vm.interface.thread_count == cfg.thread_count
            &&& vm.interface.t0 == cfg.t0
            &&& vm.interface.genesis_timestamp == cfg.genesis_timestamp
            &&& vm.step_history.len() == 0
            &&& vm.final_events.len() == 0
            &&& vm.final_ledger_slot() == final_ledger_slot
            &&& context == initial_context(final_ledger_slot)
            &&& context.ledger_step.cumulative_history_changes
                == Map::<Address, ChangeModel>::empty()
            &&& context.ledger_step.caused_changes == Map::<Address, ChangeModel>::empty()
            &&& context.stack.len() == 0
            &&& context.events.len() == 0
            &&& context.created_addr_index == 0
            &&& context.created_event_index == 0
            &&& !context.read_only
            &&& context.origin_operation_id is None
            &&& context.opt_block_id is None
            &&& context.opt_block_creator_addr is None
            &&& context.operation_index == 0
            &&& context.slot.period == 0 && context.slot.thread == 0
            &&& context.max_gas == 0 && context.gas_price.raw == 0
            &&& context.unsafe_rng == generator_of(Seq::new(32, |i: int| 0u8))
        }),
{
}

/// The ledger of the file is that of the last slot of the first period.
pub proof fn lemma_last_genesis_slot(thread_count: u8)
    ensures
        last_genesis_slot(thread_count).period == 0,
        thread_count > 0 ==> last_genesis_slot(thread_count).thread + 1 == thread_count,
        thread_count == 0 ==> last_genesis_slot(thread_count).thread == 0,
{
}

/// What is returned of addresses: an entry for each that is asked for and for no other, with what
/// the final ledger holds of it, and nothing where it has no entry.
pub proof fn lemma_entries_for(vm: VMModel, addresses: Seq<Address>, address: Address)
    ensures
        ({
            let entries = vm.entries_for(addresses);
            let ledger = vm.final_ledger_slot().ledger;
            &&& entries.contains_key(address) <==> exists|i: int|
                0 <= i < addresses.len() && #[trigger] addresses[i] == address
            &&& entries.contains_key(address) && ledger.contains_key(address) ==> entries[address]
                == ledger[address]
            &&& entries.contains_key(address) && !ledger.contains_key(address) ==> {
                &&& entries[address].balance.raw == 0
                &&& entries[address].opt_module is None
                &&& entries[address].data == Map::<Digest, Seq<u8>>::empty()
            }
        }),
{
}

/// A fresh call has the address and coins it is made with, and owns just that address.
pub proof fn lemma_fresh_call(address: Address, coins: Amount)
    ensures
        fresh_call(address, coins).address == address,
        fresh_call(address, coins).coins == coins,
        fresh_call(address, coins).owned_addresses.len() == 1,
        fresh_call(address, coins).owned_addresses[0] == address,
{
}

} // verus!
