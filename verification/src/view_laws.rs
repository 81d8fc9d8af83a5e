//! That the models say what the values hold, part by part.

use crate::error::InterfaceError;
use crate::event_store::{event_views, SCOutputEvent};
use crate::interface_impl::{bytes_result, InterfaceImpl};
use crate::ledger_step::{FinalLedger, SCELedgerStep};
use crate::progress::{
    OperationBackup, PendingRun, PendingRunModel, PendingSeed, PendingSeedModel, Progress,
    ProgressModel,
};
use crate::sce_ledger::{
    module_view, ChangeModel, DataUpdate, SCELedger, SCELedgerChange, SCELedgerChanges,
    SCELedgerEntry, SCELedgerEntryUpdate,
};
use crate::types::{
    history_views, operation_views, stack_views, ExecutionContext, ExecutionData, ExecutionStep,
    Operation, OperationContent, ReadOnlyResult, StackElement, StepHistoryItem,
};
use crate::vm::{SCELedgerInfo, VM};
use vstd::prelude::*;

verus! {

/// The model of a VM has its configuration, its history in order, its interface and its final
/// events.
pub proof fn lemma_vm_view(vm: VM, i: int)
    ensures
        vm@.thread_count == vm.thread_count,
        vm@.genesis_timestamp == vm.genesis_timestamp,
        vm@.t0 == vm.t0,
        vm@.step_history.len() == vm.step_history@.len(),
        0 <= i < vm.step_history@.len() ==> vm@.step_history[i] == vm.step_history@[i]@,
        vm@.interface == vm.execution_interface@,
        vm@.final_events == vm.final_events@,
{
}

/// The model of an interface has its context and its configuration.
pub proof fn lemma_interface_view(interface: InterfaceImpl)
    ensures
        interface@.context == interface.context@,
        interface@.thread_count == interface.thread_count,
        interface@.t0 == interface.t0,
        interface@.genesis_timestamp == interface.genesis_timestamp,
{
}

/// The model of a context has all its parts, with the call stack in order.
pub proof fn lemma_context_view(context: ExecutionContext, i: int)
    ensures
        context@.ledger_step == context.ledger_step@,
        context@.max_gas == context.max_gas,
        context@.gas_price == context.gas_price,
        context@.slot == context.slot,
        context@.opt_block_id == context.opt_block_id,
        context@.opt_block_creator_addr == context.opt_block_creator_addr,
        context@.operation_index == context.operation_index,
        context@.stack.len() == context.stack@.len(),
        0 <= i < context.stack@.len() ==> context@.stack[i] == context.stack@[i]@,
        context@.created_addr_index == context.created_addr_index,
        context@.created_event_index == context.created_event_index,
        context@.events == context.events@,
        context@.read_only == context.read_only,
        context@.unsafe_rng == context.unsafe_rng,
        context@.origin_operation_id == context.origin_operation_id,
{
}

/// The model of a call has its address, its coins and the addresses it owns.
pub proof fn lemma_call_view(call: StackElement)
    ensures
        call@.address == call.address,
        call@.coins == call.coins,
        call@.owned_addresses == call.owned_addresses@,
{
}

/// The model of a view of the ledger has its three layers.
pub proof fn lemma_ledger_step_view(step: SCELedgerStep, ledger: FinalLedger)
    ensures
        step@.final_ledger_slot == step.final_ledger_slot@,
        step@.cumulative_history_changes == step.cumulative_history_changes@,
        step@.caused_changes == step.caused_changes@,
        ledger@.ledger == ledger.ledger@,
        ledger@.slot == ledger.slot,
{
}

/// The models of a ledger and of changes map addresses as they do.
pub proof fn lemma_ledger_view(ledger: SCELedger, changes: SCELedgerChanges)
    ensures
        ledger@ == ledger.0@,
        changes@ == changes.0@,
{
}

/// The model of an entry has its balance, its module and its data.
pub proof fn lemma_entry_view(entry: SCELedgerEntry, info: SCELedgerInfo)
    ensures
        entry@.balance == entry.balance,
        entry.opt_module is None ==> entry@.opt_module is None,
        entry.opt_module matches Some(module) ==> entry@.opt_module == Some(module@),
        entry@.data == entry.data@,
        info@.balance == info.balance,
        info.module is None ==> info@.opt_module is None,
        info.module matches Some(module) ==> info@.opt_module == Some(module@),
        info@.data == info.datastore@,
{
}

/// The models of updates and changes say which parts they write, and what.
pub proof fn lemma_change_view(
    update: SCELedgerEntryUpdate,
    change: SCELedgerChange,
    row: DataUpdate,
)
    ensures
        update@.balance == update.update_balance,
        update.update_opt_module is None ==> update@.opt_module is None,
        update.update_opt_module matches Some(module) ==> update@.opt_module == Some(
            module_view(module),
        ),
        update@.data == update.update_data@,
        change is Delete <==> change@ is Delete,
        change matches SCELedgerChange::Put(entry) ==> change@ == ChangeModel::Put(entry@),
        change matches SCELedgerChange::Update(written) ==> change@ == ChangeModel::Update(
            written@,
        ),
        row is Remove ==> row@ is None,
        row matches DataUpdate::Write(value) ==> row@ == Some(value@),
{
}

/// The model of a module is its bytes, and that of an answer of bytes its bytes or its error.
pub proof fn lemma_bytes_view(module: Vec<u8>, error: InterfaceError)
    ensures
        module_view(Some(module)) == Some(module@),
        module_view(None) is None,
        bytes_result(Ok(module)) == Ok::<Seq<u8>, InterfaceError>(module@),
        bytes_result(Err(error)) == Err::<Seq<u8>, InterfaceError>(error),
{
}

/// The model of an event has all its parts.
pub proof fn lemma_event_view(event: SCOutputEvent)
    ensures
        event@.id == event.id,
        event@.slot == event.context.slot,
        event@.block == event.context.block,
        event@.call_stack == event.context.call_stack@,
        event@.read_only == event.context.read_only,
        event@.index_in_slot == event.context.index_in_slot,
        event@.origin_operation_id == event.context.origin_operation_id,
        event@.data == event.data@,
{
}

/// The models of lists have one model for each element, in order.
pub proof fn lemma_list_views(
    events: Seq<SCOutputEvent>,
    history: Seq<StepHistoryItem>,
    stack: Seq<StackElement>,
    operations: Seq<Operation>,
    i: int,
)
    ensures
        event_views(events).len() == events.len(),
        0 <= i < events.len() ==> event_views(events)[i] == events[i]@,
        history_views(history).len() == history.len(),
        0 <= i < history.len() ==> history_views(history)[i] == history[i]@,
        stack_views(stack).len() == stack.len(),
        0 <= i < stack.len() ==> stack_views(stack)[i] == stack[i]@,
        operation_views(operations).len() == operations.len(),
        0 <= i < operations.len() ==> operation_views(operations)[i] == operations[i]@,
{
}

/// The model of the outcome of a step has all its parts.
pub proof fn lemma_history_item_view(item: StepHistoryItem)
    ensures
        item@.slot == item.slot,
        item@.opt_block_id == item.opt_block_id,
        item@.ledger_changes == item.ledger_changes@,
        item@.events == item.events@,
{
}

/// The model of what an operation asks for has all its parts.
pub proof fn lemma_operation_view(data: ExecutionData, operation: Operation)
    ensures
        data@.bytecode == data.bytecode@,
        data@.sender_address == data.sender_address,
        data@.max_gas == data.max_gas,
        data@.gas_price == data.gas_price,
        data@.coins == data.coins,
        operation@.id == operation.id,
        operation.content is Other ==> operation@.data is None,
        operation.content matches OperationContent::ExecuteSC(asked) ==> operation@.data == Some(
            asked@,
        ),
{
}

/// The model of a step has its slot, and its block with identifier, creator and operations in
/// order.
pub proof fn lemma_step_view(step: ExecutionStep, i: int)
    ensures
        step@.slot == step.slot,
        step.block is None ==> step@.block is None,
        step.block matches Some((id, block)) ==> {
            &&& step@.block is Some
            &&& step@.block->0.id == id
            &&& step@.block->0.creator_address == block.creator_address
            &&& step@.block->0.operations.len() == block.operations@.len()
            &&& 0 <= i < block.operations@.len() ==> step@.block->0.operations[i]
                == block.operations@[i]@
        },
{
}

/// The models of what is kept while an execution waits have all its parts.
pub proof fn lemma_pending_view(
    backup: OperationBackup,
    pending_seed: PendingSeed,
    pending_run: PendingRun,
)
    ensures
        backup@.ledger_changes == backup.ledger_changes@,
        backup@.created_addr_index == backup.created_addr_index,
        backup@.events == backup.events@,
        backup@.created_event_index == backup.created_event_index,
        backup@.unsafe_rng == backup.unsafe_rng,
        pending_seed matches PendingSeed::Step { mode, step } ==> pending_seed@ == (
        PendingSeedModel::Step { mode, step: step@ }),
        pending_seed matches PendingSeed::ReadOnly { slot, max_gas, bytecode } ==> pending_seed@
            == (PendingSeedModel::ReadOnly { slot, max_gas, bytecode: bytecode@ }),
        pending_run matches PendingRun::Operation { mode, step, next, backup: kept }
            ==> pending_run@ == (PendingRunModel::Operation {
            mode,
            step: step@,
            next: next as nat,
            backup: kept@,
        }),
        pending_run matches PendingRun::ReadOnly { slot } ==> pending_run@ == (
        PendingRunModel::ReadOnly { slot }),
{
}

/// The model of how far an execution came says what it needs, or what it answers.
pub proof fn lemma_progress_view(progress: Progress)
    ensures
        progress matches Progress::Digest { data, pending_seed } ==> progress@ == (
        ProgressModel::Digest { data: data@, pending_seed: pending_seed@ }),
        progress matches Progress::Run { bytecode, max_gas, pending_run } ==> progress@ == (
        ProgressModel::Run { bytecode: bytecode@, max_gas, pending_run: pending_run@ }),
        progress is StepDone <==> progress@ is StepDone,
        progress matches Progress::ReadOnlyDone(response) ==> {
            &&& progress@ is ReadOnlyDone
            &&& progress@->ReadOnlyDone_0.executed_at == response.executed_at
            &&& progress@->ReadOnlyDone_0.output_events == event_views(response.output_events@)
            &&& response.result is Success ==> progress@->ReadOnlyDone_0.error is None
            &&& response.result matches ReadOnlyResult::Error(text)
                ==> progress@->ReadOnlyDone_0.error == Some(text@)
        },
{
}

} // verus!
