//! What holds of the events and modules that a step creates.

use crate::event_store::EventModel;
use crate::interface_impl::{creation_bytes, module_bytes};
use crate::interface_laws::{
    after_call, after_calls, lemma_call_touches_modules, lemma_calls_keep_frame, ContractCall,
};
use crate::models::{Address, Amount, BlockId, Digest, OperationId, Slot};
use crate::progress::{PendingRunModel, PendingSeedModel, ProgressModel, StepMode};
use crate::query_laws::events_have_slots;
use crate::request_laws::{ids_do_not_collide, lemma_run_keeps_every_event, said};
use crate::run_laws::{
    after_answers, answered, begun, lemma_done_stays, lemma_read_only_leaves_no_trace, performed,
    Answer, Execution, Request,
};
use crate::sce_ledger::{lemma_apply_empty, module_in};
use crate::types::{ContextModel, ExecutionStepModel, HistoryItemModel};
use crate::vm_laws::{
    active_ledger, lemma_active_step_is_seen, lemma_failed_run_is_undone,
    lemma_final_step_is_applied, lemma_prepared_credits, under_way,
};
use crate::vm_model::{next_executable, VMModel};
use vstd::prelude::*;

verus! {

/// Whether a request that creates something names it by the digest that the execution asks for,
/// and the counters have room.
pub open spec fn named_call(
    context: ContextModel,
    call: ContractCall,
    digest: spec_fn(Seq<u8>) -> Digest,
) -> bool {
    match call {
        ContractCall::CreateModule { address, .. } => {
            &&& address.0 == digest(context.module_address_bytes())
            &&& context.stack.len() > 0 ==> context.created_addr_index < u64::MAX
        },
        ContractCall::GenerateEvent { id, .. } => {
            &&& id.0 == digest(context.event_id_bytes())
            &&& context.created_event_index < u64::MAX
        },
        _ => true,
    }
}

/// The same for the requests of a run, one after the other.
pub open spec fn named_calls(
    context: ContextModel,
    calls: Seq<ContractCall>,
    digest: spec_fn(Seq<u8>) -> Digest,
) -> bool
    decreases calls.len(),
{
    calls.len() > 0 ==> {
        &&& named_calls(context, calls.drop_last(), digest)
        &&& named_call(after_calls(context, calls.drop_last()), calls.last(), digest)
    }
}

/// The same for the runs of an execution, one after the other.
pub open spec fn named_answers(
    execution: Execution,
    answers: Seq<Answer>,
    digest: spec_fn(Seq<u8>) -> Digest,
) -> bool
    decreases answers.len(),
{
    answers.len() > 0 ==> {
        let before = after_answers(execution, answers.drop_last());
        &&& named_answers(execution, answers.drop_last(), digest)
        &&& before.1 is Run ==> (answers.last() matches Answer::Run { calls, .. } ==> named_calls(
            before.0.interface.context,
            calls,
            digest,
        ))
    }
}

/// The operation whose bytecode an execution waits for.
pub open spec fn running(progress: ProgressModel) -> Option<OperationId> {
    match progress {
        ProgressModel::Run {
            pending_run: PendingRunModel::Operation { step, next, .. },
            ..
        } => match step.block {
            Some(block) => if 0 < next <= block.operations.len() {
                block.operations[next - 1].id
            } else {
                None
            },
            None => None,
        },
        _ => None,
    }
}

/// The operations whose bytecode ran and succeeded.
pub open spec fn succeeded(execution: Execution, answers: Seq<Answer>) -> Set<OperationId>
    decreases answers.len(),
{
    if answers.len() == 0 {
        Set::empty()
    } else {
        let earlier = succeeded(execution, answers.drop_last());
        let before = after_answers(execution, answers.drop_last());
        match (running(before.1), answers.last()) {
            (Some(id), Answer::Run { success: true, .. }) => earlier.insert(id),
            _ => earlier,
        }
    }
}

/// Where an execution of a step stands that waits: before its operations, with nothing created;
/// or before the bytecode of one of them, with the context prepared for it.
spec fn placed(execution: Execution, mode: StepMode, step: ExecutionStepModel) -> bool {
    let (vm, progress) = execution;
    let context = vm.interface.context;
    &&& under_way(vm)
    &&& !context.read_only
    &&& match progress {
        ProgressModel::Digest { pending_seed, .. } => {
            &&& pending_seed == (PendingSeedModel::Step { mode, step })
            &&& context.events.len() == 0
            &&& context.created_event_index == 0
            &&& context.created_addr_index == 0
        },
        ProgressModel::Run {
            bytecode,
            max_gas,
            pending_run: PendingRunModel::Operation { mode: m, step: s, next, backup },
        } => {
            let operation = step.block->0.operations[next - 1];
            &&& m == mode
            &&& s == step
            &&& step.block is Some
            &&& 0 < next <= step.block->0.operations.len()
            &&& running(progress) is Some
            &&& operation.data is Some
            &&& bytecode == operation.data->0.bytecode
            &&& max_gas == operation.data->0.max_gas
            &&& context.stack.len() == 1
            &&& context.stack[0].address == operation.data->0.sender_address
            &&& context.slot == step.slot
            &&& context.opt_block_id == step.block_id()
            &&& context.origin_operation_id == running(progress)
            &&& backup == context.backup()
        },
        _ => false,
    }
}

proof fn lemma_next_is_executable(step: ExecutionStepModel, from: nat)
    requires
        step.block is Some,
    ensures
        ({
            let operations = step.block->0.operations;
            let at = next_executable(operations, from);
            at < operations.len() ==> operations[at as int].executable()
        }),
    decreases step.block->0.operations.len() - from,
{
    let operations = step.block->0.operations;
    if from < operations.len() && !operations[from as int].executable() {
        lemma_next_is_executable(step, from + 1);
    }
}

/// What a context has when a step goes on, before the next operation is prepared.
spec fn before_next(execution: Execution, answer: Answer) -> VMModel {
    let vm = execution.0;
    match (execution.1, answer) {
        (ProgressModel::Digest { .. }, Answer::Seed(seed)) => vm.with_context(
            vm.interface.context.seeded(seed),
        ),
        (ProgressModel::Run { pending_run, .. }, Answer::Run { calls, success }) => {
            let ran = vm.with_context(after_calls(vm.interface.context, calls));
            if success {
                ran
            } else {
                ran.with_context(ran.interface.context.rolled_back(pending_run->backup))
            }
        },
        _ => vm,
    }
}

/// An answer leaves a step where it was, ends it, or brings it to its next operation, whose
/// preparation changes no module, no event and no counter.
proof fn lemma_placed_answered(
    execution: Execution,
    answer: Answer,
    mode: StepMode,
    step: ExecutionStepModel,
)
    requires
        placed(execution, mode, step),
    ensures
        ({
            let after = answered(execution, answer);
            let middle = before_next(execution, answer);
            &&& under_way(middle)
            &&& middle.step_history == execution.0.step_history
            &&& {
                ||| after == execution && middle == execution.0
                ||| after == (middle.finished(mode, step), ProgressModel::StepDone)
                ||| {
                    let context = after.0.interface.context;
                    &&& placed(after, mode, step)
                    &&& after.0.step_history == middle.step_history
                    &&& context.events == middle.interface.context.events
                    &&& context.created_event_index == middle.interface.context.created_event_index
                    &&& context.created_addr_index == middle.interface.context.created_addr_index
                    &&& context.ledger_step.same_but_balances(
                        middle.interface.context.ledger_step,
                    )
                }
            }
        }),
{
    let vm = execution.0;
    let middle = before_next(execution, answer);
    if let (ProgressModel::Run { .. }, Answer::Run { calls, .. }) = (execution.1, answer) {
        lemma_calls_keep_frame(vm.interface.context, calls);
    }
    let from: nat = match execution.1 {
        ProgressModel::Run {
            pending_run: PendingRunModel::Operation { next, .. },
            ..
        } => next,
        _ => 0,
    };
    if let Some(block) = step.block {
        lemma_next_is_executable(step, from);
        let at = next_executable(block.operations, from);
        if at < block.operations.len() {
            let operation = block.operations[at as int];
            lemma_prepared_credits(
                middle.interface.context,
                operation.data->0,
                block.creator_address,
                block.id,
                step.slot,
                operation.id,
                at as u64,
            );
        }
    }
}

/// Whether the identifiers of the events of a slot do not collide.
pub open spec fn event_ids_distinct(digest: spec_fn(Seq<u8>) -> Digest, slot: Slot) -> bool {
    forall|i: u64, j: u64|
        #![trigger digest(creation_bytes(slot, i, false)), digest(creation_bytes(slot, j, false))]
        digest(creation_bytes(slot, i, false)) == digest(creation_bytes(slot, j, false)) ==> i == j
}

/// Whether events are numbered from 0 without a gap, are of the slot and the block of `step`, and
/// came out of operations of `operations`.
pub open spec fn numbered(
    events: Seq<EventModel>,
    step: ExecutionStepModel,
    operations: Set<OperationId>,
) -> bool {
    forall|i: int|
        0 <= i < events.len() ==> {
            &&& (#[trigger] events[i]).index_in_slot == i
            &&& events[i].slot == step.slot
            &&& events[i].block == step.block_id()
            &&& !events[i].read_only
            &&& events[i].origin_operation_id is Some
            &&& operations.contains(events[i].origin_operation_id->0)
        }
}

/// Whether each event is named by the digest for its number, and the next one has the next.
spec fn counted(context: ContextModel, slot: Slot, digest: spec_fn(Seq<u8>) -> Digest) -> bool {
    &&& context.created_event_index == context.events.len()
    &&& forall|i: int|
        0 <= i < context.events.len() ==> (#[trigger] context.events[i]).id.0 == digest(
            creation_bytes(slot, i as u64, false),
        )
}

proof fn lemma_calls_number(
    context: ContextModel,
    calls: Seq<ContractCall>,
    step: ExecutionStepModel,
    operations: Set<OperationId>,
    digest: spec_fn(Seq<u8>) -> Digest,
)
    requires
        event_ids_distinct(digest, step.slot),
        named_calls(context, calls, digest),
        context.slot == step.slot,
        context.opt_block_id == step.block_id(),
        !context.read_only,
        context.origin_operation_id is Some,
        operations.contains(context.origin_operation_id->0),
        numbered(context.events, step, operations),
        counted(context, step.slot, digest),
    ensures
        numbered(after_calls(context, calls).events, step, operations),
        counted(after_calls(context, calls), step.slot, digest),
    decreases calls.len(),
{
    if calls.len() > 0 {
        let earlier = calls.drop_last();
        lemma_calls_number(context, earlier, step, operations, digest);
        lemma_calls_keep_frame(context, earlier);
        let before = after_calls(context, earlier);
        let after = after_calls(context, calls);
        if let ContractCall::GenerateEvent { id, data } = calls.last() {
            let index = before.created_event_index;
            assert forall|i: int| 0 <= i < before.events.len() implies (
            #[trigger] before.events[i]).id != id by {
                if before.events[i].id == id {
                    assert(digest(creation_bytes(step.slot, i as u64, false)) == digest(
                        creation_bytes(step.slot, index, false),
                    ));
                }
            }
            assert(after.events == before.events.push(before.stamped_event(id, data)));
        }
    }
}

/// The events of a step are numbered from 0 without a gap, also where operations in between
/// failed. They are of the slot and the block of the step, and came out of operations whose
/// bytecode ran and succeeded. `end` is the VM after the last operation of the step.
pub proof fn lemma_step_numbers_its_events(
    vm: VMModel,
    mode: StepMode,
    step: ExecutionStepModel,
    answers: Seq<Answer>,
    digest: spec_fn(Seq<u8>) -> Digest,
) -> (end: VMModel)
    requires
        event_ids_distinct(digest, step.slot),
        named_answers(vm.started(mode, step), answers, digest),
    ensures
        ({
            let start = vm.started(mode, step);
            let (after, progress) = after_answers(start, answers);
            let operations = succeeded(start, answers);
            if progress is StepDone {
                &&& after == end.finished(mode, step)
                &&& numbered(end.outcome(step).events, step, operations)
            } else {
                numbered(after.interface.context.events, step, operations)
            }
        }),
{
    lemma_numbered_answers(vm, mode, step, answers, digest)
}

proof fn lemma_numbered_answers(
    vm: VMModel,
    mode: StepMode,
    step: ExecutionStepModel,
    answers: Seq<Answer>,
    digest: spec_fn(Seq<u8>) -> Digest,
) -> (end: VMModel)
    requires
        event_ids_distinct(digest, step.slot),
        named_answers(vm.started(mode, step), answers, digest),
    ensures
        ({
            let start = vm.started(mode, step);
            let execution = after_answers(start, answers);
            let operations = succeeded(start, answers);
            ||| {
                &&& placed(execution, mode, step)
                &&& numbered(execution.0.interface.context.events, step, operations)
                &&& counted(execution.0.interface.context, step.slot, digest)
            }
            ||| {
                &&& execution == (end.finished(mode, step), ProgressModel::StepDone)
                &&& numbered(end.interface.context.events, step, operations)
            }
        }),
    decreases answers.len(),
{
    let start = vm.started(mode, step);
    if answers.len() == 0 {
        vm
    } else {
        let earlier = answers.drop_last();
        let answer = answers.last();
        let before = after_answers(start, earlier);
        let done = succeeded(start, earlier);
        let end = lemma_numbered_answers(vm, mode, step, earlier, digest);
        if placed(before, mode, step) {
            let context = before.0.interface.context;
            let middle = before_next(before, answer);
            lemma_placed_answered(before, answer, mode, step);
            if let (ProgressModel::Run { .. }, Answer::Run { calls, success }) = (
                before.1,
                answer,
            ) {
                if success {
                    let operations = done.insert(running(before.1)->0);
                    lemma_calls_number(context, calls, step, operations, digest);
                } else {
                    lemma_failed_run_is_undone(context, calls);
                }
            }
            middle
        } else {
            end
        }
    }
}

/// Whether all events are of `slot`.
spec fn all_of_slot(events: Seq<EventModel>, slot: Slot) -> bool {
    forall|i: int| 0 <= i < events.len() ==> (#[trigger] events[i]).slot == slot
}

proof fn lemma_calls_keep_slot(context: ContextModel, calls: Seq<ContractCall>, slot: Slot)
    requires
        context.slot == slot,
        all_of_slot(context.events, slot),
    ensures
        all_of_slot(after_calls(context, calls).events, slot),
    decreases calls.len(),
{
    if calls.len() > 0 {
        lemma_calls_keep_slot(context, calls.drop_last(), slot);
        lemma_calls_keep_frame(context, calls.drop_last());
    }
}

proof fn lemma_slotted_answers(
    vm: VMModel,
    mode: StepMode,
    step: ExecutionStepModel,
    answers: Seq<Answer>,
) -> (end: VMModel)
    ensures
        ({
            let execution = after_answers(vm.started(mode, step), answers);
            ||| {
                &&& placed(execution, mode, step)
                &&& execution.0.step_history == vm.step_history
                &&& all_of_slot(execution.0.interface.context.events, step.slot)
            }
            ||| {
                &&& execution == (end.finished(mode, step), ProgressModel::StepDone)
                &&& end.step_history == vm.step_history
                &&& all_of_slot(end.interface.context.events, step.slot)
            }
        }),
    decreases answers.len(),
{
    let start = vm.started(mode, step);
    if answers.len() == 0 {
        vm
    } else {
        let earlier = answers.drop_last();
        let answer = answers.last();
        let before = after_answers(start, earlier);
        let end = lemma_slotted_answers(vm, mode, step, earlier);
        if placed(before, mode, step) {
            lemma_placed_answered(before, answer, mode, step);
            if let (ProgressModel::Run { .. }, Answer::Run { calls, success }) = (
                before.1,
                answer,
            ) {
                let context = before.0.interface.context;
                lemma_calls_keep_slot(context, calls, step.slot);
                lemma_failed_run_is_undone(context, calls);
            }
            before_next(before, answer)
        } else {
            end
        }
    }
}

/// Whatever is requested and answered, each event of the history is of the slot of its step.
pub proof fn lemma_history_events_have_slots(vm: VMModel, request: Request, answers: Seq<Answer>)
    requires
        events_have_slots(vm.step_history),
    ensures
        events_have_slots(performed(vm, request, answers).0.step_history),
{
    let after = performed(vm, request, answers).0;
    match request {
        Request::Active { step } => {
            let kept = vm.rewound(step.slot);
            let end = lemma_slotted_answers(kept, StepMode::Active, step, answers);
            assert forall|i: int, j: int|
                0 <= i < after.step_history.len() && 0 <= j
                    < after.step_history[i].events.len() implies (
            #[trigger] after.step_history[i].events[j]).slot == after.step_history[i].slot by {
                if i < kept.step_history.len() {
                    assert(after.step_history[i] == vm.step_history[i]);
                    assert(vm.step_history[i].events[j].slot == vm.step_history[i].slot);
                }
            }
        },
        Request::Final { step, max_final_events } => {
            if vm.has_cached(step) {
                lemma_done_stays(vm.after_final_step(step, max_final_events), answers);
                assert forall|i: int, j: int|
                    0 <= i < after.step_history.len() && 0 <= j
                        < after.step_history[i].events.len() implies (
                #[trigger] after.step_history[i].events[j]).slot == after.step_history[i].slot by {
                    assert(vm.step_history[i + 1].events[j].slot == vm.step_history[i + 1].slot);
                }
            } else {
                let cleared = VMModel { step_history: Seq::empty(), ..vm };
                let end = lemma_slotted_answers(
                    cleared,
                    StepMode::Final(max_final_events),
                    step,
                    answers,
                );
            }
        },
        Request::ReadOnly { slot, max_gas, simulated_gas_price, bytecode, address } => {
            lemma_read_only_leaves_no_trace(
                vm,
                slot,
                max_gas,
                simulated_gas_price,
                bytecode,
                address,
                answers,
            );
        },
        Request::Reset => {
            lemma_done_stays(begun(vm, request), answers);
        },
    }
}

/// Whatever was answered, a step that waits for a run waits for that of one of its operations, and
/// hands out the bytecode and the gas limit of just that operation.
pub proof fn lemma_step_hands_out_own_bytecode(
    vm: VMModel,
    mode: StepMode,
    step: ExecutionStepModel,
    answers: Seq<Answer>,
)
    ensures
        after_answers(vm.started(mode, step), answers).1 matches ProgressModel::Run {
            bytecode,
            max_gas,
            pending_run,
        } ==> {
            &&& step.block is Some
            &&& pending_run matches PendingRunModel::Operation { mode: m, step: s, next, .. }
            &&& m == mode
            &&& s == step
            &&& 0 < next <= step.block->0.operations.len()
            &&& step.block->0.operations[next - 1].id is Some
            &&& step.block->0.operations[next - 1].data is Some
            &&& bytecode == step.block->0.operations[next - 1].data->0.bytecode
            &&& max_gas == step.block->0.operations[next - 1].data->0.max_gas
        },
{
    let end = lemma_slotted_answers(vm, mode, step, answers);
}

/// Whether each event came out of an operation of the step, and has the sender of that operation
/// first in its call stack, if there was a call.
pub open spec fn name_senders(events: Seq<EventModel>, step: ExecutionStepModel) -> bool {
    forall|i: int|
        0 <= i < events.len() ==> exists|k: int|
            0 <= k < step.block->0.operations.len() && {
                let operation = #[trigger] step.block->0.operations[k];
                &&& operation.id is Some
                &&& operation.id == (#[trigger] events[i]).origin_operation_id
                &&& operation.data is Some
                &&& events[i].call_stack.len() > 0 ==> events[i].call_stack[0]
                    == operation.data->0.sender_address
            }
}

proof fn lemma_run_names_sender(
    context: ContextModel,
    calls: Seq<ContractCall>,
    step: ExecutionStepModel,
    k: int,
)
    requires
        name_senders(context.events, step),
        0 <= k < step.block->0.operations.len(),
        step.block->0.operations[k].id is Some,
        step.block->0.operations[k].data is Some,
        context.origin_operation_id == step.block->0.operations[k].id,
        context.stack.len() > 0 ==> context.stack[0].address
            == step.block->0.operations[k].data->0.sender_address,
    ensures
        name_senders(after_calls(context, calls).events, step),
        after_calls(context, calls).stack.len() > 0 ==> after_calls(context, calls).stack[0].address
            == step.block->0.operations[k].data->0.sender_address,
    decreases calls.len(),
{
    if calls.len() > 0 {
        let earlier = calls.drop_last();
        lemma_run_names_sender(context, earlier, step, k);
        lemma_calls_keep_frame(context, earlier);
        let before = after_calls(context, earlier);
        let after = after_calls(context, calls);
        assert(after == after_call(before, calls.last()));
        assert forall|i: int| 0 <= i < after.events.len() implies exists|k: int|
            0 <= k < step.block->0.operations.len() && {
                let operation = #[trigger] step.block->0.operations[k];
                &&& operation.id is Some
                &&& operation.id == (#[trigger] after.events[i]).origin_operation_id
                &&& operation.data is Some
                &&& after.events[i].call_stack.len() > 0 ==> after.events[i].call_stack[0]
                    == operation.data->0.sender_address
            } by {
            if i < before.events.len() {
                assert(after.events[i] == before.events[i]);
            } else {
                assert(step.block->0.operations[k].id == after.events[i].origin_operation_id);
            }
        }
    }
}

/// The events of a step name the senders of its operations: each has the operation it came out of
/// and, first in its call stack, the sender of just that operation, however deep the call that
/// generated it. `end` is the VM after the last operation of the step.
pub proof fn lemma_step_events_name_senders(
    vm: VMModel,
    mode: StepMode,
    step: ExecutionStepModel,
    answers: Seq<Answer>,
) -> (end: VMModel)
    ensures
        ({
            let execution = after_answers(vm.started(mode, step), answers);
            if execution.1 is StepDone {
                &&& execution.0 == end.finished(mode, step)
                &&& name_senders(end.outcome(step).events, step)
            } else {
                name_senders(execution.0.interface.context.events, step)
            }
        }),
    decreases answers.len(),
{
    let start = vm.started(mode, step);
    if answers.len() == 0 {
        vm
    } else {
        let earlier = answers.drop_last();
        let answer = answers.last();
        let before = after_answers(start, earlier);
        let end = lemma_step_events_name_senders(vm, mode, step, earlier);
        let other_end = lemma_slotted_answers(vm, mode, step, earlier);
        if before.1 is StepDone {
            end
        } else {
            let context = before.0.interface.context;
            lemma_placed_answered(before, answer, mode, step);
            if let (
                ProgressModel::Run { pending_run: PendingRunModel::Operation { next, .. }, .. },
                Answer::Run { calls, success },
            ) = (before.1, answer) {
                lemma_run_names_sender(context, calls, step, next - 1);
                lemma_failed_run_is_undone(context, calls);
            }
            before_next(before, answer)
        }
    }
}

/// The answer to a read-only request has every event that its run generated, in order: as many as
/// the run generated, and the i-th says what the i-th said.
pub proof fn lemma_read_only_answers_with_every_event(
    vm: VMModel,
    slot: Slot,
    max_gas: u64,
    simulated_gas_price: Amount,
    bytecode: Seq<u8>,
    address: Address,
    seed: Seq<u8>,
    calls: Seq<ContractCall>,
    success: bool,
    digest: spec_fn(Seq<u8>) -> Digest,
)
    requires
        ids_do_not_collide(digest, vm.interface.context.slot, true),
        named_answers(
            vm.after_read_only(slot, max_gas, simulated_gas_price, bytecode, address),
            seq![Answer::Seed(seed), Answer::Run { calls, success }],
            digest,
        ),
    ensures
        ({
            let (after, progress) = after_answers(
                vm.after_read_only(slot, max_gas, simulated_gas_price, bytecode, address),
                seq![Answer::Seed(seed), Answer::Run { calls, success }],
            );
            &&& progress matches ProgressModel::ReadOnlyDone(response)
            &&& response.executed_at == slot
            &&& response.error is None <==> success
            &&& response.output_events.len() == said(calls).len()
            &&& forall|i: int|
                0 <= i < said(calls).len() ==> {
                    &&& (#[trigger] response.output_events[i]).data == said(calls)[i]
                    &&& response.output_events[i].index_in_slot == i
                    &&& response.output_events[i].read_only
                }
        }),
{
    let start = vm.after_read_only(slot, max_gas, simulated_gas_price, bytecode, address);
    let answers = seq![Answer::Seed(seed), Answer::Run { calls, success }];
    let first = seq![Answer::Seed(seed)];
    reveal_with_fuel(after_answers, 3);
    assert(answers.drop_last() =~= first);
    assert(first.drop_last() =~= Seq::empty());
    let running = after_answers(start, first).0.interface.context;
    lemma_run_keeps_every_event(running, calls, digest);
}

/// A module that a contract created.
pub struct Creation {
    /// its address
    pub address: Address,
    /// position of the operation in its block
    pub operation: u64,
    /// index of the created address in the slot
    pub index: u64,
    /// the module
    pub module: Seq<u8>,
}

/// The modules that a run created, in order. A creation without a current call is an error and
/// does not count.
pub open spec fn created_by(context: ContextModel, calls: Seq<ContractCall>) -> Seq<Creation>
    decreases calls.len(),
{
    if calls.len() == 0 {
        Seq::empty()
    } else {
        let earlier = created_by(context, calls.drop_last());
        let before = after_calls(context, calls.drop_last());
        match calls.last() {
            ContractCall::CreateModule { address, module } if before.stack.len() > 0 => {
                earlier.push(
                    Creation {
                        address,
                        operation: before.operation_index,
                        index: before.created_addr_index,
                        module,
                    },
                )
            },
            _ => earlier,
        }
    }
}

/// The modules that the runs of an execution created, without those of runs that failed.
pub open spec fn created_in(execution: Execution, answers: Seq<Answer>) -> Seq<Creation>
    decreases answers.len(),
{
    if answers.len() == 0 {
        Seq::empty()
    } else {
        let earlier = created_in(execution, answers.drop_last());
        let before = after_answers(execution, answers.drop_last());
        match (before.1, answers.last()) {
            (ProgressModel::Run { .. }, Answer::Run { calls, success: true }) => {
                earlier + created_by(before.0.interface.context, calls)
            },
            _ => earlier,
        }
    }
}

/// Whether the addresses of the modules of a block do not collide.
pub open spec fn module_addresses_distinct(
    digest: spec_fn(Seq<u8>) -> Digest,
    block_id: BlockId,
) -> bool {
    forall|operation_a: u64, index_a: u64, operation_b: u64, index_b: u64|
        #![trigger
            digest(module_bytes(block_id, operation_a, index_a)),
            digest(module_bytes(block_id, operation_b, index_b))]
        digest(module_bytes(block_id, operation_a, index_a)) == digest(
            module_bytes(block_id, operation_b, index_b),
        ) ==> operation_a == operation_b && index_a == index_b
}

/// Whether the modules `made` are there, under addresses with growing indices.
spec fn stored(
    made: Seq<Creation>,
    context: ContextModel,
    block_id: BlockId,
    digest: spec_fn(Seq<u8>) -> Digest,
) -> bool {
    &&& forall|i: int|
        0 <= i < made.len() ==> {
            &&& (#[trigger] made[i]).address.0 == digest(
                module_bytes(block_id, made[i].operation, made[i].index),
            )
            &&& made[i].index < context.created_addr_index
            &&& context.ledger_step.module(made[i].address) == Some(made[i].module)
        }
    &&& forall|i: int, j: int|
        0 <= i < j < made.len() ==> (#[trigger] made[i]).index < (#[trigger] made[j]).index
}

proof fn lemma_calls_store(
    made: Seq<Creation>,
    context: ContextModel,
    calls: Seq<ContractCall>,
    block_id: BlockId,
    digest: spec_fn(Seq<u8>) -> Digest,
)
    requires
        module_addresses_distinct(digest, block_id),
        named_calls(context, calls, digest),
        context.opt_block_id == Some(block_id),
        !context.read_only,
        stored(made, context, block_id, digest),
    ensures
        stored(
            made + created_by(context, calls),
            after_calls(context, calls),
            block_id,
            digest,
        ),
    decreases calls.len(),
{
    if calls.len() == 0 {
        assert(made + created_by(context, calls) =~= made);
    } else {
        let earlier = calls.drop_last();
        let call = calls.last();
        lemma_calls_store(made, context, earlier, block_id, digest);
        lemma_calls_keep_frame(context, earlier);
        let before = after_calls(context, earlier);
        let after = after_calls(context, calls);
        let old_made = made + created_by(context, earlier);
        let new_made = made + created_by(context, calls);
        assert(after == after_call(before, call));
        assert(before.module_address_bytes() == module_bytes(
            block_id,
            before.operation_index,
            before.created_addr_index,
        ));
        assert forall|i: int| 0 <= i < old_made.len() implies after.ledger_step.module(
            (#[trigger] old_made[i]).address,
        ) == Some(old_made[i].module) by {
            let address = old_made[i].address;
            lemma_call_touches_modules(before, call, address);
            if let ContractCall::CreateModule { address: created, .. } = call {
                if created == address {
                    assert(digest(
                        module_bytes(block_id, old_made[i].operation, old_made[i].index),
                    ) == digest(
                        module_bytes(
                            block_id,
                            before.operation_index,
                            before.created_addr_index,
                        ),
                    ));
                }
            }
        }
        match call {
            ContractCall::CreateModule { address, module } if before.stack.len() > 0 => {
                lemma_call_touches_modules(before, call, address);
                assert(new_made =~= old_made.push(
                    Creation {
                        address,
                        operation: before.operation_index,
                        index: before.created_addr_index,
                        module,
                    },
                ));
            },
            _ => {
                assert(new_made =~= old_made);
            },
        }
    }
}

proof fn lemma_stored_answers(
    vm: VMModel,
    mode: StepMode,
    step: ExecutionStepModel,
    answers: Seq<Answer>,
    block_id: BlockId,
    digest: spec_fn(Seq<u8>) -> Digest,
) -> (end: VMModel)
    requires
        module_addresses_distinct(digest, block_id),
        step.block_id() == Some(block_id),
        named_answers(vm.started(mode, step), answers, digest),
    ensures
        ({
            let start = vm.started(mode, step);
            let execution = after_answers(start, answers);
            let made = created_in(start, answers);
            ||| {
                &&& placed(execution, mode, step)
                &&& stored(made, execution.0.interface.context, block_id, digest)
            }
            ||| {
                &&& execution == (end.finished(mode, step), ProgressModel::StepDone)
                &&& under_way(end)
                &&& end.step_history == vm.step_history
                &&& stored(made, end.interface.context, block_id, digest)
            }
        }),
        after_answers(vm.started(mode, step), answers).1 !is StepDone ==> after_answers(
            vm.started(mode, step),
            answers,
        ).0.step_history == vm.step_history,
    decreases answers.len(),
{
    let start = vm.started(mode, step);
    if answers.len() == 0 {
        vm
    } else {
        let earlier = answers.drop_last();
        let answer = answers.last();
        let before = after_answers(start, earlier);
        let after = after_answers(start, answers);
        let made = created_in(start, earlier);
        let end = lemma_stored_answers(vm, mode, step, earlier, block_id, digest);
        if placed(before, mode, step) {
            let context = before.0.interface.context;
            let middle = before_next(before, answer);
            lemma_placed_answered(before, answer, mode, step);
            if let (ProgressModel::Run { .. }, Answer::Run { calls, success }) = (
                before.1,
                answer,
            ) {
                if success {
                    lemma_calls_store(made, context, calls, block_id, digest);
                } else {
                    lemma_failed_run_is_undone(context, calls);
                }
            }
            let now = created_in(start, answers);
            assert(stored(now, middle.interface.context, block_id, digest));
            middle
        } else {
            end
        }
    }
}

/// The modules that the contracts of a step create never share an address, and each stays as it
/// was created, whatever the contracts ask for in between and whichever other operations fail.
/// While the step is executed its contracts see them; when it is done, the next step does.
pub proof fn lemma_created_modules_stay(
    vm: VMModel,
    mode: StepMode,
    step: ExecutionStepModel,
    answers: Seq<Answer>,
    block_id: BlockId,
    digest: spec_fn(Seq<u8>) -> Digest,
)
    requires
        module_addresses_distinct(digest, block_id),
        step.block_id() == Some(block_id),
        named_answers(vm.started(mode, step), answers, digest),
        mode is Final ==> vm.step_history.len() == 0,
    ensures
        ({
            let start = vm.started(mode, step);
            let (after, progress) = after_answers(start, answers);
            let made = created_in(start, answers);
            &&& forall|i: int, j: int|
                0 <= i < made.len() && 0 <= j < made.len() && i != j ==> (
                #[trigger] made[i]).address != (#[trigger] made[j]).address
            &&& forall|i: int|
                0 <= i < made.len() ==> {
                    let seen = if progress is StepDone {
                        module_in(active_ledger(after), made[i].address)
                    } else {
                        after.interface.context.ledger_step.module(made[i].address)
                    };
                    seen == Some((#[trigger] made[i]).module)
                }
        }),
{
    let start = vm.started(mode, step);
    let (after, progress) = after_answers(start, answers);
    let made = created_in(start, answers);
    let end = lemma_stored_answers(vm, mode, step, answers, block_id, digest);
    assert forall|i: int, j: int|
        0 <= i < made.len() && 0 <= j < made.len() && i != j implies (
    #[trigger] made[i]).address != (#[trigger] made[j]).address by {
        if made[i].address == made[j].address {
            assert(digest(module_bytes(block_id, made[i].operation, made[i].index)) == digest(
                module_bytes(block_id, made[j].operation, made[j].index),
            ));
            if i < j {
                assert(made[i].index < made[j].index);
            } else {
                assert(made[j].index < made[i].index);
            }
        }
    }
    if progress is StepDone {
        match mode {
            StepMode::Active => {
                lemma_active_step_is_seen(end, step);
            },
            StepMode::Final(max_final_events) => {
                lemma_final_step_is_applied(end, step, max_final_events);
                assert(after.step_history =~= Seq::<HistoryItemModel>::empty());
                lemma_apply_empty(after.final_ledger_slot().ledger);
            },
        }
    }
}

} // verus!
