//! What holds of whole executions, whatever is answered to them from outside.

use crate::interface_laws::{after_calls, lemma_calls_keep_frame, ContractCall};
use crate::models::{Address, Amount, Slot};
use crate::progress::{PendingRunModel, PendingSeedModel, ProgressModel, StepMode};
use crate::types::{ExecutionStepModel, HistoryItemModel, OperationModel};
use crate::vm_laws::{active_ledger, under_way};
use crate::vm_model::{next_executable, VMModel};
use vstd::prelude::*;

verus! {

/// An answer from outside to an execution that waits.
pub enum Answer {
    /// a digest
    Seed(Seq<u8>),
    /// a run of bytecode: what its contracts asked for, and whether it succeeded
    Run { calls: Seq<ContractCall>, success: bool },
}

/// A VM and how far its execution came.
pub type Execution = (VMModel, ProgressModel);

/// The execution after an answer. An answer to something else than what it waits for leaves it
/// waiting.
pub open spec fn answered(execution: Execution, answer: Answer) -> Execution {
    let vm = execution.0;
    match (execution.1, answer) {
        (ProgressModel::Digest { pending_seed, .. }, Answer::Seed(seed)) => vm.after_seed(
            pending_seed,
            seed,
        ),
        (ProgressModel::Run { pending_run, .. }, Answer::Run { calls, success }) => {
            vm.with_context(after_calls(vm.interface.context, calls)).after_run(
                pending_run,
                success,
            )
        },
        _ => execution,
    }
}

/// The execution after answers, one after the other.
pub open spec fn after_answers(execution: Execution, answers: Seq<Answer>) -> Execution
    decreases answers.len(),
{
    if answers.len() == 0 {
        execution
    } else {
        answered(after_answers(execution, answers.drop_last()), answers.last())
    }
}

/// A request to the VM that can change it.
pub enum Request {
    /// execute a step as final
    Final { step: ExecutionStepModel, max_final_events: usize },
    /// execute a step as active
    Active { step: ExecutionStepModel },
    /// execute code in read-only mode
    ReadOnly {
        slot: Slot,
        max_gas: u64,
        simulated_gas_price: Amount,
        bytecode: Seq<u8>,
        address: Address,
    },
    /// drop the history
    Reset,
}

/// The execution that a request begins.
pub open spec fn begun(vm: VMModel, request: Request) -> Execution {
    match request {
        Request::Final { step, max_final_events } => vm.after_final_step(step, max_final_events),
        Request::Active { step } => vm.after_active_step(step),
        Request::ReadOnly { slot, max_gas, simulated_gas_price, bytecode, address } => {
            vm.after_read_only(slot, max_gas, simulated_gas_price, bytecode, address)
        },
        Request::Reset => (
            VMModel { step_history: Seq::empty(), ..vm },
            ProgressModel::StepDone,
        ),
    }
}

/// The execution that a request begins, after answers.
pub open spec fn performed(vm: VMModel, request: Request, answers: Seq<Answer>) -> Execution {
    after_answers(begun(vm, request), answers)
}

/// An execution that is done takes no more answers.
pub proof fn lemma_done_stays(execution: Execution, answers: Seq<Answer>)
    requires
        !(execution.1 is Digest),
        !(execution.1 is Run),
    ensures
        after_answers(execution, answers) == execution,
    decreases answers.len(),
{
    if answers.len() > 0 {
        lemma_done_stays(execution, answers.drop_last());
    }
}

/// Whether both VMs have the same final ledger, final events and configuration.
pub open spec fn same_final(a: VMModel, b: VMModel) -> bool {
    &&& a.final_ledger_slot() == b.final_ledger_slot()
    &&& a.final_events == b.final_events
    &&& a.thread_count == b.thread_count
    &&& a.genesis_timestamp == b.genesis_timestamp
    &&& a.t0 == b.t0
}

/// Whether `item` is the outcome of `step`.
pub open spec fn is_outcome_of(item: HistoryItemModel, step: ExecutionStepModel) -> bool {
    item.slot == step.slot && item.opt_block_id == step.block_id()
}

/// Whether an execution of `step` that began on `begun` waits for an answer, with the final
/// ledger, the final events and the history as they were, and every step of the history in its
/// view of the ledger.
spec fn waits(
    execution: Execution,
    mode: StepMode,
    step: ExecutionStepModel,
    begun: VMModel,
) -> bool {
    let (vm, progress) = execution;
    &&& same_final(vm, begun)
    &&& vm.step_history == begun.step_history
    &&& under_way(vm)
    &&& match progress {
        ProgressModel::Digest { pending_seed, .. } => pending_seed == (PendingSeedModel::Step {
            mode,
            step,
        }),
        ProgressModel::Run { pending_run, .. } => {
            &&& pending_run matches PendingRunModel::Operation { mode: m, step: s, .. }
            &&& m == mode
            &&& s == step
        },
        _ => false,
    }
}

/// An execution of a step that waits goes on waiting, or came to its end by [`VMModel::finished`].
proof fn lemma_answered(
    execution: Execution,
    answer: Answer,
    mode: StepMode,
    step: ExecutionStepModel,
    begun: VMModel,
) -> (end: VMModel)
    requires
        waits(execution, mode, step, begun),
    ensures
        ({
            let after = answered(execution, answer);
            ||| waits(after, mode, step, begun)
            ||| {
                &&& after == (end.finished(mode, step), ProgressModel::StepDone)
                &&& same_final(end, begun)
                &&& end.step_history == begun.step_history
                &&& under_way(end)
            }
        }),
{
    let vm = execution.0;
    match (execution.1, answer) {
        (ProgressModel::Digest { .. }, Answer::Seed(seed)) => {
            vm.with_context(vm.interface.context.seeded(seed))
        },
        (ProgressModel::Run { pending_run, .. }, Answer::Run { calls, success }) => {
            lemma_calls_keep_frame(vm.interface.context, calls);
            let ran = vm.with_context(after_calls(vm.interface.context, calls));
            if success {
                ran
            } else {
                ran.with_context(ran.interface.context.rolled_back(pending_run->backup))
            }
        },
        _ => vm,
    }
}

/// Where an execution of a step that began on `begun` stands after some answers.
proof fn lemma_after_answers(
    execution: Execution,
    answers: Seq<Answer>,
    mode: StepMode,
    step: ExecutionStepModel,
    begun: VMModel,
) -> (end: VMModel)
    requires
        waits(execution, mode, step, begun),
    ensures
        ({
            let after = after_answers(execution, answers);
            ||| waits(after, mode, step, begun)
            ||| {
                &&& after == (end.finished(mode, step), ProgressModel::StepDone)
                &&& same_final(end, begun)
                &&& end.step_history == begun.step_history
                &&& under_way(end)
            }
        }),
    decreases answers.len(),
{
    if answers.len() == 0 {
        begun
    } else {
        let earlier = answers.drop_last();
        let end = lemma_after_answers(execution, earlier, mode, step, begun);
        let before = after_answers(execution, earlier);
        if waits(before, mode, step, begun) {
            lemma_answered(before, answers.last(), mode, step, begun)
        } else {
            end
        }
    }
}

/// Executing an active step leaves the final ledger and the final events alone from start to end,
/// whatever is answered. When it is done, the history is what was kept of it, followed by the
/// outcome of the step; until then it is what was kept.
pub proof fn lemma_active_step_grows_history(
    vm: VMModel,
    step: ExecutionStepModel,
    answers: Seq<Answer>,
)
    ensures
        ({
            let kept = vm.rewound(step.slot).step_history;
            let (after, progress) = after_answers(
                vm.rewound(step.slot).started(StepMode::Active, step),
                answers,
            );
            &&& same_final(after, vm)
            &&& if progress is StepDone {
                &&& after.step_history.len() == kept.len() + 1
                &&& after.step_history.drop_last() == kept
                &&& is_outcome_of(after.step_history.last(), step)
            } else {
                after.step_history == kept
            }
        }),
{
    let begun = vm.rewound(step.slot);
    let kept = begun.step_history;
    let start = begun.started(StepMode::Active, step);
    let end = lemma_after_answers(start, answers, StepMode::Active, step, begun);
    let (after, progress) = after_answers(start, answers);
    if progress is StepDone {
        assert(after.step_history == kept.push(end.outcome(step)));
        assert(after.step_history.drop_last() =~= kept);
    }
}

/// Executing a step as final leaves the final ledger and the final events alone until it is done,
/// whatever is answered. Then the final ledger is the one of the slot of the step. The history is
/// empty all along.
pub proof fn lemma_final_step_moves_final_slot(
    vm: VMModel,
    step: ExecutionStepModel,
    max_final_events: usize,
    answers: Seq<Answer>,
)
    requires
        !vm.has_cached(step),
    ensures
        ({
            let (after, progress) = after_answers(
                vm.after_final_step(step, max_final_events),
                answers,
            );
            &&& after.step_history == Seq::<HistoryItemModel>::empty()
            &&& if progress is StepDone {
                after.final_ledger_slot().slot == step.slot
            } else {
                same_final(after, vm)
            }
        }),
{
    let mode = StepMode::Final(max_final_events);
    let begun = VMModel { step_history: Seq::empty(), ..vm };
    let start = begun.started(mode, step);
    let end = lemma_after_answers(start, answers, mode, step, begun);
}

/// A read-only execution leaves the final ledger, the final events and the history alone from
/// start to end, whatever is answered.
pub proof fn lemma_read_only_leaves_no_trace(
    vm: VMModel,
    slot: Slot,
    max_gas: u64,
    simulated_gas_price: Amount,
    bytecode: Seq<u8>,
    address: Address,
    answers: Seq<Answer>,
)
    ensures
        ({
            let after = after_answers(
                vm.after_read_only(slot, max_gas, simulated_gas_price, bytecode, address),
                answers,
            ).0;
            &&& same_final(after, vm)
            &&& after.step_history == vm.step_history
            &&& active_ledger(after) == active_ledger(vm)
        }),
{
    let start = vm.after_read_only(slot, max_gas, simulated_gas_price, bytecode, address);
    lemma_read_only_answers(start, answers, vm);
}

/// Whether an execution that began on `begun` is a read-only one, with the final ledger, the
/// final events and the history as they were.
spec fn only_reads(execution: Execution, begun: VMModel) -> bool {
    let (vm, progress) = execution;
    &&& same_final(vm, begun)
    &&& vm.step_history == begun.step_history
    &&& match progress {
        ProgressModel::Digest { pending_seed, .. } => pending_seed is ReadOnly,
        ProgressModel::Run { pending_run, .. } => pending_run is ReadOnly,
        ProgressModel::StepDone => false,
        ProgressModel::ReadOnlyDone(_) => true,
    }
}

proof fn lemma_read_only_answers(execution: Execution, answers: Seq<Answer>, begun: VMModel)
    requires
        only_reads(execution, begun),
    ensures
        only_reads(after_answers(execution, answers), begun),
    decreases answers.len(),
{
    if answers.len() > 0 {
        let earlier = answers.drop_last();
        lemma_read_only_answers(execution, earlier, begun);
        if let Answer::Run { calls, .. } = answers.last() {
            lemma_calls_keep_frame(
                after_answers(execution, earlier).0.interface.context,
                calls,
            );
        }
    }
}

/// Whether `answer` is one to what the execution waits for.
pub open spec fn fits(progress: ProgressModel, answer: Answer) -> bool {
    match progress {
        ProgressModel::Digest { .. } => answer is Seed,
        ProgressModel::Run { .. } => answer is Run,
        _ => false,
    }
}

/// How many operations a step has.
pub open spec fn operation_count(step: ExecutionStepModel) -> nat {
    match step.block {
        Some(block) => block.operations.len(),
        None => 0,
    }
}

/// How many answers an execution may still ask for; none just where it is done.
pub open spec fn answers_left(progress: ProgressModel) -> nat {
    match progress {
        ProgressModel::Digest { pending_seed, .. } => match pending_seed {
            PendingSeedModel::Step { step, .. } => 1 + operation_count(step),
            PendingSeedModel::ReadOnly { .. } => 2,
        },
        ProgressModel::Run { pending_run, .. } => match pending_run {
            PendingRunModel::Operation { step, next, .. } => if next < operation_count(step) {
                (1 + operation_count(step) - next) as nat
            } else {
                1
            },
            PendingRunModel::ReadOnly { .. } => 1,
        },
        _ => 0,
    }
}

proof fn lemma_next_executable(operations: Seq<OperationModel>, from: nat)
    ensures
        next_executable(operations, from) <= operations.len(),
        from <= operations.len() ==> from <= next_executable(operations, from),
    decreases operations.len() - from,
{
    if from < operations.len() && !operations[from as int].executable() {
        lemma_next_executable(operations, from + 1);
    }
}

/// Every execution comes to its end: with each fitting answer there are fewer to come, and a step
/// asks for at most one digest and one run for each of its operations.
pub proof fn lemma_answers_run_out(execution: Execution, answer: Answer)
    requires
        fits(execution.1, answer),
    ensures
        answers_left(answered(execution, answer).1) < answers_left(execution.1),
{
    match execution.1 {
        ProgressModel::Digest { pending_seed: PendingSeedModel::Step { step, .. }, .. } => {
            if let Some(block) = step.block {
                lemma_next_executable(block.operations, 0);
            }
        },
        ProgressModel::Run { pending_run: PendingRunModel::Operation { step, next, .. }, .. } => {
            if let Some(block) = step.block {
                lemma_next_executable(block.operations, next);
            }
        },
        _ => {},
    }
}

} // verus!
