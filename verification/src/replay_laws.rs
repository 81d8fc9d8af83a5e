//! When executions give the same.
//!
//! What an execution does depends on the ledger that it sees and on the answers from outside. It
//! does not depend on how the ledger is split into a final one and changes, nor on what earlier
//! executions left behind in the context.

use crate::event_store::{pruned, with_events, EventFilter, EventModel};
use crate::interface_laws::{after_call, after_calls, lemma_calls_keep_frame, ContractCall};
use crate::ledger_step::LedgerStepModel;
use crate::models::{Address, Amount, Slot};
use crate::progress::{PendingRunModel, PendingSeedModel, ProgressModel, StepMode};
use crate::run_laws::{
    after_answers, answered, begun, lemma_done_stays, performed, same_final, Answer, Execution,
    Request,
};
use crate::sce_ledger::{applied, lemma_apply_composed, lemma_apply_empty};
use crate::types::{history_changes, ContextModel, ExecutionStepModel, HistoryItemModel};
use crate::vm_laws::{active_ledger, under_way};
use crate::vm_model::{next_executable, VMModel};
use vstd::prelude::*;

verus! {

/// Whether both steps see the same ledger below their own changes, and caused the same changes.
pub open spec fn same_sight(a: LedgerStepModel, b: LedgerStepModel) -> bool {
    &&& applied(a.final_ledger_slot.ledger, a.cumulative_history_changes) == applied(
        b.final_ledger_slot.ledger,
        b.cumulative_history_changes,
    )
    &&& a.caused_changes == b.caused_changes
}

/// Whether both contexts agree on all but the gas and the generator, which every run sets anew.
pub open spec fn same_but_gas_and_generator(a: ContextModel, b: ContextModel) -> bool {
    &&& same_sight(a.ledger_step, b.ledger_step)
    &&& a.slot == b.slot
    &&& a.opt_block_id == b.opt_block_id
    &&& a.opt_block_creator_addr == b.opt_block_creator_addr
    &&& a.operation_index == b.operation_index
    &&& a.stack == b.stack
    &&& a.created_addr_index == b.created_addr_index
    &&& a.created_event_index == b.created_event_index
    &&& a.events == b.events
    &&& a.read_only == b.read_only
    &&& a.origin_operation_id == b.origin_operation_id
}

/// Whether both contexts agree.
pub open spec fn same_context(a: ContextModel, b: ContextModel) -> bool {
    &&& same_but_gas_and_generator(a, b)
    &&& a.max_gas == b.max_gas
    &&& a.gas_price == b.gas_price
    &&& a.unsafe_rng == b.unsafe_rng
}

/// Runs on contexts that agree leave contexts that agree.
pub proof fn lemma_calls_keep_agreement(
    a: ContextModel,
    b: ContextModel,
    calls: Seq<ContractCall>,
)
    requires
        same_context(a, b),
    ensures
        same_context(after_calls(a, calls), after_calls(b, calls)),
    decreases calls.len(),
{
    if calls.len() > 0 {
        lemma_calls_keep_agreement(a, b, calls.drop_last());
        lemma_call_keeps_agreement(
            after_calls(a, calls.drop_last()),
            after_calls(b, calls.drop_last()),
            calls.last(),
        );
    }
}

proof fn lemma_call_keeps_agreement(a: ContextModel, b: ContextModel, call: ContractCall)
    requires
        same_context(a, b),
    ensures
        same_context(after_call(a, call), after_call(b, call)),
{
    assert(a.ledger_step.current() == b.ledger_step.current());
    match call {
        ContractCall::InitCall { to, coins } => {
            if a.stack.len() > 0 {
                lemma_transfer_keeps_agreement(
                    a.ledger_step,
                    b.ledger_step,
                    a.stack.last().address,
                    to,
                    coins,
                );
            }
        },
        ContractCall::TransferCoins { to, amount } => {
            if a.stack.len() > 0 {
                lemma_transfer_keeps_agreement(
                    a.ledger_step,
                    b.ledger_step,
                    a.stack.last().address,
                    to,
                    amount,
                );
            }
        },
        ContractCall::TransferCoinsFor { from, to, amount } => {
            lemma_transfer_keeps_agreement(a.ledger_step, b.ledger_step, from, to, amount);
        },
        _ => {},
    }
}

proof fn lemma_transfer_keeps_agreement(
    a: LedgerStepModel,
    b: LedgerStepModel,
    from: Address,
    to: Address,
    amount: Amount,
)
    requires
        same_sight(a, b),
    ensures
        same_sight(a.transferred(from, to, amount).0, b.transferred(from, to, amount).0),
        a.transferred(from, to, amount).1 == b.transferred(from, to, amount).1,
{
    assert(a.current() == b.current());
    let debited_a = a.debited(from, amount).0;
    let debited_b = b.debited(from, amount).0;
    assert(same_sight(debited_a, debited_b));
    assert(debited_a.current() == debited_b.current());
}

/// Whether two executions of `step`, maybe in different modes, wait for the same and agree on all
/// that the answer will act on.
spec fn paired(
    x: Execution,
    y: Execution,
    mode_x: StepMode,
    mode_y: StepMode,
    step: ExecutionStepModel,
) -> bool {
    &&& under_way(x.0)
    &&& under_way(y.0)
    &&& match (x.1, y.1) {
        (
            ProgressModel::Digest { data: data_x, pending_seed: pending_x },
            ProgressModel::Digest { data: data_y, pending_seed: pending_y },
        ) => {
            &&& data_x == data_y
            &&& pending_x == (PendingSeedModel::Step { mode: mode_x, step })
            &&& pending_y == (PendingSeedModel::Step { mode: mode_y, step })
            &&& same_but_gas_and_generator(x.0.interface.context, y.0.interface.context)
        },
        (
            ProgressModel::Run {
                bytecode: bytecode_x,
                max_gas: max_gas_x,
                pending_run: PendingRunModel::Operation {
                    mode: m_x,
                    step: step_x,
                    next: next_x,
                    backup: backup_x,
                },
            },
            ProgressModel::Run {
                bytecode: bytecode_y,
                max_gas: max_gas_y,
                pending_run: PendingRunModel::Operation {
                    mode: m_y,
                    step: step_y,
                    next: next_y,
                    backup: backup_y,
                },
            },
        ) => {
            &&& bytecode_x == bytecode_y
            &&& max_gas_x == max_gas_y
            &&& m_x == mode_x
            &&& m_y == mode_y
            &&& step_x == step
            &&& step_y == step
            &&& next_x == next_y
            &&& backup_x == backup_y
            &&& same_context(x.0.interface.context, y.0.interface.context)
        },
        _ => false,
    }
}

/// Whether both VMs are as they were at `x` and `y` but for their contexts, which agree on the
/// outcome of a step, and for what is final, which is as it was.
spec fn ended(x: VMModel, y: VMModel, end_x: VMModel, end_y: VMModel) -> bool {
    &&& same_final(end_x, x)
    &&& same_final(end_y, y)
    &&& end_x.step_history == x.step_history
    &&& end_y.step_history == y.step_history
    &&& under_way(end_x)
    &&& under_way(end_y)
    &&& same_but_gas_and_generator(end_x.interface.context, end_y.interface.context)
}

/// Going on with the operations of a step keeps two executions together.
proof fn lemma_paired_advanced(
    x: VMModel,
    y: VMModel,
    mode_x: StepMode,
    mode_y: StepMode,
    step: ExecutionStepModel,
    from: nat,
)
    requires
        under_way(x),
        under_way(y),
        same_but_gas_and_generator(x.interface.context, y.interface.context),
        x.interface.context.unsafe_rng == y.interface.context.unsafe_rng,
    ensures
        ({
            let after_x = x.advanced(mode_x, step, from);
            let after_y = y.advanced(mode_y, step, from);
            ||| {
                &&& paired(after_x, after_y, mode_x, mode_y, step)
                &&& same_final(after_x.0, x)
                &&& same_final(after_y.0, y)
                &&& after_x.0.step_history == x.step_history
                &&& after_y.0.step_history == y.step_history
            }
            ||| {
                &&& after_x == (x.finished(mode_x, step), ProgressModel::StepDone)
                &&& after_y == (y.finished(mode_y, step), ProgressModel::StepDone)
            }
        }),
{
    let a = x.interface.context.ledger_step;
    let b = y.interface.context.ledger_step;
    assert(a.current() == b.current());
    if let Some(block) = step.block {
        let at = next_executable(block.operations, from);
        if at < block.operations.len() {
            let data = block.operations[at as int].data->0;
            let credited_a = a.credited(data.sender_address, data.coins).0;
            let credited_b = b.credited(data.sender_address, data.coins).0;
            assert(same_sight(credited_a, credited_b));
            assert(credited_a.current() == credited_b.current());
        }
    }
}

/// Two executions of a step that wait together get on together by the same answer.
proof fn lemma_paired_answered(
    x: Execution,
    y: Execution,
    answer: Answer,
    mode_x: StepMode,
    mode_y: StepMode,
    step: ExecutionStepModel,
) -> (ends: (VMModel, VMModel))
    requires
        paired(x, y, mode_x, mode_y, step),
    ensures
        ({
            let after_x = answered(x, answer);
            let after_y = answered(y, answer);
            ||| {
                &&& paired(after_x, after_y, mode_x, mode_y, step)
                &&& same_final(after_x.0, x.0)
                &&& same_final(after_y.0, y.0)
                &&& after_x.0.step_history == x.0.step_history
                &&& after_y.0.step_history == y.0.step_history
            }
            ||| {
                &&& after_x == (ends.0.finished(mode_x, step), ProgressModel::StepDone)
                &&& after_y == (ends.1.finished(mode_y, step), ProgressModel::StepDone)
                &&& ended(x.0, y.0, ends.0, ends.1)
            }
        }),
{
    let context_x = x.0.interface.context;
    let context_y = y.0.interface.context;
    match (x.1, answer) {
        (ProgressModel::Digest { .. }, Answer::Seed(seed)) => {
            let end_x = x.0.with_context(context_x.seeded(seed));
            let end_y = y.0.with_context(context_y.seeded(seed));
            lemma_paired_advanced(end_x, end_y, mode_x, mode_y, step, 0);
            (end_x, end_y)
        },
        (
            ProgressModel::Run {
                pending_run: PendingRunModel::Operation { next, backup, .. },
                ..
            },
            Answer::Run { calls, success },
        ) => {
            lemma_calls_keep_agreement(context_x, context_y, calls);
            lemma_calls_keep_frame(context_x, calls);
            lemma_calls_keep_frame(context_y, calls);
            let ran_x = x.0.with_context(after_calls(context_x, calls));
            let ran_y = y.0.with_context(after_calls(context_y, calls));
            let end_x = if success {
                ran_x
            } else {
                ran_x.with_context(ran_x.interface.context.rolled_back(backup))
            };
            let end_y = if success {
                ran_y
            } else {
                ran_y.with_context(ran_y.interface.context.rolled_back(backup))
            };
            lemma_paired_advanced(end_x, end_y, mode_x, mode_y, step, next);
            (end_x, end_y)
        },
        _ => (x.0, y.0),
    }
}

/// The same for answers, one after the other.
proof fn lemma_paired_answers(
    x: Execution,
    y: Execution,
    answers: Seq<Answer>,
    mode_x: StepMode,
    mode_y: StepMode,
    step: ExecutionStepModel,
) -> (ends: (VMModel, VMModel))
    requires
        paired(x, y, mode_x, mode_y, step),
    ensures
        ({
            let after_x = after_answers(x, answers);
            let after_y = after_answers(y, answers);
            ||| {
                &&& paired(after_x, after_y, mode_x, mode_y, step)
                &&& same_final(after_x.0, x.0)
                &&& same_final(after_y.0, y.0)
                &&& after_x.0.step_history == x.0.step_history
                &&& after_y.0.step_history == y.0.step_history
            }
            ||| {
                &&& after_x == (ends.0.finished(mode_x, step), ProgressModel::StepDone)
                &&& after_y == (ends.1.finished(mode_y, step), ProgressModel::StepDone)
                &&& ended(x.0, y.0, ends.0, ends.1)
            }
        }),
    decreases answers.len(),
{
    if answers.len() == 0 {
        (x.0, y.0)
    } else {
        let earlier = answers.drop_last();
        let before_x = after_answers(x, earlier);
        let before_y = after_answers(y, earlier);
        let ends = lemma_paired_answers(x, y, earlier, mode_x, mode_y, step);
        if paired(before_x, before_y, mode_x, mode_y, step) {
            lemma_paired_answered(before_x, before_y, answers.last(), mode_x, mode_y, step)
        } else {
            ends
        }
    }
}

/// Whether two VMs give the same from now on: they have the same final ledger, history and final
/// events, and their contexts agree on what the next execution does not set anew.
pub open spec fn interchangeable(a: VMModel, b: VMModel) -> bool {
    &&& same_final(a, b)
    &&& a.step_history == b.step_history
    &&& a.interface.context.slot == b.interface.context.slot
    &&& a.interface.context.opt_block_id == b.interface.context.opt_block_id
    &&& a.interface.context.opt_block_creator_addr == b.interface.context.opt_block_creator_addr
    &&& a.interface.context.operation_index == b.interface.context.operation_index
    &&& a.interface.context.events == b.interface.context.events
}

proof fn lemma_steps_interchangeable(
    a: VMModel,
    b: VMModel,
    mode: StepMode,
    step: ExecutionStepModel,
    answers: Seq<Answer>,
)
    requires
        interchangeable(a, b),
    ensures
        ({
            let after_a = after_answers(a.started(mode, step), answers);
            let after_b = after_answers(b.started(mode, step), answers);
            after_a.1 == after_b.1 && interchangeable(after_a.0, after_b.0)
        }),
{
    let ends = lemma_paired_answers(
        a.started(mode, step),
        b.started(mode, step),
        answers,
        mode,
        mode,
        step,
    );
}

/// Whether two read-only executions wait for the same, or gave the same answer, and agree on all
/// that the next answer will act on.
spec fn paired_reads(x: Execution, y: Execution) -> bool {
    &&& x.1 == y.1
    &&& interchangeable(x.0, y.0)
    &&& match x.1 {
        ProgressModel::Digest { pending_seed, .. } => {
            &&& pending_seed is ReadOnly
            &&& same_but_gas_and_generator(x.0.interface.context, y.0.interface.context)
            &&& x.0.interface.context.max_gas == y.0.interface.context.max_gas
            &&& x.0.interface.context.gas_price == y.0.interface.context.gas_price
        },
        ProgressModel::Run { pending_run, .. } => {
            &&& pending_run is ReadOnly
            &&& same_context(x.0.interface.context, y.0.interface.context)
        },
        ProgressModel::StepDone => false,
        ProgressModel::ReadOnlyDone(_) => true,
    }
}

proof fn lemma_reads_interchangeable(x: Execution, y: Execution, answers: Seq<Answer>)
    requires
        paired_reads(x, y),
    ensures
        paired_reads(after_answers(x, answers), after_answers(y, answers)),
    decreases answers.len(),
{
    if answers.len() > 0 {
        let earlier = answers.drop_last();
        lemma_reads_interchangeable(x, y, earlier);
        let context_x = after_answers(x, earlier).0.interface.context;
        let context_y = after_answers(y, earlier).0.interface.context;
        if let (ProgressModel::Run { .. }, Answer::Run { calls, .. }) = (
            after_answers(x, earlier).1,
            answers.last(),
        ) {
            lemma_calls_keep_agreement(context_x, context_y, calls);
            lemma_calls_keep_frame(context_x, calls);
            lemma_calls_keep_frame(context_y, calls);
        }
    }
}

/// A request to interchangeable VMs asks for the same, gives the same answer, and leaves
/// interchangeable VMs.
pub proof fn lemma_request_interchangeable(
    a: VMModel,
    b: VMModel,
    request: Request,
    answers: Seq<Answer>,
)
    requires
        interchangeable(a, b),
    ensures
        performed(a, request, answers).1 == performed(b, request, answers).1,
        interchangeable(performed(a, request, answers).0, performed(b, request, answers).0),
{
    match request {
        Request::Active { step } => {
            lemma_steps_interchangeable(
                a.rewound(step.slot),
                b.rewound(step.slot),
                StepMode::Active,
                step,
                answers,
            );
        },
        Request::Final { step, max_final_events } => {
            if a.has_cached(step) {
                lemma_done_stays(begun(a, request), answers);
                lemma_done_stays(begun(b, request), answers);
            } else {
                lemma_steps_interchangeable(
                    VMModel { step_history: Seq::empty(), ..a },
                    VMModel { step_history: Seq::empty(), ..b },
                    StepMode::Final(max_final_events),
                    step,
                    answers,
                );
            }
        },
        Request::ReadOnly { .. } => {
            lemma_reads_interchangeable(begun(a, request), begun(b, request), answers);
        },
        Request::Reset => {
            lemma_done_stays(begun(a, request), answers);
            lemma_done_stays(begun(b, request), answers);
        },
    }
}

/// The VM after requests, each with its answers, one after the other.
pub open spec fn after_requests(vm: VMModel, requests: Seq<(Request, Seq<Answer>)>) -> VMModel
    decreases requests.len(),
{
    if requests.len() == 0 {
        vm
    } else {
        let (request, answers) = requests.last();
        performed(after_requests(vm, requests.drop_last()), request, answers).0
    }
}

/// How far each of the requests came, with the answers to read-only ones.
pub open spec fn results_of(
    vm: VMModel,
    requests: Seq<(Request, Seq<Answer>)>,
) -> Seq<ProgressModel>
    decreases requests.len(),
{
    if requests.len() == 0 {
        Seq::empty()
    } else {
        let (request, answers) = requests.last();
        let before = after_requests(vm, requests.drop_last());
        results_of(vm, requests.drop_last()).push(performed(before, request, answers).1)
    }
}

/// Requests to interchangeable VMs give the same results and leave interchangeable VMs.
pub proof fn lemma_requests_interchangeable(
    a: VMModel,
    b: VMModel,
    requests: Seq<(Request, Seq<Answer>)>,
)
    requires
        interchangeable(a, b),
    ensures
        results_of(a, requests) == results_of(b, requests),
        interchangeable(after_requests(a, requests), after_requests(b, requests)),
    decreases requests.len(),
{
    if requests.len() > 0 {
        let earlier = requests.drop_last();
        lemma_requests_interchangeable(a, b, earlier);
        lemma_request_interchangeable(
            after_requests(a, earlier),
            after_requests(b, earlier),
            requests.last().0,
            requests.last().1,
        );
    }
}

/// After a read-only execution every later request gives what it would have given without it, and
/// leaves the same final ledger, history and final events. So do queries for events. Before the
/// execution the context holds no events, as between any two executions.
pub proof fn lemma_read_only_is_not_noticed(
    vm: VMModel,
    slot: Slot,
    max_gas: u64,
    simulated_gas_price: Amount,
    bytecode: Seq<u8>,
    address: Address,
    answers: Seq<Answer>,
    requests: Seq<(Request, Seq<Answer>)>,
    filter: EventFilter,
)
    requires
        vm.interface.context.events.len() == 0,
        after_answers(
            vm.after_read_only(slot, max_gas, simulated_gas_price, bytecode, address),
            answers,
        ).1 is ReadOnlyDone,
    ensures
        ({
            let read = after_answers(
                vm.after_read_only(slot, max_gas, simulated_gas_price, bytecode, address),
                answers,
            ).0;
            let with = after_requests(read, requests);
            let without = after_requests(vm, requests);
            &&& results_of(read, requests) == results_of(vm, requests)
            &&& same_final(with, without)
            &&& with.step_history == without.step_history
            &&& with.filtered_events(filter) == without.filtered_events(filter)
        }),
{
    let start = vm.after_read_only(slot, max_gas, simulated_gas_price, bytecode, address);
    let read = after_answers(start, answers).0;
    lemma_read_keeps_rest(start, answers, vm);
    assert(read.interface.context.events =~= vm.interface.context.events);
    lemma_requests_interchangeable(read, vm, requests);
}

/// Whether a read-only execution that began on `vm` left alone what later executions build on.
spec fn keeps_rest(execution: Execution, vm: VMModel) -> bool {
    let context = execution.0.interface.context;
    &&& same_final(execution.0, vm)
    &&& execution.0.step_history == vm.step_history
    &&& context.slot == vm.interface.context.slot
    &&& context.opt_block_id == vm.interface.context.opt_block_id
    &&& context.opt_block_creator_addr == vm.interface.context.opt_block_creator_addr
    &&& context.operation_index == vm.interface.context.operation_index
    &&& match execution.1 {
        ProgressModel::Digest { pending_seed, .. } => pending_seed is ReadOnly,
        ProgressModel::Run { pending_run, .. } => pending_run is ReadOnly,
        ProgressModel::StepDone => false,
        ProgressModel::ReadOnlyDone(_) => context.events.len() == 0,
    }
}

proof fn lemma_read_keeps_rest(execution: Execution, answers: Seq<Answer>, vm: VMModel)
    requires
        keeps_rest(execution, vm),
    ensures
        keeps_rest(after_answers(execution, answers), vm),
    decreases answers.len(),
{
    if answers.len() > 0 {
        let earlier = answers.drop_last();
        lemma_read_keeps_rest(execution, earlier, vm);
        if let Answer::Run { calls, .. } = answers.last() {
            lemma_calls_keep_frame(after_answers(execution, earlier).0.interface.context, calls);
        }
    }
}

/// Steps with the answers to their executions.
pub type Steps = Seq<(ExecutionStepModel, Seq<Answer>)>;

/// The VM after steps were executed as active, one after the other.
pub open spec fn executed_ahead(vm: VMModel, steps: Steps) -> VMModel
    decreases steps.len(),
{
    if steps.len() == 0 {
        vm
    } else {
        let (step, answers) = steps.last();
        let before = executed_ahead(vm, steps.drop_last());
        performed(before, Request::Active { step }, answers).0
    }
}

/// The VM after steps were made final, one after the other. What the history has is not executed
/// again; else the step is executed.
pub open spec fn executed_as_final(vm: VMModel, steps: Steps, max_final_events: usize) -> VMModel
    decreases steps.len(),
{
    if steps.len() == 0 {
        vm
    } else {
        let (step, answers) = steps.last();
        let before = executed_as_final(vm, steps.drop_last(), max_final_events);
        performed(before, Request::Final { step, max_final_events }, answers).0
    }
}

/// Whether each of the steps joins the history after the earlier ones, without replacing any, and
/// is executed to its end.
pub open spec fn line_up(vm: VMModel, steps: Steps) -> bool
    decreases steps.len(),
{
    steps.len() > 0 ==> {
        let (step, answers) = steps.last();
        let before = executed_ahead(vm, steps.drop_last());
        &&& line_up(vm, steps.drop_last())
        &&& before.rewound(step.slot).step_history == before.step_history
        &&& performed(before, Request::Active { step }, answers).1 is StepDone
    }
}

/// What steps that were executed ahead and the same steps executed as final have in common: one
/// sees by its history what the other has as final.
spec fn level(ahead: VMModel, done: VMModel, count: nat) -> bool {
    &&& ahead.step_history.len() == count
    &&& done.step_history.len() == 0
    &&& active_ledger(ahead) == done.final_ledger_slot().ledger
    &&& ahead.interface.context.slot == done.interface.context.slot
    &&& ahead.interface.context.opt_block_id == done.interface.context.opt_block_id
    &&& ahead.interface.context.opt_block_creator_addr
        == done.interface.context.opt_block_creator_addr
    &&& ahead.interface.context.operation_index == done.interface.context.operation_index
    &&& ahead.interface.context.events.len() == 0
    &&& done.interface.context.events.len() == 0
}

/// One more step, executed ahead and executed as final.
proof fn lemma_level_step(
    ahead: VMModel,
    done: VMModel,
    count: nat,
    step: ExecutionStepModel,
    answers: Seq<Answer>,
    max_final_events: usize,
) -> (item: HistoryItemModel)
    requires
        level(ahead, done, count),
        ahead.rewound(step.slot).step_history == ahead.step_history,
        performed(ahead, Request::Active { step }, answers).1 is StepDone,
    ensures
        ({
            let after_ahead = performed(ahead, Request::Active { step }, answers).0;
            let after_done = performed(
                done,
                Request::Final { step, max_final_events },
                answers,
            ).0;
            &&& level(after_ahead, after_done, count + 1)
            &&& same_final(after_ahead, ahead)
            &&& after_ahead.step_history == ahead.step_history.push(item)
            &&& item.slot == step.slot
            &&& item.opt_block_id == step.block_id()
            &&& after_done.final_ledger_slot().ledger == applied(
                done.final_ledger_slot().ledger,
                item.ledger_changes,
            )
            &&& after_done.final_ledger_slot().slot == step.slot
            &&& after_done.final_events == pruned(
                with_events(done.final_events, item.events),
                max_final_events as nat,
            )
        }),
{
    let mode = StepMode::Final(max_final_events);
    let start_ahead = ahead.rewound(step.slot).started(StepMode::Active, step);
    let empty_done = VMModel { step_history: Seq::empty(), ..done };
    let start_done = empty_done.started(mode, step);
    lemma_apply_empty(done.final_ledger_slot().ledger);
    assert(ahead.interface.context.events =~= done.interface.context.events);
    assert(paired(start_ahead, start_done, StepMode::Active, mode, step));
    let ends = lemma_paired_answers(
        start_ahead,
        start_done,
        answers,
        StepMode::Active,
        mode,
        step,
    );
    let after_ahead = after_answers(start_ahead, answers).0;
    let after_done = after_answers(start_done, answers).0;
    let item = ends.0.outcome(step);
    assert(item == ends.1.outcome(step));
    assert(after_ahead.step_history.drop_last() =~= ahead.step_history);
    lemma_apply_composed(
        ahead.final_ledger_slot().ledger,
        history_changes(ahead.step_history),
        item.ledger_changes,
    );
    let none = Seq::<EventModel>::empty();
    assert(with_events(done.final_events, none) == done.final_events);
    item
}

/// Whether steps that were executed ahead have in the history what makes the VM `done` when it
/// becomes final.
spec fn foreseen(
    vm: VMModel,
    ahead: VMModel,
    steps: Steps,
    max_final_events: usize,
) -> bool {
    &&& level(ahead, executed_as_final(vm, steps, max_final_events), steps.len())
    &&& same_final(ahead, vm)
    &&& forall|k: int|
        #![trigger ahead.step_history[k]]
        0 <= k < steps.len() ==> {
            let item = ahead.step_history[k];
            let before = executed_as_final(vm, steps.take(k), max_final_events);
            let after = executed_as_final(vm, steps.take(k + 1), max_final_events);
            &&& item.slot == steps[k].0.slot
            &&& item.opt_block_id == steps[k].0.block_id()
            &&& after.final_ledger_slot().ledger == applied(
                before.final_ledger_slot().ledger,
                item.ledger_changes,
            )
            &&& after.final_ledger_slot().slot == steps[k].0.slot
            &&& after.final_events == pruned(
                with_events(before.final_events, item.events),
                max_final_events as nat,
            )
        }
}

proof fn lemma_foreseen(vm: VMModel, steps: Steps, max_final_events: usize)
    requires
        vm.step_history.len() == 0,
        vm.interface.context.events.len() == 0,
        line_up(vm, steps),
    ensures
        foreseen(vm, executed_ahead(vm, steps), steps, max_final_events),
    decreases steps.len(),
{
    if steps.len() == 0 {
        lemma_apply_empty(vm.final_ledger_slot().ledger);
        assert(vm.step_history =~= Seq::<HistoryItemModel>::empty());
    } else {
        let earlier = steps.drop_last();
        let (step, answers) = steps.last();
        let ahead = executed_ahead(vm, earlier);
        let done = executed_as_final(vm, earlier, max_final_events);
        let after = executed_ahead(vm, steps);
        lemma_foreseen(vm, earlier, max_final_events);
        let item = lemma_level_step(
            ahead,
            done,
            earlier.len(),
            step,
            answers,
            max_final_events,
        );
        assert forall|k: int| #![trigger after.step_history[k]] 0 <= k < steps.len() implies {
            let item = after.step_history[k];
            let before = executed_as_final(vm, steps.take(k), max_final_events);
            let next = executed_as_final(vm, steps.take(k + 1), max_final_events);
            &&& item.slot == steps[k].0.slot
            &&& item.opt_block_id == steps[k].0.block_id()
            &&& next.final_ledger_slot().ledger == applied(
                before.final_ledger_slot().ledger,
                item.ledger_changes,
            )
            &&& next.final_ledger_slot().slot == steps[k].0.slot
            &&& next.final_events == pruned(
                with_events(before.final_events, item.events),
                max_final_events as nat,
            )
        } by {
            if k < earlier.len() {
                assert(after.step_history[k] == ahead.step_history[k]);
                assert(steps.take(k) =~= earlier.take(k));
                assert(steps.take(k + 1) =~= earlier.take(k + 1));
            } else {
                assert(steps.take(k) =~= earlier);
                assert(steps.take(k + 1) =~= steps);
            }
        }
    }
}

/// Steps that were executed ahead and then become final one after the other give the same final
/// ledger, slot and final events as executing each of them as final. None of them is executed
/// again, so the answers given while they become final do not matter.
pub proof fn lemma_executing_ahead_makes_no_difference(
    vm: VMModel,
    steps: Steps,
    max_final_events: usize,
)
    requires
        vm.step_history.len() == 0,
        vm.interface.context.events.len() == 0,
        line_up(vm, steps),
    ensures
        ({
            let ahead = executed_as_final(executed_ahead(vm, steps), steps, max_final_events);
            let done = executed_as_final(vm, steps, max_final_events);
            &&& ahead.final_ledger_slot() == done.final_ledger_slot()
            &&& ahead.final_events == done.final_events
            &&& ahead.step_history == done.step_history
        }),
{
    let ahead = executed_ahead(vm, steps);
    lemma_foreseen(vm, steps, max_final_events);
    lemma_catching_up(vm, ahead, steps, max_final_events, steps.len());
    assert(steps.take(steps.len() as int) =~= steps);
    let caught_up = executed_as_final(ahead, steps, max_final_events);
    assert(caught_up.step_history =~= executed_as_final(vm, steps, max_final_events).step_history);
}

/// After `count` of the steps became final by what the history has of them, the final ledger is
/// that of as many executed as final.
proof fn lemma_catching_up(
    vm: VMModel,
    ahead: VMModel,
    steps: Steps,
    max_final_events: usize,
    count: nat,
)
    requires
        foreseen(vm, ahead, steps, max_final_events),
        count <= steps.len(),
    ensures
        ({
            let caught_up = executed_as_final(
                ahead,
                steps.take(count as int),
                max_final_events,
            );
            let done = executed_as_final(vm, steps.take(count as int), max_final_events);
            &&& caught_up.final_ledger_slot() == done.final_ledger_slot()
            &&& caught_up.final_events == done.final_events
            &&& caught_up.step_history == ahead.step_history.skip(count as int)
            &&& caught_up.interface.context.events.len() == 0
        }),
    decreases count,
{
    let upto = steps.take(count as int);
    if count == 0 {
        assert(ahead.step_history.skip(0) =~= ahead.step_history);
    } else {
        let k = count - 1;
        let earlier = steps.take(k);
        lemma_catching_up(vm, ahead, steps, max_final_events, (count - 1) as nat);
        assert(upto.drop_last() =~= earlier);
        let before = executed_as_final(ahead, earlier, max_final_events);
        let (step, answers) = steps[k];
        let request = Request::Final { step, max_final_events };
        let item = ahead.step_history[k];
        assert(before.step_history[0] == item);
        assert(before.has_cached(step));
        lemma_done_stays(begun(before, request), answers);
        assert(before.step_history.drop_first() =~= ahead.step_history.skip(count as int));
        let none = Seq::<EventModel>::empty();
        assert(before.interface.context.events =~= none);
        assert(with_events(before.final_events, none) == before.final_events);
        assert(steps.take(k + 1) =~= upto);
    }
}

} // verus!
