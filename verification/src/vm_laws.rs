//! What holds of executions of steps as a whole.

use crate::event_store::{pruned, with_events, EventModel};
use crate::interface_laws::{
    after_calls, calls_own_themselves, lemma_calls_keep_frame, ContractCall,
};
use crate::ledger_step::lemma_with_balance;
use crate::models::{
    lemma_slot_key_injective, lemma_slot_key_len, Address, Amount, BlockId, OperationId, Slot,
};
use crate::progress::{PendingRunModel, PendingSeedModel, ProgressModel, StepMode};
use crate::sce_ledger::{
    applied, composed, lemma_apply_composed, lemma_apply_empty, lemma_composed_associative,
    lemma_composed_empty, LedgerModel,
};
use crate::timeslots::{slot_distance, spec_slot_count, TimeOverflowError};
use crate::types::{
    fresh_call, history_changes, ContextModel, DataModel, ExecutionStepModel, HistoryItemModel,
};
use crate::vm_model::{read_only_seed_bytes, step_seed_bytes, VMModel};
use vstd::prelude::*;

verus! {

/// The ledger that the next step sees: the final one after the changes of the history.
pub open spec fn active_ledger(vm: VMModel) -> LedgerModel {
    applied(vm.final_ledger_slot().ledger, history_changes(vm.step_history))
}

/// The changes of a history are those of its first item, followed by those of the rest.
pub proof fn lemma_history_changes_front(history: Seq<HistoryItemModel>)
    requires
        history.len() > 0,
    ensures
        history_changes(history) == composed(
            history[0].ledger_changes,
            history_changes(history.drop_first()),
        ),
    decreases history.len(),
{
    let first = history[0].ledger_changes;
    let tail = history.drop_first();
    if history.len() == 1 {
        assert(history.drop_last() =~= Seq::empty());
        assert(tail =~= Seq::empty());
        lemma_composed_empty(first);
    } else {
        let init = history.drop_last();
        lemma_history_changes_front(init);
        assert(init.drop_first() =~= tail.drop_last());
        assert(tail.last() == history.last());
        lemma_composed_associative(
            first,
            history_changes(tail.drop_last()),
            history.last().ledger_changes,
        );
    }
}

/// Making the earliest step of the history final by what the history has of it moves its changes
/// to the final ledger, and leaves the ledger that the next step sees as it was.
pub proof fn lemma_finalize_cached(vm: VMModel, step: ExecutionStepModel, max_final_events: usize)
    requires
        vm.has_cached(step),
    ensures
        vm.after_final_step(step, max_final_events).1 == ProgressModel::StepDone,
        vm.after_final_step(step, max_final_events).0.final_ledger_slot().slot == step.slot,
        vm.after_final_step(step, max_final_events).0.final_ledger_slot().ledger == applied(
            vm.final_ledger_slot().ledger,
            vm.step_history[0].ledger_changes,
        ),
        active_ledger(vm.after_final_step(step, max_final_events).0) == active_ledger(vm),
{
    let after = vm.after_final_step(step, max_final_events).0;
    lemma_history_changes_front(vm.step_history);
    assert(after.step_history =~= vm.step_history.drop_first());
    lemma_apply_composed(
        vm.final_ledger_slot().ledger,
        vm.step_history[0].ledger_changes,
        history_changes(vm.step_history.drop_first()),
    );
}

/// A step starts on the ledger that the final ledger and the history give.
pub proof fn lemma_started_sees_active_ledger(vm: VMModel, mode: StepMode, step: ExecutionStepModel)
    ensures
        vm.started(mode, step).0.interface.context.ledger_step.current() == active_ledger(vm),
        active_ledger(vm.started(mode, step).0) == active_ledger(vm),
{
    lemma_apply_empty(active_ledger(vm));
}

/// Whether a step is under way: it builds on the changes of the history.
pub open spec fn under_way(vm: VMModel) -> bool {
    vm.interface.context.ledger_step.cumulative_history_changes == history_changes(vm.step_history)
}

/// The next step after an active one sees the ledger as that one left it.
pub proof fn lemma_active_step_is_seen(vm: VMModel, step: ExecutionStepModel)
    requires
        under_way(vm),
    ensures
        active_ledger(vm.finished(StepMode::Active, step))
            == vm.interface.context.ledger_step.current(),
        vm.finished(StepMode::Active, step).final_ledger_slot() == vm.final_ledger_slot(),
{
    let after = vm.finished(StepMode::Active, step);
    assert(after.step_history.drop_last() =~= vm.step_history);
    lemma_apply_composed(
        vm.final_ledger_slot().ledger,
        history_changes(vm.step_history),
        vm.outcome(step).ledger_changes,
    );
}

/// A step that is executed as final leaves as final ledger the one that it saw at its end.
pub proof fn lemma_final_step_is_applied(
    vm: VMModel,
    step: ExecutionStepModel,
    max_final_events: usize,
)
    requires
        under_way(vm),
        vm.step_history.len() == 0,
    ensures
        vm.finished(StepMode::Final(max_final_events), step).final_ledger_slot().ledger
            == vm.interface.context.ledger_step.current(),
        vm.finished(StepMode::Final(max_final_events), step).final_ledger_slot().slot == step.slot,
        vm.finished(StepMode::Final(max_final_events), step).step_history == vm.step_history,
{
    lemma_apply_empty(vm.final_ledger_slot().ledger);
}

/// Executing the next step as active and making it final by what the history has of it leaves the
/// VM just as executing the step as final does.
pub proof fn lemma_cached_is_as_executed(
    vm: VMModel,
    step: ExecutionStepModel,
    max_final_events: usize,
)
    requires
        vm.step_history.len() == 0,
    ensures
        vm.finished(StepMode::Active, step).has_cached(step),
        vm.finished(StepMode::Active, step).after_final_step(step, max_final_events).0
            == vm.finished(StepMode::Final(max_final_events), step),
{
    let active = vm.finished(StepMode::Active, step);
    assert(active.step_history[0] == vm.outcome(step));
    assert(active.step_history.drop_first() =~= vm.step_history);
    assert(active.after_final_step(step, max_final_events).0 =~= vm.finished(
        StepMode::Final(max_final_events),
        step,
    ));
}

/// The events of a step join the final ones when it becomes final: those of a step that is
/// executed as final, and those that the history has of a cached one.
pub proof fn lemma_final_events_join(vm: VMModel, step: ExecutionStepModel, max_final_events: usize)
    ensures
        vm.finished(StepMode::Final(max_final_events), step).final_events == pruned(
            with_events(vm.final_events, vm.outcome(step).events),
            max_final_events as nat,
        ),
        vm.has_cached(step) && vm.interface.context.events.len() == 0 ==> vm.after_final_step(
            step,
            max_final_events,
        ).0.final_events == pruned(
            with_events(vm.final_events, vm.step_history[0].events),
            max_final_events as nat,
        ),
{
}

/// A step is under way from its start on, whatever its contracts ask for and whichever of its
/// operations fail, until it is done.
pub proof fn lemma_under_way(
    vm: VMModel,
    mode: StepMode,
    step: ExecutionStepModel,
    seed: Seq<u8>,
    calls: Seq<ContractCall>,
    pending: PendingRunModel,
    success: bool,
)
    ensures
        under_way(vm.started(mode, step).0),
        under_way(vm) && vm.after_seed(PendingSeedModel::Step { mode, step }, seed).1 is Run
            ==> under_way(vm.after_seed(PendingSeedModel::Step { mode, step }, seed).0),
        under_way(vm) ==> under_way(
            vm.with_context(after_calls(vm.interface.context, calls)),
        ),
        under_way(vm) && vm.after_run(pending, success).1 is Run ==> under_way(
            vm.after_run(pending, success).0,
        ),
{
    lemma_calls_keep_frame(vm.interface.context, calls);
}

/// A failed operation leaves no trace but the credits of its sender and of the creator of its
/// block: the ledger, the events, the counters and the generator are as they were before its
/// bytecode ran, whatever its contracts had asked for.
pub proof fn lemma_failed_run_is_undone(prepared: ContextModel, calls: Seq<ContractCall>)
    ensures
        after_calls(prepared, calls).rolled_back(prepared.backup()) == (ContextModel {
            stack: after_calls(prepared, calls).stack,
            origin_operation_id: None,
            ..prepared
        }),
{
    lemma_calls_keep_frame(prepared, calls);
    let undone = after_calls(prepared, calls).rolled_back(prepared.backup());
    assert(undone.ledger_step =~= prepared.ledger_step);
}

/// Without its history the VM is back at the final ledger.
pub proof fn lemma_reset_is_final(vm: VMModel)
    ensures
        active_ledger((VMModel { step_history: Seq::empty(), ..vm }))
            == vm.final_ledger_slot().ledger,
{
    lemma_apply_empty(vm.final_ledger_slot().ledger);
}

/// Bytecode starts in a call that owns just its own address.
pub proof fn lemma_first_call_owns_itself(
    vm: VMModel,
    data: DataModel,
    creator: Address,
    block_id: BlockId,
    slot: Slot,
    operation: Option<OperationId>,
    operation_index: u64,
    max_gas: u64,
    simulated_gas_price: Amount,
    bytecode: Seq<u8>,
    address: Address,
)
    ensures
        calls_own_themselves(
            vm.interface.context.prepared(
                data,
                creator,
                block_id,
                slot,
                operation,
                operation_index,
            ).stack,
        ),
        calls_own_themselves(
            vm.after_read_only(
                slot,
                max_gas,
                simulated_gas_price,
                bytecode,
                address,
            ).0.interface.context.stack,
        ),
{
    assert(fresh_call(data.sender_address, data.coins).owned_addresses[0] == data.sender_address);
    assert(fresh_call(address, Amount { raw: 0 }).owned_addresses[0] == address);
}

/// An execution that is done leaves no events in the context.
pub proof fn lemma_done_leaves_no_events(
    vm: VMModel,
    mode: StepMode,
    step: ExecutionStepModel,
    slot: Slot,
    success: bool,
)
    ensures
        vm.finished(mode, step).interface.context.events == Seq::<EventModel>::empty(),
        vm.after_run(
            PendingRunModel::ReadOnly { slot },
            success,
        ).0.interface.context.events == Seq::<EventModel>::empty(),
{
}

/// Before the bytecode of an operation runs, its sender has the coins sent along and the creator
/// of the block the price of the gas, as far as they fit. Nobody else is concerned.
pub proof fn lemma_prepared_credits(
    context: ContextModel,
    data: DataModel,
    creator: Address,
    block_id: BlockId,
    slot: Slot,
    operation: Option<OperationId>,
    operation_index: u64,
)
    ensures
        ({
            let fee = data.gas_price.spec_saturating_mul(data.max_gas);
            let before = context.ledger_step;
            let after = context.prepared(
                data,
                creator,
                block_id,
                slot,
                operation,
                operation_index,
            ).ledger_step;
            let sender = data.sender_address;
            let coins = if before.balance(sender).raw + data.coins.raw <= u64::MAX {
                data.coins.raw
            } else {
                0
            };
            let held = if sender == creator {
                before.balance(creator).raw + coins
            } else {
                before.balance(creator).raw as int
            };
            let paid = if held + fee <= u64::MAX {
                fee
            } else {
                0
            };
            &&& after.balance(creator).raw == held + paid
            &&& sender != creator ==> after.balance(sender).raw == before.balance(sender).raw
                + coins
            &&& forall|a: Address|
                a != sender && a != creator ==> #[trigger] after.balance(a) == before.balance(a)
            &&& after.same_but_balances(before)
        }),
{
    let before = context.ledger_step;
    let sender = data.sender_address;
    let fee = data.gas_price.spec_saturating_mul(data.max_gas);
    let middle = before.credited(sender, data.coins).0;
    if before.balance(sender).raw + data.coins.raw <= u64::MAX {
        lemma_with_balance(
            before,
            sender,
            Amount { raw: (before.balance(sender).raw + data.coins.raw) as u64 },
        );
    }
    if middle.balance(creator).raw + fee <= u64::MAX {
        lemma_with_balance(
            middle,
            creator,
            Amount { raw: (middle.balance(creator).raw + fee) as u64 },
        );
    }
}

/// The seeds of steps differ for different slots and for different blocks, and from those of
/// read-only executions.
pub proof fn lemma_seed_bytes_injective(
    slot_a: Slot,
    block_a: Option<BlockId>,
    slot_b: Slot,
    block_b: Option<BlockId>,
)
    ensures
        step_seed_bytes(slot_a, block_a) == step_seed_bytes(slot_b, block_b) ==> slot_a == slot_b
            && block_a == block_b,
        read_only_seed_bytes(slot_a) == read_only_seed_bytes(slot_b) ==> slot_a == slot_b,
        step_seed_bytes(slot_a, block_a) != read_only_seed_bytes(slot_b),
{
    lemma_slot_key_len(slot_a);
    lemma_slot_key_len(slot_b);
    let step_a = step_seed_bytes(slot_a, block_a);
    let step_b = step_seed_bytes(slot_b, block_b);
    let read_only_a = read_only_seed_bytes(slot_a);
    let read_only_b = read_only_seed_bytes(slot_b);
    assert(step_a.take(9) =~= slot_a.spec_bytes_key());
    assert(step_b.take(9) =~= slot_b.spec_bytes_key());
    assert(read_only_a.take(9) =~= slot_a.spec_bytes_key());
    assert(read_only_b.take(9) =~= slot_b.spec_bytes_key());
    assert(step_a[9] == 1u8 && read_only_b[9] == 0u8);
    if step_a == step_b {
        lemma_slot_key_injective(slot_a, slot_b);
        if let (Some(id_a), Some(id_b)) = (block_a, block_b) {
            assert(step_a.skip(10) =~= id_a.0.bytes@);
            assert(step_b.skip(10) =~= id_b.0.bytes@);
            assert(id_a.0.bytes =~= id_b.0.bytes);
        } else {
            if let Some(id_a) = block_a {
                assert(id_a.0.bytes@.len() == 32);
            }
            if let Some(id_b) = block_b {
                assert(id_b.0.bytes@.len() == 32);
            }
        }
    }
    if read_only_a == read_only_b {
        lemma_slot_key_injective(slot_a, slot_b);
    }
}

/// Whether a history has one item for each slot from its first one on.
pub open spec fn contiguous(history: Seq<HistoryItemModel>, thread_count: u8) -> bool {
    forall|i: int|
        0 <= i < history.len() ==> {
            &&& (#[trigger] history[i]).slot.thread < thread_count
            &&& slot_distance(history[0].slot, history[i].slot, thread_count) == i
        }
}

/// Distances add up, and are positive just where the second slot comes later.
proof fn lemma_slot_distance(a: Slot, b: Slot, c: Slot, thread_count: u8)
    requires
        b.thread < thread_count,
        c.thread < thread_count,
    ensures
        slot_distance(a, b, thread_count) + slot_distance(b, c, thread_count) == slot_distance(
            a,
            c,
            thread_count,
        ),
        b.spec_before(c) <==> slot_distance(b, c, thread_count) > 0,
{
    let n = thread_count as int;
    assert((b.period - a.period) * n + (c.period - b.period) * n == (c.period - a.period) * n)
        by (nonlinear_arith);
    let d = c.period - b.period;
    if d > 0 {
        assert(d * n >= n) by (nonlinear_arith)
            requires
                d > 0,
                n > 0,
        ;
    } else if d < 0 {
        assert(d * n <= -n) by (nonlinear_arith)
            requires
                d < 0,
                n > 0,
        ;
    } else {
        assert(d * n == 0) by (nonlinear_arith)
            requires
                d == 0,
        ;
    }
}

/// Before an active step is executed, a history with one item per slot is cut back to just the
/// steps before the slot, and with the step it has one item per slot again. The slot may be any
/// from the first of the history to the one after its last.
pub proof fn lemma_rewind_keeps_earlier_steps(vm: VMModel, slot: Slot, item: HistoryItemModel)
    requires
        vm.step_history.len() > 0,
        vm.step_history.len() <= usize::MAX,
        contiguous(vm.step_history, vm.thread_count),
        slot.thread < vm.thread_count,
        0 <= slot_distance(vm.step_history[0].slot, slot, vm.thread_count)
            <= vm.step_history.len(),
        slot_distance(vm.step_history[0].slot, slot, vm.thread_count) < vm.step_history.len()
            ==> slot_distance(vm.step_history[0].slot, slot, vm.thread_count)
            + vm.step_history[0].slot.thread <= u64::MAX,
        item.slot == slot,
    ensures
        ({
            let kept = slot_distance(vm.step_history[0].slot, slot, vm.thread_count);
            &&& vm.rewound(slot).step_history == vm.step_history.take(kept)
            &&& forall|i: int|
                0 <= i < vm.step_history.len() ==> (i < kept
                    <==> (#[trigger] vm.step_history[i]).slot.spec_before(slot))
            &&& contiguous(vm.rewound(slot).step_history.push(item), vm.thread_count)
        }),
{
    let history = vm.step_history;
    let count = vm.thread_count;
    let front = history[0].slot;
    let kept = slot_distance(front, slot, count);
    assert(history[0].slot.thread < count);
    lemma_slot_distance(front, front, slot, count);
    lemma_slot_distance(front, slot, front, count);
    assert(kept + front.thread <= u64::MAX ==> spec_slot_count(front, slot, count) == Ok::<
        u64,
        TimeOverflowError,
    >(kept as u64));
    assert(vm.rewound(slot).step_history =~= history.take(kept));
    assert forall|i: int| 0 <= i < history.len() implies (i < kept <==> (
    #[trigger] history[i]).slot.spec_before(slot)) by {
        lemma_slot_distance(front, history[i].slot, slot, count);
    }
    let after = history.take(kept).push(item);
    assert forall|i: int| 0 <= i < after.len() implies {
        &&& (#[trigger] after[i]).slot.thread < count
        &&& slot_distance(after[0].slot, after[i].slot, count) == i
    } by {
        if i < kept {
            assert(after[i] == history[i]);
            assert(after[0] == history[0]);
        } else {
            if kept > 0 {
                assert(after[0] == history[0]);
            } else {
                assert(after[0] == item);
            }
        }
    }
}

} // verus!
