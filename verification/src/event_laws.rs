//! What stores of events keep and what queries return, said of the parts of events.

use crate::event_store::{
    has_event, lemma_oldest, oldest, pruned, with_event, with_events, EventFilter, EventModel,
};
use crate::models::{Address, OperationId, Slot};
use crate::query_laws::lemma_filtered_events;
use crate::timeslots::{latest_slot, MassaTime};
use crate::types::HistoryItemModel;
use crate::vm_model::VMModel;
use vstd::prelude::*;

verus! {

/// The place of a slot among all slots.
pub open spec fn place(slot: Slot) -> int {
    slot.period * 256 + slot.thread
}

/// An event passes a filter just where its slot lies in the range, the last address of its call
/// stack is the emitter asked for, the first one the original caller asked for, and its operation
/// the one asked for. An event without a call stack has neither emitter nor caller.
pub proof fn lemma_filter(filter: EventFilter, event: EventModel)
    ensures
        filter.admits(event) <==> {
            let calls = event.call_stack;
            &&& place(filter.start) <= place(event.slot) < place(filter.end)
            &&& filter.emitter_address is Some ==> calls.len() > 0 && Some(calls[calls.len() - 1])
                == filter.emitter_address
            &&& filter.original_caller_address is Some ==> calls.len() > 0 && Some(calls[0])
                == filter.original_caller_address
            &&& filter.original_operation_id is Some ==> event.origin_operation_id
                == filter.original_operation_id
        },
{
}

/// Events are selected in their order: one more event is selected last, if it passes.
pub proof fn lemma_select_in_order(
    filter: EventFilter,
    events: Seq<EventModel>,
    event: EventModel,
)
    ensures
        filter.select(Seq::empty()) == Seq::<EventModel>::empty(),
        filter.admits(event) ==> filter.select(events.push(event)) == filter.select(events).push(
            event,
        ),
        !filter.admits(event) ==> filter.select(events.push(event)) == filter.select(events),
{
    reveal(Seq::filter);
    assert(events.push(event).drop_last() =~= events);
}

/// A query goes through the history step by step, leaves out steps whose slot is not in the
/// range, and ends with the final events.
pub proof fn lemma_query_in_order(
    history: Seq<HistoryItemModel>,
    item: HistoryItemModel,
    filter: EventFilter,
    vm: VMModel,
)
    ensures
        VMModel::history_events(Seq::empty(), filter) == Seq::<EventModel>::empty(),
        place(filter.start) <= place(item.slot) < place(filter.end)
            ==> VMModel::history_events(history.push(item), filter) == VMModel::history_events(
            history,
            filter,
        ) + filter.select(item.events),
        !(place(filter.start) <= place(item.slot) < place(filter.end))
            ==> VMModel::history_events(history.push(item), filter) == VMModel::history_events(
            history,
            filter,
        ),
        vm.filtered_events(filter).take(
            VMModel::history_events(vm.step_history, filter).len() as int,
        ) == VMModel::history_events(vm.step_history, filter),
        vm.filtered_events(filter).skip(
            VMModel::history_events(vm.step_history, filter).len() as int,
        ) == filter.select(vm.final_events),
{
    assert(history.push(item).drop_last() =~= history);
    let found = VMModel::history_events(vm.step_history, filter);
    assert(vm.filtered_events(filter).take(found.len() as int) =~= found);
    assert(vm.filtered_events(filter).skip(found.len() as int) =~= filter.select(vm.final_events));
}

/// A query by original caller returns just the events whose call stack begins with that address,
/// however deep the call that generated them.
pub proof fn lemma_query_by_caller(
    vm: VMModel,
    start: Slot,
    end: Slot,
    caller: Address,
    event: EventModel,
)
    ensures
        ({
            let filter = EventFilter {
                start,
                end,
                emitter_address: None,
                original_caller_address: Some(caller),
                original_operation_id: None,
            };
            let kept = vm.final_events.contains(event) || exists|i: int|
                0 <= i < vm.step_history.len() && place(start) <= place(
                    (#[trigger] vm.step_history[i]).slot,
                ) < place(end) && vm.step_history[i].events.contains(event);
            vm.filtered_events(filter).contains(event) <==> {
                &&& kept
                &&& place(start) <= place(event.slot) < place(end)
                &&& event.call_stack.len() > 0
                &&& event.call_stack[0] == caller
            }
        }),
{
    let filter = EventFilter {
        start,
        end,
        emitter_address: None,
        original_caller_address: Some(caller),
        original_operation_id: None,
    };
    lemma_filtered_events(vm, filter, event);
    lemma_filter(filter, event);
}

/// A query by emitter returns just the events whose call stack ends with that address.
pub proof fn lemma_query_by_emitter(
    vm: VMModel,
    start: Slot,
    end: Slot,
    emitter: Address,
    event: EventModel,
)
    ensures
        ({
            let filter = EventFilter {
                start,
                end,
                emitter_address: Some(emitter),
                original_caller_address: None,
                original_operation_id: None,
            };
            let kept = vm.final_events.contains(event) || exists|i: int|
                0 <= i < vm.step_history.len() && place(start) <= place(
                    (#[trigger] vm.step_history[i]).slot,
                ) < place(end) && vm.step_history[i].events.contains(event);
            vm.filtered_events(filter).contains(event) <==> {
                &&& kept
                &&& place(start) <= place(event.slot) < place(end)
                &&& event.call_stack.len() > 0
                &&& event.call_stack[event.call_stack.len() - 1] == emitter
            }
        }),
{
    let filter = EventFilter {
        start,
        end,
        emitter_address: Some(emitter),
        original_caller_address: None,
        original_operation_id: None,
    };
    lemma_filtered_events(vm, filter, event);
    lemma_filter(filter, event);
}

/// A query by operation returns just the events of that operation.
pub proof fn lemma_query_by_operation(
    vm: VMModel,
    start: Slot,
    end: Slot,
    operation: OperationId,
    event: EventModel,
)
    ensures
        ({
            let filter = EventFilter {
                start,
                end,
                emitter_address: None,
                original_caller_address: None,
                original_operation_id: Some(operation),
            };
            let kept = vm.final_events.contains(event) || exists|i: int|
                0 <= i < vm.step_history.len() && place(start) <= place(
                    (#[trigger] vm.step_history[i]).slot,
                ) < place(end) && vm.step_history[i].events.contains(event);
            vm.filtered_events(filter).contains(event) <==> {
                &&& kept
                &&& place(start) <= place(event.slot) < place(end)
                &&& event.origin_operation_id == Some(operation)
            }
        }),
{
    let filter = EventFilter {
        start,
        end,
        emitter_address: None,
        original_caller_address: None,
        original_operation_id: Some(operation),
    };
    lemma_filtered_events(vm, filter, event);
    lemma_filter(filter, event);
}

/// Without an end, a query goes up to the latest slot now; to the very first one before genesis,
/// where the time of slots cannot be told, and where the clock gives no time.
pub proof fn lemma_default_end(vm: VMModel, now: MassaTime)
    ensures
        vm.default_end(None).period == 0 && vm.default_end(None).thread == 0,
        latest_slot(vm.thread_count, vm.t0, vm.genesis_timestamp, now) matches Ok(Some(slot))
            ==> vm.default_end(Some(now)) == slot,
        !(latest_slot(vm.thread_count, vm.t0, vm.genesis_timestamp, now) matches Ok(Some(_)))
            ==> vm.default_end(Some(now)).period == 0 && vm.default_end(Some(now)).thread == 0,
        now.millis < vm.genesis_timestamp.millis ==> place(vm.default_end(Some(now))) == 0,
{
}

/// A store takes a new event last, and one whose identifier it already has not at all.
pub proof fn lemma_with_event(events: Seq<EventModel>, event: EventModel)
    ensures
        (forall|i: int| 0 <= i < events.len() ==> (#[trigger] events[i]).id != event.id)
            ==> with_event(events, event) == events.push(event),
        (exists|i: int| 0 <= i < events.len() && (#[trigger] events[i]).id == event.id)
            ==> with_event(events, event) == events,
{
}

/// Adding events keeps those that were there in their places. Where no identifier meets another
/// the new ones follow, all of them and in order.
pub proof fn lemma_with_events(events: Seq<EventModel>, more: Seq<EventModel>)
    ensures
        with_events(events, more).len() >= events.len(),
        with_events(events, more).take(events.len() as int) == events,
        (forall|i: int, j: int|
            0 <= i < (events + more).len() && 0 <= j < (events + more).len() && i != j ==> (
            #[trigger] (events + more)[i]).id != (#[trigger] (events + more)[j]).id)
            ==> with_events(events, more) == events + more,
        forall|i: int|
            0 <= i < more.len() ==> exists|j: int|
                0 <= j < with_events(events, more).len() && (#[trigger] with_events(
                    events,
                    more,
                )[j]).id == (#[trigger] more[i]).id,
    decreases more.len(),
{
    let all = with_events(events, more);
    if more.len() == 0 {
        assert(events.take(events.len() as int) =~= events);
        assert(events + more =~= events);
    } else {
        let rest = more.drop_last();
        let before = with_events(events, rest);
        let last = more.last();
        lemma_with_events(events, rest);
        assert(all.take(events.len() as int) =~= events) by {
            assert(all.take(events.len() as int) =~= before.take(events.len() as int));
        }
        assert forall|i: int| 0 <= i < more.len() implies exists|j: int|
            0 <= j < all.len() && (#[trigger] all[j]).id == (#[trigger] more[i]).id by {
            if i < rest.len() {
                assert(rest[i] == more[i]);
                let j = choose|j: int|
                    0 <= j < before.len() && (#[trigger] before[j]).id == rest[i].id;
                assert(all[j] == before[j]);
            } else if has_event(before, last.id) {
                let j = choose|j: int|
                    0 <= j < before.len() && (#[trigger] before[j]).id == last.id;
                assert(all[j] == before[j]);
            } else {
                assert(all[all.len() - 1] == last);
            }
        }
        if forall|i: int, j: int|
            0 <= i < (events + more).len() && 0 <= j < (events + more).len() && i != j ==> (
            #[trigger] (events + more)[i]).id != (#[trigger] (events + more)[j]).id {
            let whole = events + more;
            assert forall|i: int, j: int|
                0 <= i < (events + rest).len() && 0 <= j < (events + rest).len() && i
                    != j implies (#[trigger] (events + rest)[i]).id != (
            #[trigger] (events + rest)[j]).id by {
                assert(whole[i] == (events + rest)[i] && whole[j] == (events + rest)[j]);
            }
            assert(before == events + rest);
            assert forall|i: int| 0 <= i < before.len() implies (#[trigger] before[i]).id
                != last.id by {
                assert(whole[i] == before[i]);
                assert(whole[whole.len() - 1] == last);
            }
            assert(all =~= whole);
        }
    }
}

/// The oldest event is the first of those of the earliest slot.
pub proof fn lemma_oldest_is_first(events: Seq<EventModel>, i: int)
    requires
        0 <= i < events.len(),
    ensures
        0 <= oldest(events) < events.len(),
        place(events[oldest(events)].slot) <= place(events[i].slot),
        i < oldest(events) ==> place(events[oldest(events)].slot) < place(events[i].slot),
    decreases events.len(),
{
    lemma_oldest(events);
    if events.len() > 1 {
        let rest = events.drop_last();
        lemma_oldest(rest);
        if i < rest.len() {
            lemma_oldest_is_first(rest, i);
        }
        assert(rest[oldest(rest)] == events[oldest(rest)]);
        if i < rest.len() {
            assert(rest[i] == events[i]);
        }
    }
}

/// Pruning takes out, as long as there are too many, the first of the events of the earliest
/// slot, and leaves the others in their order.
pub proof fn lemma_pruned_one_by_one(events: Seq<EventModel>, max: nat, at: int)
    requires
        0 <= at < events.len(),
        forall|i: int|
            0 <= i < events.len() ==> place(events[at].slot) <= place((#[trigger] events[i]).slot),
        forall|i: int| 0 <= i < at ==> place(events[at].slot) < place((#[trigger] events[i]).slot),
    ensures
        events.len() > max ==> pruned(events, max) == pruned(events.remove(at), max),
        events.len() <= max ==> pruned(events, max) == events,
{
    lemma_oldest_is_first(events, at);
    assert(at == oldest(events)) by {
        if oldest(events) < at {
            assert(place(events[at].slot) < place(events[oldest(events)].slot));
        }
    }
}

} // verus!
