//! What holds of queries for events.

use crate::event_store::{EventFilter, EventModel};
use crate::models::{Address, OperationId, Slot};
use crate::types::HistoryItemModel;
use crate::vm_model::VMModel;
use vstd::prelude::*;
use vstd::seq_lib::lemma_multiset_commutative;

verus! {

/// Whether `event` is an event that the VM can return: a final one, or one of a step of the
/// history in the range of slots.
pub open spec fn stores_event(vm: VMModel, filter: EventFilter, event: EventModel) -> bool {
    ||| vm.final_events.contains(event)
    ||| exists|i: int|
        0 <= i < vm.step_history.len() && (#[trigger] vm.step_history[i]).slot.spec_within(
            filter.start,
            filter.end,
        ) && vm.step_history[i].events.contains(event)
}

proof fn lemma_select(filter: EventFilter, events: Seq<EventModel>, event: EventModel)
    ensures
        filter.select(events).contains(event) <==> events.contains(event) && filter.admits(event),
{
    let admits = |e: EventModel| filter.admits(e);
    if events.contains(event) && filter.admits(event) {
        let i = choose|i: int| 0 <= i < events.len() && events[i] == event;
        events.lemma_filter_contains(admits, i);
    }
    if filter.select(events).contains(event) {
        events.lemma_filter_contains_rev(admits, event);
        let i = choose|i: int|
            0 <= i < filter.select(events).len() && filter.select(events)[i] == event;
        events.lemma_filter_pred(admits, i);
    }
}

proof fn lemma_contains_concat(a: Seq<EventModel>, b: Seq<EventModel>, event: EventModel)
    ensures
        (a + b).contains(event) <==> a.contains(event) || b.contains(event),
{
    if a.contains(event) {
        let i = choose|i: int| 0 <= i < a.len() && a[i] == event;
        assert((a + b)[i] == event);
    }
    if b.contains(event) {
        let i = choose|i: int| 0 <= i < b.len() && b[i] == event;
        assert((a + b)[a.len() + i] == event);
    }
    if (a + b).contains(event) {
        let i = choose|i: int| 0 <= i < (a + b).len() && (a + b)[i] == event;
        if i < a.len() {
            assert(a[i] == event);
        } else {
            assert(b[i - a.len()] == event);
        }
    }
}

proof fn lemma_history_events(
    history: Seq<HistoryItemModel>,
    filter: EventFilter,
    event: EventModel,
)
    ensures
        VMModel::history_events(history, filter).contains(event) <==> filter.admits(event) && (
        exists|i: int|
            0 <= i < history.len() && (#[trigger] history[i]).slot.spec_within(
                filter.start,
                filter.end,
            ) && history[i].events.contains(event)),
    decreases history.len(),
{
    if history.len() > 0 {
        let init = history.drop_last();
        let last = history.last();
        lemma_history_events(init, filter, event);
        lemma_select(filter, last.events, event);
        lemma_contains_concat(
            VMModel::history_events(init, filter),
            filter.select(last.events),
            event,
        );
        if exists|i: int|
            0 <= i < init.len() && (#[trigger] init[i]).slot.spec_within(filter.start, filter.end)
                && init[i].events.contains(event) {
            let i = choose|i: int|
                0 <= i < init.len() && (#[trigger] init[i]).slot.spec_within(
                    filter.start,
                    filter.end,
                ) && init[i].events.contains(event);
            assert(history[i] == init[i]);
        }
        if exists|i: int|
            0 <= i < history.len() && (#[trigger] history[i]).slot.spec_within(
                filter.start,
                filter.end,
            ) && history[i].events.contains(event) {
            let i = choose|i: int|
                0 <= i < history.len() && (#[trigger] history[i]).slot.spec_within(
                    filter.start,
                    filter.end,
                ) && history[i].events.contains(event);
            if i < init.len() {
                assert(init[i] == history[i]);
            } else {
                assert(history[i] == last);
            }
        } else {
            assert(!(last.slot.spec_within(filter.start, filter.end) && last.events.contains(
                event,
            ))) by {
                assert(history[history.len() - 1] == last);
            }
        }
    }
}

/// The events returned are just the stored ones that pass the filter.
pub proof fn lemma_filtered_events(vm: VMModel, filter: EventFilter, event: EventModel)
    ensures
        vm.filtered_events(filter).contains(event) <==> stores_event(vm, filter, event)
            && filter.admits(event),
{
    lemma_history_events(vm.step_history, filter, event);
    lemma_select(filter, vm.final_events, event);
    lemma_contains_concat(
        VMModel::history_events(vm.step_history, filter),
        filter.select(vm.final_events),
        event,
    );
}


/// Whether each event of the history is of the slot of its step.
pub open spec fn events_have_slots(history: Seq<HistoryItemModel>) -> bool {
    forall|i: int, j: int|
        0 <= i < history.len() && 0 <= j < history[i].events.len() ==> (
        #[trigger] history[i].events[j]).slot == history[i].slot
}

/// The filter with another range of slots.
pub open spec fn with_range(filter: EventFilter, start: Slot, end: Slot) -> EventFilter {
    EventFilter { start, end, ..filter }
}

/// Two filters that agree on all events select the same ones.
proof fn lemma_select_same(f: EventFilter, g: EventFilter, events: Seq<EventModel>)
    requires
        forall|i: int|
            0 <= i < events.len() ==> f.admits(#[trigger] events[i]) == g.admits(events[i]),
    ensures
        f.select(events) == g.select(events),
    decreases events.len(),
{
    reveal(Seq::filter);
    if events.len() > 0 {
        let rest = events.drop_last();
        assert forall|i: int| 0 <= i < rest.len() implies f.admits(#[trigger] rest[i]) == g.admits(
            rest[i],
        ) by {
            assert(rest[i] == events[i]);
        }
        lemma_select_same(f, g, rest);
        assert(f.admits(events[events.len() - 1]) == g.admits(events[events.len() - 1]));
    }
}

/// A filter with an empty range selects nothing.
proof fn lemma_select_none(filter: EventFilter, events: Seq<EventModel>)
    requires
        !filter.start.spec_before(filter.end),
    ensures
        filter.select(events) == Seq::<EventModel>::empty(),
    decreases events.len(),
{
    reveal(Seq::filter);
    if events.len() > 0 {
        lemma_select_none(filter, events.drop_last());
    }
}

/// Adjoining ranges of slots select together what the whole range selects.
proof fn lemma_select_adjoining(
    filter: EventFilter,
    a: Slot,
    b: Slot,
    c: Slot,
    events: Seq<EventModel>,
)
    requires
        !b.spec_before(a),
        !c.spec_before(b),
    ensures
        with_range(filter, a, c).select(events).to_multiset() == with_range(filter, a, b).select(
            events,
        ).to_multiset().add(with_range(filter, b, c).select(events).to_multiset()),
    decreases events.len(),
{
    broadcast use vstd::seq_lib::group_to_multiset_ensures;

    reveal(Seq::filter);
    if events.len() > 0 {
        let rest = events.drop_last();
        lemma_select_adjoining(filter, a, b, c, rest);
    }
    assert(with_range(filter, a, c).select(events).to_multiset() =~= with_range(
        filter,
        a,
        b,
    ).select(events).to_multiset().add(with_range(filter, b, c).select(events).to_multiset()));
}

/// The same for the events of a history.
proof fn lemma_history_adjoining(
    history: Seq<HistoryItemModel>,
    filter: EventFilter,
    a: Slot,
    b: Slot,
    c: Slot,
)
    requires
        events_have_slots(history),
        !b.spec_before(a),
        !c.spec_before(b),
    ensures
        VMModel::history_events(history, with_range(filter, a, c)).to_multiset()
            == VMModel::history_events(history, with_range(filter, a, b)).to_multiset().add(
            VMModel::history_events(history, with_range(filter, b, c)).to_multiset(),
        ),
    decreases history.len(),
{
    broadcast use vstd::seq_lib::group_to_multiset_ensures;

    let whole = with_range(filter, a, c);
    let first = with_range(filter, a, b);
    let second = with_range(filter, b, c);
    if history.len() > 0 {
        let rest = history.drop_last();
        let last = history.last();
        assert forall|i: int, j: int|
            0 <= i < rest.len() && 0 <= j < rest[i].events.len() implies (
        #[trigger] rest[i].events[j]).slot == rest[i].slot by {
            assert(history[i].events[j].slot == history[i].slot);
        }
        lemma_history_adjoining(rest, filter, a, b, c);
        let earlier_whole = VMModel::history_events(rest, whole);
        let earlier_first = VMModel::history_events(rest, first);
        let earlier_second = VMModel::history_events(rest, second);
        assert forall|j: int| 0 <= j < last.events.len() implies (
        #[trigger] last.events[j]).slot == last.slot by {
            assert(history[history.len() - 1].events[j].slot == last.slot);
        }
        if last.slot.spec_within(a, b) {
            lemma_select_same(whole, first, last.events);
            lemma_multiset_commutative(earlier_whole, whole.select(last.events));
            lemma_multiset_commutative(earlier_first, first.select(last.events));
        } else if last.slot.spec_within(b, c) {
            lemma_select_same(whole, second, last.events);
            lemma_multiset_commutative(earlier_whole, whole.select(last.events));
            lemma_multiset_commutative(earlier_second, second.select(last.events));
        }
    }
    assert(VMModel::history_events(history, whole).to_multiset() =~= VMModel::history_events(
        history,
        first,
    ).to_multiset().add(VMModel::history_events(history, second).to_multiset()));
}

/// Queries over adjoining ranges of slots return together what a query over the whole range does.
pub proof fn lemma_adjoining_queries(vm: VMModel, filter: EventFilter, a: Slot, b: Slot, c: Slot)
    requires
        events_have_slots(vm.step_history),
        !b.spec_before(a),
        !c.spec_before(b),
    ensures
        vm.filtered_events(with_range(filter, a, c)).to_multiset() == vm.filtered_events(
            with_range(filter, a, b),
        ).to_multiset().add(vm.filtered_events(with_range(filter, b, c)).to_multiset()),
{
    let whole = with_range(filter, a, c);
    let first = with_range(filter, a, b);
    let second = with_range(filter, b, c);
    lemma_history_adjoining(vm.step_history, filter, a, b, c);
    lemma_select_adjoining(filter, a, b, c, vm.final_events);
    lemma_multiset_commutative(
        VMModel::history_events(vm.step_history, whole),
        whole.select(vm.final_events),
    );
    lemma_multiset_commutative(
        VMModel::history_events(vm.step_history, first),
        first.select(vm.final_events),
    );
    lemma_multiset_commutative(
        VMModel::history_events(vm.step_history, second),
        second.select(vm.final_events),
    );
    assert(vm.filtered_events(whole).to_multiset() =~= vm.filtered_events(
        first,
    ).to_multiset().add(vm.filtered_events(second).to_multiset()));
}

/// A query over an empty range of slots returns nothing.
pub proof fn lemma_empty_query(vm: VMModel, filter: EventFilter)
    requires
        !filter.start.spec_before(filter.end),
    ensures
        vm.filtered_events(filter) == Seq::<EventModel>::empty(),
{
    lemma_select_none(filter, vm.final_events);
    lemma_history_none(vm.step_history, filter);
    assert(vm.filtered_events(filter) =~= Seq::empty());
}

proof fn lemma_history_none(history: Seq<HistoryItemModel>, filter: EventFilter)
    requires
        !filter.start.spec_before(filter.end),
    ensures
        VMModel::history_events(history, filter) == Seq::<EventModel>::empty(),
    decreases history.len(),
{
    if history.len() > 0 {
        lemma_history_none(history.drop_last(), filter);
    }
}

/// The value asked for, or nothing where the question is dropped.
pub open spec fn unless<T>(dropped: bool, value: Option<T>) -> Option<T> {
    if dropped {
        None
    } else {
        value
    }
}

/// The filter without some of what it asks for.
pub open spec fn without(
    filter: EventFilter,
    emitter: bool,
    caller: bool,
    operation: bool,
) -> EventFilter {
    EventFilter {
        emitter_address: unless::<Address>(emitter, filter.emitter_address),
        original_caller_address: unless::<Address>(caller, filter.original_caller_address),
        original_operation_id: unless::<OperationId>(operation, filter.original_operation_id),
        ..filter
    }
}

proof fn lemma_select_wider(narrow: EventFilter, wide: EventFilter, events: Seq<EventModel>)
    requires
        forall|event: EventModel| #[trigger] narrow.admits(event) ==> wide.admits(event),
    ensures
        narrow.select(events).to_multiset().subset_of(wide.select(events).to_multiset()),
    decreases events.len(),
{
    broadcast use vstd::seq_lib::group_to_multiset_ensures;

    reveal(Seq::filter);
    if events.len() > 0 {
        lemma_select_wider(narrow, wide, events.drop_last());
    }
}

proof fn lemma_history_wider(
    history: Seq<HistoryItemModel>,
    narrow: EventFilter,
    wide: EventFilter,
)
    requires
        narrow.start == wide.start,
        narrow.end == wide.end,
        forall|event: EventModel| #[trigger] narrow.admits(event) ==> wide.admits(event),
    ensures
        VMModel::history_events(history, narrow).to_multiset().subset_of(
            VMModel::history_events(history, wide).to_multiset(),
        ),
    decreases history.len(),
{
    broadcast use vstd::seq_lib::group_to_multiset_ensures;

    if history.len() > 0 {
        let rest = history.drop_last();
        let last = history.last();
        lemma_history_wider(rest, narrow, wide);
        lemma_select_wider(narrow, wide, last.events);
        lemma_multiset_commutative(
            VMModel::history_events(rest, narrow),
            narrow.select(last.events),
        );
        lemma_multiset_commutative(VMModel::history_events(rest, wide), wide.select(last.events));
    }
}

/// Asking for less returns all that was returned before, and maybe more.
pub proof fn lemma_dropping_a_filter_only_adds(
    vm: VMModel,
    filter: EventFilter,
    emitter: bool,
    caller: bool,
    operation: bool,
)
    ensures
        vm.filtered_events(filter).to_multiset().subset_of(
            vm.filtered_events(without(filter, emitter, caller, operation)).to_multiset(),
        ),
{
    let wide = without(filter, emitter, caller, operation);
    lemma_history_wider(vm.step_history, filter, wide);
    lemma_select_wider(filter, wide, vm.final_events);
    lemma_multiset_commutative(
        VMModel::history_events(vm.step_history, filter),
        filter.select(vm.final_events),
    );
    lemma_multiset_commutative(
        VMModel::history_events(vm.step_history, wide),
        wide.select(vm.final_events),
    );
}

} // verus!
