//! Output events of smart contracts.

use crate::models::{Address, BlockId, Key, OperationId, SCOutputEventId, Slot};
use crate::vec_map::Value;
use vstd::prelude::*;

verus! {

/// What an event holds.
#[verifier::ext_equal]
pub struct EventModel {
    pub id: SCOutputEventId,
    pub slot: Slot,
    pub block: Option<BlockId>,
    pub call_stack: Seq<Address>,
    pub read_only: bool,
    pub index_in_slot: u64,
    pub origin_operation_id: Option<OperationId>,
    pub data: Seq<char>,
}

/// The execution that an event came out of.
#[derive(Debug)]
pub struct EventExecutionContext {
    /// slot of the execution
    pub slot: Slot,
    /// block of the execution, if any
    pub block: Option<BlockId>,
    /// addresses of the call stack, the first caller first
    pub call_stack: Vec<Address>,
    /// whether the execution was read-only
    pub read_only: bool,
    /// how many events of the slot came before this one
    pub index_in_slot: u64,
    /// operation that started the execution, if any
    pub origin_operation_id: Option<OperationId>,
}

/// An event that a contract produced.
#[derive(Debug)]
pub struct SCOutputEvent {
    /// identifier
    pub id: SCOutputEventId,
    /// where the event came from
    pub context: EventExecutionContext,
    /// what the contract says
    pub data: String,
}

impl View for SCOutputEvent {
    type V = EventModel;

    open spec fn view(&self) -> EventModel {
        EventModel {
            id: self.id,
            slot: self.context.slot,
            block: self.context.block,
            call_stack: self.context.call_stack@,
            read_only: self.context.read_only,
            index_in_slot: self.context.index_in_slot,
            origin_operation_id: self.context.origin_operation_id,
            data: self.data@,
        }
    }
}

/// A copy of a list of addresses.
pub fn duplicate_addresses(addresses: &Vec<Address>) -> (copy: Vec<Address>)
    ensures
        copy@ == addresses@,
{
    let copy = addresses.clone();
    assert(copy@ =~= addresses@);
    copy
}

impl Value for SCOutputEvent {
    fn duplicate(&self) -> (copy: Self) {
        SCOutputEvent {
            id: self.id,
            context: EventExecutionContext {
                slot: self.context.slot,
                block: self.context.block,
                call_stack: duplicate_addresses(&self.context.call_stack),
                read_only: self.context.read_only,
                index_in_slot: self.context.index_in_slot,
                origin_operation_id: self.context.origin_operation_id,
            },
            data: self.data.clone(),
        }
    }
}

/// Which events to return.
#[derive(Clone, Copy, Debug)]
pub struct EventFilter {
    /// first slot
    pub start: Slot,
    /// slot after the last one
    pub end: Slot,
    /// address that emitted the event: the last of its call stack
    pub emitter_address: Option<Address>,
    /// address that started the execution: the first of its call stack
    pub original_caller_address: Option<Address>,
    /// operation that started the execution
    pub original_operation_id: Option<OperationId>,
}

impl EventFilter {
    /// Whether an event passes: its slot lies in the range, and it has each emitter, caller and
    /// operation that is asked for.
    pub open spec fn admits(self, event: EventModel) -> bool {
        &&& event.slot.spec_within(self.start, self.end)
        &&& self.emitter_address matches Some(address) ==> event.call_stack.len() > 0
            && event.call_stack.last() == address
        &&& self.original_caller_address matches Some(address) ==> event.call_stack.len() > 0
            && event.call_stack.first() == address
        &&& self.original_operation_id matches Some(id) ==> event.origin_operation_id == Some(id)
    }

    /// Whether an event passes.
    pub fn admits_event(&self, event: &SCOutputEvent) -> (admitted: bool)
        ensures
            admitted == self.admits(event@),
    {
        let call_stack = &event.context.call_stack;
        if !event.context.slot.within(&self.start, &self.end) {
            return false;
        }
        if let Some(address) = &self.emitter_address {
            if call_stack.len() == 0 || !call_stack[call_stack.len() - 1].same(address) {
                return false;
            }
        }
        if let Some(address) = &self.original_caller_address {
            if call_stack.len() == 0 || !call_stack[0].same(address) {
                return false;
            }
        }
        match (&self.original_operation_id, &event.context.origin_operation_id) {
            (None, _) => true,
            (Some(id), Some(origin)) => id.same(origin),
            (Some(_), None) => false,
        }
    }

    /// The events of `events` that pass, in the same order.
    pub open spec fn select(self, events: Seq<EventModel>) -> Seq<EventModel> {
        events.filter(|event: EventModel| self.admits(event))
    }
}

/// What a list of events holds.
pub open spec fn event_views(events: Seq<SCOutputEvent>) -> Seq<EventModel> {
    Seq::new(events.len(), |i: int| events[i]@)
}

/// Whether one of `events` has the identifier `id`.
pub open spec fn has_event(events: Seq<EventModel>, id: SCOutputEventId) -> bool {
    exists|i: int| 0 <= i < events.len() && (#[trigger] events[i]).id == id
}

/// Whether no two events have the same identifier.
pub open spec fn ids_distinct(events: Seq<EventModel>) -> bool {
    forall|i: int, j: int|
        0 <= i < events.len() && 0 <= j < events.len() && i != j ==> (#[trigger] events[i]).id != (
        #[trigger] events[j]).id
}

/// `events` and, unless its identifier is taken, `event`.
pub open spec fn with_event(events: Seq<EventModel>, event: EventModel) -> Seq<EventModel> {
    if has_event(events, event.id) {
        events
    } else {
        events.push(event)
    }
}

/// `events` and, one after the other, those of `more` whose identifiers are not taken.
pub open spec fn with_events(events: Seq<EventModel>, more: Seq<EventModel>) -> Seq<EventModel>
    decreases more.len(),
{
    if more.len() == 0 {
        events
    } else {
        with_event(with_events(events, more.drop_last()), more.last())
    }
}

/// The position of the oldest event: of the earliest slot, and there the first.
pub open spec fn oldest(events: Seq<EventModel>) -> int
    decreases events.len(),
{
    if events.len() <= 1 {
        0
    } else {
        let candidate = oldest(events.drop_last());
        if events.last().slot.spec_before(events[candidate].slot) {
            events.len() - 1
        } else {
            candidate
        }
    }
}

/// `events` without the oldest ones, as many as have to go for `max` to be left.
pub open spec fn pruned(events: Seq<EventModel>, max: nat) -> Seq<EventModel>
    decreases events.len(),
{
    if events.len() <= max {
        events
    } else {
        proof {
            lemma_oldest(events);
        }
        pruned(events.remove(oldest(events)), max)
    }
}

/// The oldest event is one of the events, and none is of an earlier slot.
pub proof fn lemma_oldest(events: Seq<EventModel>)
    requires
        events.len() > 0,
    ensures
        0 <= oldest(events) < events.len(),
        forall|i: int|
            0 <= i < events.len() ==> !(#[trigger] events[i]).slot.spec_before(
                events[oldest(events)].slot,
            ),
    decreases events.len(),
{
    if events.len() > 1 {
        let rest = events.drop_last();
        lemma_oldest(rest);
        assert forall|i: int| 0 <= i < events.len() implies !(
        #[trigger] events[i]).slot.spec_before(events[oldest(events)].slot) by {
            if i < rest.len() {
                assert(events[i] == rest[i]);
            }
        }
    }
}

/// Pruning leaves at most `max` events and drops no more than it has to. What is left was there
/// before, and none of it is of an earlier slot than an event that was dropped.
pub proof fn lemma_pruned(events: Seq<EventModel>, max: nat)
    ensures
        pruned(events, max).len() == if events.len() <= max {
            events.len()
        } else {
            max
        },
        forall|event: EventModel|
            pruned(events, max).contains(event) ==> #[trigger] events.contains(event),
        forall|dropped: EventModel, kept: EventModel|
            events.contains(dropped) && !pruned(events, max).contains(dropped) && pruned(
                events,
                max,
            ).contains(kept) ==> !(#[trigger] kept.slot.spec_before(dropped.slot)),
    decreases events.len(),
{
    if events.len() > max {
        lemma_oldest(events);
        let at = oldest(events);
        let rest = events.remove(at);
        lemma_pruned(rest, max);
        assert forall|event: EventModel| rest.contains(event) implies events.contains(event) by {
            let i = choose|i: int| 0 <= i < rest.len() && rest[i] == event;
            assert(rest[i] == events[if i < at { i } else { i + 1 }]);
        }
        assert forall|event: EventModel| events.contains(event) && event != events[at] implies
            rest.contains(event) by {
            let i = choose|i: int| 0 <= i < events.len() && events[i] == event;
            assert(rest[if i < at { i } else { i - 1 }] == events[i]);
        }
        assert forall|dropped: EventModel, kept: EventModel|
            events.contains(dropped) && !pruned(events, max).contains(dropped) && pruned(
                events,
                max,
            ).contains(kept) implies !(#[trigger] kept.slot.spec_before(dropped.slot)) by {
            assert(rest.contains(kept));
            assert(events.contains(kept));
            if dropped == events[at] {
                let i = choose|i: int| 0 <= i < events.len() && events[i] == kept;
                assert(!events[i].slot.spec_before(events[at].slot));
            }
        }
    }
}

/// Events by identifier, in the order in which they came.
pub struct EventStore {
    events: Vec<SCOutputEvent>,
}

impl View for EventStore {
    type V = Seq<EventModel>;

    closed spec fn view(&self) -> Seq<EventModel> {
        event_views(self.events@)
    }
}

impl Value for EventStore {
    fn duplicate(&self) -> (copy: Self) {
        proof {
            use_type_invariant(self);
        }
        let events = self.export();
        EventStore { events }
    }
}

impl EventStore {
    #[verifier::type_invariant]
    spec fn well_formed(self) -> bool {
        ids_distinct(event_views(self.events@))
    }

    /// A store without events.
    pub fn new() -> (store: EventStore)
        ensures
            store@ == Seq::<EventModel>::empty(),
    {
        let store = EventStore { events: Vec::new() };
        assert(store@ =~= Seq::empty());
        store
    }

    /// How many events there are. No two of them have the same identifier.
    pub fn len(&self) -> (len: usize)
        ensures
            len == self@.len(),
            ids_distinct(self@),
    {
        proof {
            use_type_invariant(self);
        }
        self.events.len()
    }

    /// Adds an event. An event whose identifier is already there is left out.
    pub fn insert(&mut self, event: SCOutputEvent)
        ensures
            final(self)@ == with_event(old(self)@, event@),
    {
        proof {
            use_type_invariant(&*self);
        }
        let mut i: usize = 0;
        while i < self.events.len()
            invariant
                i <= self.events@.len(),
                *self == *old(self),
                forall|j: int| 0 <= j < i ==> (#[trigger] self@[j]).id != event.id,
            decreases self.events@.len() - i,
        {
            if self.events[i].id.same(&event.id) {
                assert(self@[i as int].id == event.id);
                return;
            }
            i = i + 1;
        }
        let ghost before = self@;
        let mut events: Vec<SCOutputEvent> = Vec::new();
        std::mem::swap(&mut self.events, &mut events);
        events.push(event);
        assert(event_views(events@) =~= before.push(event@));
        self.events = events;
    }

    /// Drops all events.
    pub fn clear(&mut self)
        ensures
            final(self)@ == Seq::<EventModel>::empty(),
    {
        self.events = Vec::new();
        assert(self@ =~= Seq::empty());
    }

    /// Takes all events out into a store of their own.
    pub fn take(&mut self) -> (store: EventStore)
        ensures
            store@ == old(self)@,
            final(self)@ == Seq::<EventModel>::empty(),
    {
        proof {
            use_type_invariant(&*self);
        }
        let mut events: Vec<SCOutputEvent> = Vec::new();
        std::mem::swap(&mut self.events, &mut events);
        assert(self@ =~= Seq::empty());
        EventStore { events }
    }

    /// Adds the events of `other`, one after the other.
    pub fn extend(&mut self, other: EventStore)
        ensures
            final(self)@ == with_events(old(self)@, other@),
    {
        let ghost start = self@;
        let mut i: usize = 0;
        while i < other.events.len()
            invariant
                i <= other.events@.len(),
                self@ == with_events(start, other@.take(i as int)),
            decreases other.events@.len() - i,
        {
            self.insert(other.events[i].duplicate());
            i = i + 1;
            assert(other@.take(i as int).drop_last() =~= other@.take(i - 1));
            assert(other@.take(i as int).last() == other.events@[i - 1]@);
        }
        assert(other@.take(i as int) =~= other@);
    }

    /// The position of the oldest event.
    fn find_oldest(&self) -> (at: usize)
        requires
            self@.len() > 0,
        ensures
            at == oldest(self@),
            at < self@.len(),
    {
        let mut at: usize = 0;
        let mut i: usize = 1;
        assert(self@.take(1).len() == 1);
        while i < self.events.len()
            invariant
                1 <= i <= self.events@.len(),
                at < i,
                at == oldest(self@.take(i as int)),
            decreases self.events@.len() - i,
        {
            assert(self@.take(i + 1).drop_last() =~= self@.take(i as int));
            if self.events[i].context.slot.before(&self.events[at].context.slot) {
                at = i;
            }
            i = i + 1;
        }
        assert(self@.take(i as int) =~= self@);
        at
    }

    /// Drops the oldest events until at most `max_final_events` are left.
    pub fn prune(&mut self, max_final_events: usize)
        ensures
            final(self)@ == pruned(old(self)@, max_final_events as nat),
    {
        while self.events.len() > max_final_events
            invariant
                pruned(self@, max_final_events as nat) == pruned(
                    old(self)@,
                    max_final_events as nat,
                ),
            decreases self.events@.len(),
        {
            proof {
                use_type_invariant(&*self);
                lemma_oldest(self@);
            }
            let ghost before = self@;
            let at: usize = self.find_oldest();
            let mut events: Vec<SCOutputEvent> = Vec::new();
            std::mem::swap(&mut self.events, &mut events);
            events.remove(at);
            proof {
                let after = event_views(events@);
                assert(after =~= before.remove(at as int));
                assert forall|i: int, j: int|
                    0 <= i < after.len() && 0 <= j < after.len() && i != j implies (
                #[trigger] after[i]).id != (#[trigger] after[j]).id by {
                    let i0 = if i < at { i } else { i + 1 };
                    let j0 = if j < at { j } else { j + 1 };
                    assert(after[i] == before[i0] && after[j] == before[j0]);
                }
            }
            self.events = events;
        }
    }

    /// A copy of all events.
    pub fn export(&self) -> (events: Vec<SCOutputEvent>)
        ensures
            event_views(events@) == self@,
    {
        let mut events: Vec<SCOutputEvent> = Vec::new();
        let mut i: usize = 0;
        while i < self.events.len()
            invariant
                i <= self.events@.len(),
                event_views(events@) == self@.take(i as int),
            decreases self.events@.len() - i,
        {
            let ghost before = events@;
            events.push(self.events[i].duplicate());
            i = i + 1;
            assert(event_views(events@) =~= event_views(before).push(self@[i - 1]));
            assert(event_views(events@) =~= self@.take(i as int));
        }
        assert(self@.take(i as int) =~= self@);
        events
    }

    /// Appends copies of the events that pass `filter`.
    pub fn append_filtered(&self, filter: &EventFilter, selected: &mut Vec<SCOutputEvent>)
        ensures
            event_views(final(selected)@) == event_views(old(selected)@) + filter.select(self@),
    {
        let ghost start = event_views(selected@);
        let mut i: usize = 0;
        proof {
            reveal(Seq::filter);
            assert(event_views(selected@) =~= start + filter.select(self@.take(0)));
        }
        while i < self.events.len()
            invariant
                i <= self.events@.len(),
                event_views(selected@) == start + filter.select(self@.take(i as int)),
            decreases self.events@.len() - i,
        {
            let ghost before = selected@;
            if filter.admits_event(&self.events[i]) {
                selected.push(self.events[i].duplicate());
                assert(event_views(selected@) =~= event_views(before).push(self@[i as int]));
            }
            i = i + 1;
            proof {
                reveal(Seq::filter);
                assert(self@.take(i as int).drop_last() =~= self@.take(i - 1));
                assert(event_views(selected@) =~= start + filter.select(self@.take(i as int)));
            }
        }
        assert(self@.take(i as int) =~= self@);
    }
}

} // verus!
