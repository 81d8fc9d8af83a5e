use massa_execution::event_store::{EventExecutionContext, EventFilter, EventStore, SCOutputEvent};
use massa_execution::models::{Address, Digest, OperationId, SCOutputEventId, Slot};
use massa_execution::vec_map::Value;

fn digest(n: u8) -> Digest {
    Digest::from_bytes([n; 32])
}

fn address(n: u8) -> Address {
    Address(digest(n))
}

fn event(id: u8, period: u64, call_stack: Vec<u8>, origin: Option<u8>) -> SCOutputEvent {
    SCOutputEvent {
        id: SCOutputEventId(digest(id)),
        context: EventExecutionContext {
            slot: Slot::new(period, 0),
            block: None,
            call_stack: call_stack.into_iter().map(address).collect(),
            read_only: false,
            index_in_slot: 0,
            origin_operation_id: origin.map(|n| OperationId(digest(n))),
        },
        data: format!("event {}", id),
    }
}

fn ids(events: &Vec<SCOutputEvent>) -> Vec<u8> {
    events.iter().map(|event| (event.id.0).bytes[0]).collect()
}

fn everything() -> EventFilter {
    EventFilter {
        start: Slot::new(0, 0),
        end: Slot::new(100, 0),
        emitter_address: None,
        original_caller_address: None,
        original_operation_id: None,
    }
}

fn filtered(store: &EventStore, filter: &EventFilter) -> Vec<u8> {
    let mut selected = Vec::new();
    store.append_filtered(filter, &mut selected);
    ids(&selected)
}

#[test]
fn the_first_event_of_an_identifier_stays() {
    let mut store = EventStore::new();
    store.insert(event(1, 1, vec![], None));
    store.insert(event(2, 2, vec![], None));
    store.insert(event(1, 3, vec![], None));
    assert_eq!(store.len(), 2);
    let events = store.export();
    assert_eq!(ids(&events), vec![1, 2]);
    assert_eq!(events[0].context.slot, Slot::new(1, 0));
    assert_eq!(events[0].data, "event 1");
}

#[test]
fn events_are_taken_and_added() {
    let mut store = EventStore::new();
    store.insert(event(1, 1, vec![], None));
    store.insert(event(2, 2, vec![], None));
    let taken = store.take();
    assert_eq!(store.len(), 0);
    store.insert(event(2, 5, vec![], None));
    store.insert(event(3, 3, vec![], None));
    let copy = taken.duplicate();
    store.extend(taken);
    assert_eq!(ids(&store.export()), vec![2, 3, 1]);
    assert_eq!(store.export()[0].context.slot, Slot::new(5, 0));
    assert_eq!(ids(&copy.export()), vec![1, 2]);
    store.clear();
    assert_eq!(store.len(), 0);
}

#[test]
fn pruning_drops_the_oldest_slots() {
    let mut store = EventStore::new();
    store.insert(event(1, 7, vec![], None));
    store.insert(event(2, 3, vec![], None));
    store.insert(event(3, 9, vec![], None));
    store.insert(event(4, 3, vec![], None));
    store.prune(4);
    assert_eq!(store.len(), 4);
    store.prune(3);
    assert_eq!(ids(&store.export()), vec![1, 3, 4]);
    store.prune(1);
    assert_eq!(ids(&store.export()), vec![3]);
    store.prune(0);
    assert_eq!(store.len(), 0);
}

#[test]
fn filters_select_events() {
    let mut store = EventStore::new();
    store.insert(event(1, 1, vec![10, 11], Some(20)));
    store.insert(event(2, 2, vec![10], Some(21)));
    store.insert(event(3, 3, vec![11], None));
    store.insert(event(4, 4, vec![], Some(20)));
    assert_eq!(filtered(&store, &everything()), vec![1, 2, 3, 4]);
    let mut filter = everything();
    filter.start = Slot::new(2, 0);
    filter.end = Slot::new(4, 0);
    assert_eq!(filtered(&store, &filter), vec![2, 3]);
    let mut filter = everything();
    filter.emitter_address = Some(address(11));
    assert_eq!(filtered(&store, &filter), vec![1, 3]);
    let mut filter = everything();
    filter.original_caller_address = Some(address(10));
    assert_eq!(filtered(&store, &filter), vec![1, 2]);
    let mut filter = everything();
    filter.original_operation_id = Some(OperationId(digest(20)));
    assert_eq!(filtered(&store, &filter), vec![1, 4]);
    filter.original_caller_address = Some(address(10));
    assert_eq!(filtered(&store, &filter), vec![1]);
}
