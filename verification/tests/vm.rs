use massa_execution::error::ExecutionError;
use massa_execution::event_store::{EventExecutionContext, SCOutputEvent};
use massa_execution::models::{
    Address, Amount, BlockId, Digest, OperationId, SCOutputEventId, Slot,
};
use massa_execution::progress::{PendingRun, PendingSeed, Progress};
use massa_execution::sce_ledger::SCELedger;
use massa_execution::timeslots::MassaTime;
use massa_execution::types::{
    Block, ExecuteReadOnlyResponse, ExecutionData, ExecutionStep, Operation, OperationContent,
    ReadOnlyResult,
};
use massa_execution::vm::{ExecutionConfigs, LedgerBootstrap, VM};

const SENDER: u8 = 1;
const CREATOR: u8 = 2;

fn digest(n: u8) -> Digest {
    Digest::from_bytes([n; 32])
}

fn address(n: u8) -> Address {
    Address(digest(n))
}

fn configs() -> ExecutionConfigs {
    ExecutionConfigs {
        thread_count: 2,
        t0: MassaTime::from_millis(1_000),
        genesis_timestamp: MassaTime::from_millis(5_000),
    }
}

fn vm() -> VM {
    let balances = vec![(address(SENDER), Amount::from_raw(100))];
    match VM::new(configs(), LedgerBootstrap::InitialFile(Ok(balances))) {
        Ok(vm) => vm,
        Err(error) => panic!("{}", error.message()),
    }
}

fn miss(period: u64, thread: u8) -> ExecutionStep {
    ExecutionStep { slot: Slot::new(period, thread), block: None }
}

fn operation(id: Option<u8>, bytecode: u8, coins: u64) -> Operation {
    Operation {
        id: id.map(|n| OperationId(digest(n))),
        content: OperationContent::ExecuteSC(ExecutionData {
            bytecode: vec![bytecode],
            sender_address: address(SENDER),
            max_gas: 10,
            gas_price: Amount::from_raw(3),
            coins: Amount::from_raw(coins),
        }),
    }
}

fn with_block(period: u64, thread: u8, block: u8, operations: Vec<Operation>) -> ExecutionStep {
    ExecutionStep {
        slot: Slot::new(period, thread),
        block: Some((
            BlockId(digest(block)),
            Block { creator_address: address(CREATOR), operations },
        )),
    }
}

fn wants_digest(progress: Progress) -> (Vec<u8>, PendingSeed) {
    match progress {
        Progress::Digest { data, pending_seed } => (data, pending_seed),
        _ => panic!("no digest is asked for"),
    }
}

fn wants_run(progress: Progress) -> (Vec<u8>, u64, PendingRun) {
    match progress {
        Progress::Run { bytecode, max_gas, pending_run } => (bytecode, max_gas, pending_run),
        _ => panic!("no run is asked for"),
    }
}

fn is_done(progress: Progress) -> bool {
    matches!(progress, Progress::StepDone)
}

fn answer(progress: Progress) -> ExecuteReadOnlyResponse {
    match progress {
        Progress::ReadOnlyDone(response) => response,
        _ => panic!("no answer"),
    }
}

/// Runs an execution to its end: every run writes its bytecode under 5 and succeeds.
fn complete(vm: &mut VM, progress: Progress) {
    let mut progress = progress;
    loop {
        progress = match progress {
            Progress::Digest { data: _, pending_seed } => vm.provide_seed(pending_seed, [0u8; 32]),
            Progress::Run { bytecode, max_gas: _, pending_run } => {
                assert_eq!(vm.execution_interface.raw_set_data(digest(5), &bytecode), Ok(()));
                let id = SCOutputEventId(digest(bytecode[0]));
                let data = format!("{}", bytecode[0]);
                assert_eq!(vm.execution_interface.generate_event(id, data), Ok(()));
                vm.provide_run_result(pending_run, true)
            }
            Progress::StepDone => return,
            Progress::ReadOnlyDone(_) => return,
        }
    }
}

fn run_active(vm: &mut VM, step: ExecutionStep) {
    let progress = vm.run_active_step(step);
    complete(vm, progress);
}

fn run_final(vm: &mut VM, step: ExecutionStep) {
    let progress = vm.run_final_step(step, 10);
    complete(vm, progress);
}

fn final_balance(vm: &VM, of: u8) -> Option<u64> {
    vm.get_bootstrap_state().ledger.0.get(&address(of)).map(|entry| entry.balance.to_raw())
}

fn final_data(vm: &VM, of: u8) -> Option<Vec<u8>> {
    let state = vm.get_bootstrap_state();
    let entry = state.ledger.0.get(&address(of))?;
    entry.data.get(&digest(5)).cloned()
}

fn history(vm: &VM) -> Vec<Slot> {
    vm.step_history.iter().map(|item| item.slot).collect()
}

fn events(vm: &VM, start: Option<Slot>, end: Option<Slot>, now: Option<u64>) -> Vec<String> {
    vm.get_filtered_sc_output_event(start, end, None, None, None, now.map(MassaTime::from_millis))
        .into_iter()
        .map(|event| event.data)
        .collect()
}

fn final_event(id: u8, period: u64) -> SCOutputEvent {
    SCOutputEvent {
        id: SCOutputEventId(digest(id)),
        context: EventExecutionContext {
            slot: Slot::new(period, 0),
            block: None,
            call_stack: vec![address(SENDER)],
            read_only: false,
            index_in_slot: 0,
            origin_operation_id: None,
        },
        data: format!("final {}", id),
    }
}

#[test]
fn vm_starts_on_a_snapshot() {
    let ledger = SCELedger::from_balances_map(&vec![(address(3), Amount::from_raw(7))]);
    let vm = VM::new(configs(), LedgerBootstrap::Snapshot(ledger, Slot::new(12, 1)));
    let state = vm.ok().unwrap().get_bootstrap_state();
    assert_eq!(state.slot, Slot::new(12, 1));
    assert_eq!(state.ledger.0.get(&address(3)).unwrap().balance, Amount::from_raw(7));
}

#[test]
fn vm_starts_on_the_initial_file() {
    let vm = vm();
    assert_eq!(vm.get_bootstrap_state().slot, Slot::new(0, 1));
    assert_eq!(final_balance(&vm, SENDER), Some(100));
    let mut cfg = configs();
    cfg.thread_count = 0;
    let vm = VM::new(cfg, LedgerBootstrap::InitialFile(Ok(vec![]))).ok().unwrap();
    assert_eq!(vm.get_bootstrap_state().slot, Slot::new(0, 0));
    let error = ExecutionError::FileError("unreadable".to_string());
    let vm = VM::new(configs(), LedgerBootstrap::InitialFile(Err(error)));
    assert_eq!(vm.err().unwrap().message(), "unreadable");
}

#[test]
fn seeds_depend_on_slot_block_and_mode() {
    let mut vm = vm();
    let key = vec![0, 0, 0, 0, 0, 0, 0, 1, 0];
    let (data, _) = wants_digest(vm.run_active_step(miss(1, 0)));
    let mut expected = key.clone();
    expected.push(1);
    assert_eq!(data, expected);
    let (data, _) = wants_digest(vm.run_final_step(with_block(1, 0, 77, vec![]), 10));
    expected.extend([77u8; 32]);
    assert_eq!(data, expected);
    let progress = vm.run_read_only(Slot::new(1, 0), 5, Amount::zero(), vec![1], address(3));
    let (data, _) = wants_digest(progress);
    let mut expected = key;
    expected.push(0);
    assert_eq!(data, expected);
}

#[test]
fn operations_are_credited_and_run_in_order() {
    let mut vm = vm();
    let other = Operation { id: Some(OperationId(digest(90))), content: OperationContent::Other };
    let step = with_block(
        1,
        0,
        77,
        vec![other, operation(None, 30, 5), operation(Some(91), 31, 5), operation(Some(92), 32, 6)],
    );
    let (_, pending) = wants_digest(vm.run_final_step(step, 10));
    let (bytecode, max_gas, pending) = wants_run(vm.provide_seed(pending, [0u8; 32]));
    assert_eq!((bytecode, max_gas), (vec![31], 10));
    let context = &vm.execution_interface.context;
    assert_eq!(context.origin_operation_id, Some(OperationId(digest(91))));
    assert_eq!(context.opt_block_id, Some(BlockId(digest(77))));
    assert_eq!(context.opt_block_creator_addr, Some(address(CREATOR)));
    assert_eq!(context.slot, Slot::new(1, 0));
    // the third of the block, though the first that is executed
    assert_eq!(context.operation_index, 2);
    assert_eq!(context.gas_price, Amount::from_raw(3));
    assert_eq!(context.max_gas, 10);
    assert_eq!(vm.execution_interface.get_call_stack(), Ok(vec![address(SENDER)]));
    assert_eq!(vm.execution_interface.get_call_coins(), Ok(5));
    assert_eq!(vm.execution_interface.get_balance(), Ok(105));
    assert_eq!(vm.execution_interface.get_balance_for(&address(CREATOR)), Ok(30));
    let (bytecode, _, pending) = wants_run(vm.provide_run_result(pending, true));
    assert_eq!(bytecode, vec![32]);
    assert_eq!(vm.execution_interface.get_balance(), Ok(111));
    assert!(is_done(vm.provide_run_result(pending, true)));
    assert_eq!(final_balance(&vm, SENDER), Some(111));
    assert_eq!(final_balance(&vm, CREATOR), Some(60));
    assert_eq!(vm.get_bootstrap_state().slot, Slot::new(1, 0));
}

#[test]
fn credits_that_do_not_fit_are_left_out() {
    let mut vm = vm();
    let step = with_block(1, 0, 77, vec![operation(Some(91), 31, u64::MAX)]);
    let (_, pending) = wants_digest(vm.run_final_step(step, 10));
    let (_, _, pending) = wants_run(vm.provide_seed(pending, [0u8; 32]));
    assert_eq!(vm.execution_interface.get_balance(), Ok(100));
    assert_eq!(vm.execution_interface.get_call_coins(), Ok(u64::MAX));
    assert_eq!(vm.execution_interface.get_balance_for(&address(CREATOR)), Ok(30));
    assert!(is_done(vm.provide_run_result(pending, true)));
    assert_eq!(final_balance(&vm, SENDER), Some(100));
}

#[test]
fn failed_operations_keep_only_their_credits() {
    let mut vm = vm();
    let step = with_block(1, 0, 77, vec![operation(Some(91), 31, 5), operation(Some(92), 32, 5)]);
    let (_, pending) = wants_digest(vm.run_final_step(step, 10));
    let mut seed = [0u8; 32];
    seed[0] = 1;
    seed[8] = 2;
    seed[16] = 3;
    seed[24] = 4;
    let (_, _, pending) = wants_run(vm.provide_seed(pending, seed));
    let interface = &mut vm.execution_interface;
    assert_eq!(interface.unsafe_random(), Ok(41943041));
    assert_eq!(interface.unsafe_random(), Ok(58720359));
    assert_eq!(interface.raw_set_data(digest(5), &[1]), Ok(()));
    assert_eq!(interface.transfer_coins(address(3), 50), Ok(()));
    assert_eq!(interface.create_module(address(4), &[2]), Ok(address(4)));
    assert_eq!(interface.generate_event(SCOutputEventId(digest(70)), "x".to_string()), Ok(()));
    let (_, _, pending) = wants_run(vm.provide_run_result(pending, false));
    let interface = &mut vm.execution_interface;
    assert_eq!(interface.context.created_addr_index, 0);
    assert_eq!(interface.context.created_event_index, 0);
    assert_eq!(interface.context.events.len(), 0);
    assert_eq!(interface.has_data(&digest(5)), Ok(false));
    assert_eq!(interface.get_balance(), Ok(110));
    assert_eq!(interface.get_balance_for(&address(3)), Ok(0));
    assert_eq!(interface.get_balance_for(&address(CREATOR)), Ok(60));
    // the generator is back where the first operation found it
    assert_eq!(interface.unsafe_random(), Ok(41943041));
    assert_eq!(interface.unsafe_random(), Ok(58720359));
    assert_eq!(interface.unsafe_random(), Ok(3588806011781223));
    assert_eq!(interface.unsafe_random(), Ok(3591011842654386));
    assert!(is_done(vm.provide_run_result(pending, false)));
    assert_eq!(final_balance(&vm, SENDER), Some(110));
    assert_eq!(final_balance(&vm, 3), None);
}

#[test]
fn active_steps_join_the_history() {
    let mut vm = vm();
    run_active(&mut vm, with_block(1, 0, 77, vec![operation(Some(91), 31, 5)]));
    assert_eq!(history(&vm), vec![Slot::new(1, 0)]);
    assert_eq!(final_balance(&vm, SENDER), Some(100));
    assert_eq!(final_data(&vm, SENDER), None);
    // the next step sees what the first one did
    let (_, pending) = wants_digest(vm.run_active_step(with_block(
        1,
        1,
        78,
        vec![operation(Some(92), 32, 5)],
    )));
    let (_, _, pending) = wants_run(vm.provide_seed(pending, [0u8; 32]));
    assert_eq!(vm.execution_interface.raw_get_data(&digest(5)), Ok(vec![31]));
    assert_eq!(vm.execution_interface.get_balance(), Ok(110));
    assert!(is_done(vm.provide_run_result(pending, true)));
    assert_eq!(history(&vm), vec![Slot::new(1, 0), Slot::new(1, 1)]);
    assert_eq!(vm.execution_interface.context.events.len(), 0);
}

#[test]
fn cached_steps_become_final_without_execution() {
    let mut vm = vm();
    run_active(&mut vm, with_block(1, 0, 77, vec![operation(Some(91), 31, 5)]));
    run_active(&mut vm, with_block(1, 1, 78, vec![operation(Some(92), 32, 5)]));
    let step = with_block(1, 0, 77, vec![operation(Some(91), 31, 5)]);
    assert!(is_done(vm.run_final_step(step, 10)));
    assert_eq!(history(&vm), vec![Slot::new(1, 1)]);
    assert_eq!(final_balance(&vm, SENDER), Some(105));
    assert_eq!(final_data(&vm, SENDER), Some(vec![31]));
    assert_eq!(vm.get_bootstrap_state().slot, Slot::new(1, 0));
    // the next step sees the same ledger as before
    let (_, pending) = wants_digest(vm.run_active_step(with_block(
        2,
        0,
        79,
        vec![operation(Some(93), 33, 0)],
    )));
    let (_, _, _) = wants_run(vm.provide_seed(pending, [0u8; 32]));
    assert_eq!(vm.execution_interface.get_balance(), Ok(110));
    assert_eq!(vm.execution_interface.raw_get_data(&digest(5)), Ok(vec![32]));
}

#[test]
fn cached_steps_are_as_executed_ones() {
    let step = || with_block(1, 0, 77, vec![operation(Some(91), 31, 5)]);
    let mut executed = vm();
    run_final(&mut executed, step());
    let mut cached = vm();
    run_active(&mut cached, step());
    assert!(is_done(cached.run_final_step(step(), 10)));
    for vm in [&executed, &cached] {
        assert_eq!(final_balance(vm, SENDER), Some(105));
        assert_eq!(final_balance(vm, CREATOR), Some(30));
        assert_eq!(final_data(vm, SENDER), Some(vec![31]));
        assert_eq!(vm.get_bootstrap_state().slot, Slot::new(1, 0));
        assert_eq!(vm.step_history.len(), 0);
        // the event of the step is final, and found
        assert_eq!(vm.final_events.len(), 1);
        let slot = Some(Slot::new(1, 0));
        assert_eq!(events(vm, slot, Some(Slot::new(1, 1)), None), vec!["31"]);
    }
}

#[test]
fn other_final_steps_drop_the_history() {
    for step in [
        with_block(1, 0, 80, vec![]),
        miss(1, 0),
        with_block(1, 1, 77, vec![]),
    ] {
        let mut vm = vm();
        run_active(&mut vm, with_block(1, 0, 77, vec![operation(Some(91), 31, 5)]));
        run_active(&mut vm, miss(1, 1));
        let slot = step.slot;
        run_final(&mut vm, step);
        assert_eq!(vm.step_history.len(), 0);
        assert_eq!(final_balance(&vm, SENDER), Some(100));
        assert_eq!(vm.get_bootstrap_state().slot, slot);
    }
    let mut vm = vm();
    run_active(&mut vm, miss(1, 0));
    assert!(is_done(vm.run_final_step(miss(1, 0), 10)));
}

#[test]
fn active_steps_replace_later_ones() {
    let mut vm = vm();
    run_active(&mut vm, miss(1, 0));
    run_active(&mut vm, with_block(1, 1, 77, vec![operation(Some(91), 31, 5)]));
    run_active(&mut vm, miss(2, 0));
    assert_eq!(history(&vm), vec![Slot::new(1, 0), Slot::new(1, 1), Slot::new(2, 0)]);
    run_active(&mut vm, miss(1, 1));
    assert_eq!(history(&vm), vec![Slot::new(1, 0), Slot::new(1, 1)]);
    assert_eq!(vm.step_history[1].opt_block_id, None);
    run_active(&mut vm, miss(1, 0));
    assert_eq!(history(&vm), vec![Slot::new(1, 0)]);
    vm.reset_to_final();
    assert_eq!(vm.step_history.len(), 0);
}

#[test]
fn read_only_runs_leave_no_trace() {
    let mut vm = vm();
    run_active(&mut vm, with_block(1, 0, 77, vec![operation(Some(91), 31, 5)]));
    for success in [true, false] {
        let progress =
            vm.run_read_only(Slot::new(9, 1), 6, Amount::from_raw(4), vec![7, 8], address(SENDER));
        let (_, pending) = wants_digest(progress);
        let (bytecode, max_gas, pending) = wants_run(vm.provide_seed(pending, [0u8; 32]));
        assert_eq!((bytecode, max_gas), (vec![7, 8], 6));
        let interface = &mut vm.execution_interface;
        assert!(interface.context.read_only);
        assert_eq!(interface.context.gas_price, Amount::from_raw(4));
        assert_eq!(interface.get_call_coins(), Ok(0));
        assert_eq!(interface.get_balance(), Ok(105));
        assert_eq!(interface.transfer_coins(address(3), 20), Ok(()));
        assert_eq!(interface.generate_event(SCOutputEventId(digest(70)), "x".to_string()), Ok(()));
        let response = answer(vm.provide_run_result(pending, success));
        assert_eq!(response.executed_at, Slot::new(9, 1));
        assert_eq!(response.output_events.len(), 1);
        assert!(response.output_events[0].context.read_only);
        match response.result {
            ReadOnlyResult::Success => assert!(success),
            ReadOnlyResult::Error(text) => {
                assert!(!success);
                assert_eq!(text, "Failed to run in read-only mode");
            }
        }
        assert_eq!(vm.execution_interface.context.events.len(), 0);
        assert_eq!(history(&vm), vec![Slot::new(1, 0)]);
        assert_eq!(final_balance(&vm, SENDER), Some(100));
    }
    // nor does the next step see anything of them
    run_active(&mut vm, with_block(1, 1, 78, vec![operation(Some(92), 32, 0)]));
    assert!(is_done(vm.run_final_step(with_block(1, 0, 77, vec![]), 10)));
    assert!(is_done(vm.run_final_step(with_block(1, 1, 78, vec![]), 10)));
    assert_eq!(final_balance(&vm, SENDER), Some(105));
    assert_eq!(final_balance(&vm, 3), None);
}

#[test]
fn events_of_history_and_final_ones_are_found() {
    let mut vm = vm();
    run_active(&mut vm, with_block(1, 0, 77, vec![operation(Some(91), 31, 5)]));
    run_active(&mut vm, with_block(1, 1, 78, vec![operation(Some(92), 32, 5)]));
    vm.final_events.insert(final_event(40, 0));
    let slot = Slot::new;
    assert_eq!(events(&vm, None, Some(slot(2, 0)), None), vec!["31", "32", "final 40"]);
    assert_eq!(events(&vm, Some(slot(1, 0)), Some(slot(1, 1)), None), vec!["31"]);
    // by default, up to the latest slot now
    assert_eq!(events(&vm, None, None, Some(6_500)), vec!["31", "final 40"]);
    assert_eq!(events(&vm, Some(slot(1, 1)), None, Some(7_000)), vec!["32"]);
    let nothing: Vec<String> = vec![];
    assert_eq!(events(&vm, None, None, Some(4_999)), nothing);
    assert_eq!(events(&vm, None, None, None), nothing);
    let found = vm.get_filtered_sc_output_event(
        None,
        Some(slot(2, 0)),
        Some(address(SENDER)),
        Some(address(SENDER)),
        Some(OperationId(digest(92))),
        None,
    );
    assert_eq!(found.len(), 1);
    assert_eq!(found[0].data, "32");
}

#[test]
fn final_events_are_pruned() {
    let mut vm = vm();
    vm.final_events.insert(final_event(41, 3));
    vm.final_events.insert(final_event(42, 1));
    let progress = vm.run_final_step(miss(5, 0), 1);
    complete(&mut vm, progress);
    assert_eq!(vm.final_events.len(), 1);
    assert_eq!(vm.final_events.export()[0].data, "final 41");
    // the event of a later step pushes the older one out
    let step = with_block(6, 0, 77, vec![operation(Some(91), 31, 5)]);
    let progress = vm.run_final_step(step, 1);
    complete(&mut vm, progress);
    assert_eq!(vm.final_events.len(), 1);
    assert_eq!(vm.final_events.export()[0].data, "31");
}

#[test]
fn events_of_a_step_are_numbered_without_a_gap() {
    let mut vm = vm();
    let operations = vec![
        operation(Some(91), 31, 0),
        operation(Some(92), 32, 0),
        operation(Some(93), 33, 0),
    ];
    let (_, pending) = wants_digest(vm.run_active_step(with_block(1, 0, 77, operations)));
    let mut progress = vm.provide_seed(pending, [0u8; 32]);
    for (id, success) in [(61u8, true), (62, false), (63, true)] {
        let (_, _, pending) = wants_run(progress);
        let event = SCOutputEventId(digest(id));
        assert_eq!(vm.execution_interface.generate_event(event, format!("{}", id)), Ok(()));
        progress = vm.provide_run_result(pending, success);
    }
    assert!(is_done(progress));
    let found = vm.step_history[0].events.export();
    assert_eq!(found.len(), 2);
    for (i, (event, operation)) in found.iter().zip([91u8, 93]).enumerate() {
        assert_eq!(event.context.index_in_slot, i as u64);
        assert_eq!(event.context.slot, Slot::new(1, 0));
        assert_eq!(event.context.block, Some(BlockId(digest(77))));
        assert!(!event.context.read_only);
        assert_eq!(event.context.origin_operation_id, Some(OperationId(digest(operation))));
    }
}

#[test]
fn read_only_runs_are_not_noticed() {
    let step = || with_block(1, 1, 78, vec![operation(Some(92), 32, 5)]);
    let mut without = vm();
    run_active(&mut without, miss(1, 0));
    let mut with = vm();
    run_active(&mut with, miss(1, 0));
    let progress =
        with.run_read_only(Slot::new(9, 1), 6, Amount::from_raw(4), vec![7], address(SENDER));
    complete(&mut with, progress);
    for vm in [&mut without, &mut with] {
        run_active(vm, step());
        assert!(is_done(vm.run_final_step(miss(1, 0), 10)));
        assert!(is_done(vm.run_final_step(step(), 10)));
        assert_eq!(final_balance(vm, SENDER), Some(105));
        assert_eq!(final_data(vm, SENDER), Some(vec![32]));
        assert_eq!(events(vm, None, Some(Slot::new(9, 0)), None), vec!["32"]);
    }
}

#[test]
fn adjoining_queries_add_up() {
    let mut vm = vm();
    run_active(&mut vm, with_block(1, 0, 77, vec![operation(Some(91), 31, 5)]));
    run_active(&mut vm, with_block(1, 1, 78, vec![operation(Some(92), 32, 5)]));
    vm.final_events.insert(final_event(40, 0));
    let (a, b, c) = (Slot::new(0, 0), Slot::new(1, 1), Slot::new(2, 0));
    let whole = events(&vm, Some(a), Some(c), None);
    let first = events(&vm, Some(a), Some(b), None);
    let second = events(&vm, Some(b), Some(c), None);
    assert_eq!(first, vec!["31", "final 40"]);
    assert_eq!(second, vec!["32"]);
    assert_eq!(whole.len(), first.len() + second.len());
    let nothing: Vec<String> = vec![];
    assert_eq!(events(&vm, Some(b), Some(a), None), nothing);
    // asking for less only adds
    let narrow = vm.get_filtered_sc_output_event(
        Some(a),
        Some(c),
        None,
        None,
        Some(OperationId(digest(91))),
        None,
    );
    assert_eq!(narrow.len(), 1);
    assert!(whole.contains(&narrow[0].data));
}

#[test]
fn executing_ahead_makes_no_difference() {
    let steps = || {
        vec![
            with_block(1, 0, 77, vec![operation(Some(91), 31, 5)]),
            miss(1, 1),
            with_block(2, 0, 78, vec![operation(Some(92), 32, 6)]),
        ]
    };
    let mut executed = vm();
    for step in steps() {
        run_final(&mut executed, step);
    }
    let mut ahead = vm();
    for step in steps() {
        run_active(&mut ahead, step);
    }
    assert_eq!(ahead.step_history.len(), 3);
    for step in steps() {
        assert!(is_done(ahead.run_final_step(step, 10)));
    }
    for vm in [&executed, &ahead] {
        assert_eq!(final_balance(vm, SENDER), Some(111));
        assert_eq!(final_balance(vm, CREATOR), Some(60));
        assert_eq!(final_data(vm, SENDER), Some(vec![32]));
        assert_eq!(vm.get_bootstrap_state().slot, Slot::new(2, 0));
        assert_eq!(vm.step_history.len(), 0);
        assert_eq!(events(vm, None, Some(Slot::new(9, 0)), None), vec!["31", "32"]);
    }
}

#[test]
fn entries_of_the_final_ledger() {
    let mut vm = vm();
    run_final(&mut vm, with_block(1, 0, 77, vec![operation(Some(91), 31, 5)]));
    run_active(&mut vm, with_block(1, 1, 78, vec![operation(Some(92), 32, 5)]));
    let infos = vm.get_sce_ledger_entry_for_addresses(vec![
        address(SENDER),
        address(8),
        address(SENDER),
    ]);
    assert_eq!(infos.len(), 2);
    let sender = infos.get(&address(SENDER)).unwrap();
    assert_eq!(sender.balance, Amount::from_raw(105));
    assert_eq!(sender.module, None);
    assert_eq!(sender.datastore.get(&digest(5)), Some(&vec![31]));
    let nobody = infos.get(&address(8)).unwrap();
    assert_eq!(nobody.balance, Amount::zero());
    assert_eq!(nobody.datastore.len(), 0);
}
