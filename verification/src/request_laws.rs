//! What each request of a contract does and answers, said of the parts of the context.

use crate::error::{ExecutionError, InterfaceError};
use crate::interface_impl::{call_addresses, creation_bytes, InterfaceModel};
use crate::interface_laws::{after_call, after_calls, lemma_calls_keep_frame, ContractCall};
use crate::ledger_laws::lemma_transfer_errors;
use crate::ledger_step::{
    lemma_transfer_conserves_coins, lemma_with_data, lemma_with_module, BalanceError,
    LedgerStepModel, TransferError,
};
use crate::models::{Address, Amount, BlockId, Digest, OperationId, SCOutputEventId, Slot};
use crate::rng::drawn_from;
use crate::timeslots::slot_millis;
use crate::trace_laws::named_calls;
use crate::types::{ContextModel, DataModel, StackModel};
use vstd::prelude::*;

verus! {

/// Whether `amount` went from one address to another, and nothing else changed that a step shows.
pub open spec fn moved(
    before: LedgerStepModel,
    after: LedgerStepModel,
    from: Address,
    to: Address,
    amount: Amount,
) -> bool {
    &&& from != to ==> after.balance(from).raw == before.balance(from).raw - amount.raw
    &&& from != to ==> after.balance(to).raw == before.balance(to).raw + amount.raw
    &&& from == to ==> after.balance(from) == before.balance(from)
    &&& forall|a: Address|
        a != from && a != to ==> #[trigger] after.balance(a) == before.balance(a)
    &&& forall|a: Address| #[trigger] after.module(a) == before.module(a)
    &&& forall|a: Address, key: Digest| #[trigger] after.data(a, key) == before.data(a, key)
}

/// Whether both steps show the same.
pub open spec fn untouched(before: LedgerStepModel, after: LedgerStepModel) -> bool {
    &&& forall|a: Address| #[trigger] after.balance(a) == before.balance(a)
    &&& forall|a: Address| #[trigger] after.module(a) == before.module(a)
    &&& forall|a: Address, key: Digest| #[trigger] after.data(a, key) == before.data(a, key)
}

/// Whether `after` differs from `before` at most in the changes that the step caused.
pub open spec fn only_causes(before: ContextModel, after: ContextModel) -> bool {
    after == (ContextModel {
        ledger_step: LedgerStepModel {
            caused_changes: after.ledger_step.caused_changes,
            ..before.ledger_step
        },
        ..before
    })
}

/// What moving coins does: it succeeds just where the source has them and the destination has
/// room. A transfer that fails leaves every balance, and one that lacks coins everything.
pub proof fn lemma_moving_coins(context: ContextModel, from: Address, to: Address, amount: Amount)
    ensures
        ({
            let (after, res) = context.after_transfer(from, to, amount);
            let step = context.ledger_step;
            let lacking = step.balance(from).raw < amount.raw;
            let full = from != to && step.balance(to).raw + amount.raw > u64::MAX;
            &&& only_causes(context, after)
            &&& lacking ==> res == Err::<(), InterfaceError>(
                InterfaceError::Transfer(TransferError::Debit(BalanceError::Underflow)),
            ) && after == context
            &&& !lacking && full ==> res == Err::<(), InterfaceError>(
                InterfaceError::Transfer(TransferError::Credit(BalanceError::Overflow)),
            ) && untouched(step, after.ledger_step)
            &&& !lacking && !full ==> res == Ok::<(), InterfaceError>(()) && moved(
                step,
                after.ledger_step,
                from,
                to,
                amount,
            )
        }),
{
    lemma_transfer_conserves_coins(context.ledger_step, from, to, amount);
    lemma_transfer_errors(context.ledger_step, from, to, amount);
}

/// A call of an address: it succeeds just where the address has a module, there is a current
/// call, and the coins can be moved from there. It returns the module of the called address,
/// whoever calls, moves the coins, and puts a call on the stack that owns just that address. The
/// calls below stay, and so does everything else.
pub proof fn lemma_init_call(context: ContextModel, to: Address, coins: Amount)
    ensures
        ({
            let (after, res) = context.after_init_call(to, coins);
            let step = context.ledger_step;
            let depth = context.stack.len() as int;
            let from = context.stack[depth - 1].address;
            let lacking = step.balance(from).raw < coins.raw;
            let full = from != to && step.balance(to).raw + coins.raw > u64::MAX;
            if step.module(to) is None {
                res == Err::<Seq<u8>, InterfaceError>(InterfaceError::BytecodeNotFound) && after
                    == context
            } else if depth == 0 {
                res == Err::<Seq<u8>, InterfaceError>(InterfaceError::NoCurrentAddress) && after
                    == context
            } else if lacking {
                res == Err::<Seq<u8>, InterfaceError>(
                    InterfaceError::Transfer(TransferError::Debit(BalanceError::Underflow)),
                ) && after == context
            } else if full {
                &&& res == Err::<Seq<u8>, InterfaceError>(
                    InterfaceError::Transfer(TransferError::Credit(BalanceError::Overflow)),
                )
                &&& only_causes(context, after)
                &&& untouched(step, after.ledger_step)
            } else {
                &&& res is Ok
                &&& step.module(to) == Some(res->Ok_0)
                &&& moved(step, after.ledger_step, from, to, coins)
                &&& after.stack.len() == depth + 1
                &&& after.stack.take(depth) == context.stack
                &&& after.stack[depth].address == to
                &&& after.stack[depth].coins == coins
                &&& after.stack[depth].owned_addresses.len() == 1
                &&& after.stack[depth].owned_addresses[0] == to
                &&& only_causes(context, (ContextModel { stack: context.stack, ..after }))
            }
        }),
{
    let (after, res) = context.after_init_call(to, coins);
    if context.stack.len() > 0 {
        let from = context.stack.last().address;
        lemma_moving_coins(context, from, to, coins);
        if res is Ok {
            assert(after.stack.take(context.stack.len() as int) =~= context.stack);
        }
    }
}

/// Finishing takes the last call off the stack and changes nothing else. Without a call it fails.
pub proof fn lemma_finish_call(context: ContextModel)
    ensures
        ({
            let (after, res) = context.after_finish_call();
            let depth = context.stack.len() as int;
            if depth == 0 {
                res == Err::<(), InterfaceError>(InterfaceError::CallStackOutOfBounds) && after
                    == context
            } else {
                &&& res == Ok::<(), InterfaceError>(())
                &&& after.stack == context.stack.take(depth - 1)
                &&& after == (ContextModel { stack: after.stack, ..context })
            }
        }),
{
    if context.stack.len() > 0 {
        assert(context.stack.drop_last() =~= context.stack.take(context.stack.len() - 1));
    }
}

/// Creating a module writes it at the address, and nothing else into the ledger. The current call
/// then owns the address besides those it owned, and the next index is one more. Without a
/// current call the module is written, but nobody owns it and no index is used up.
pub proof fn lemma_create_module(context: ContextModel, address: Address, module: Seq<u8>)
    requires
        context.stack.len() > 0 ==> context.created_addr_index < u64::MAX,
    ensures
        ({
            let (after, res) = context.after_create_module(address, module);
            let before = context.ledger_step;
            let depth = context.stack.len() as int;
            &&& after.ledger_step.module(address) == Some(module)
            &&& forall|a: Address|
                a != address ==> #[trigger] after.ledger_step.module(a) == before.module(a)
            &&& forall|a: Address| #[trigger] after.ledger_step.balance(a) == before.balance(a)
            &&& forall|a: Address, key: Digest| #[trigger]
                after.ledger_step.data(a, key) == before.data(a, key)
            &&& if depth == 0 {
                &&& res == Err::<Address, InterfaceError>(InterfaceError::NoOwner)
                &&& only_causes(context, after)
            } else {
                let owner = context.stack[depth - 1];
                &&& res == Ok::<Address, InterfaceError>(address)
                &&& after.created_addr_index == context.created_addr_index + 1
                &&& after.stack.len() == depth
                &&& after.stack.take(depth - 1) == context.stack.take(depth - 1)
                &&& after.stack[depth - 1].address == owner.address
                &&& after.stack[depth - 1].coins == owner.coins
                &&& after.stack[depth - 1].owned_addresses == owner.owned_addresses.push(address)
                &&& only_causes(
                    context,
                    (ContextModel {
                        stack: context.stack,
                        created_addr_index: context.created_addr_index,
                        ..after
                    }),
                )
            }
        }),
{
    let after = context.after_create_module(address, module).0;
    lemma_with_module(context.ledger_step, address, Some(module));
    let depth = context.stack.len() as int;
    if depth > 0 {
        assert(after.stack.take(depth - 1) =~= context.stack.take(depth - 1));
    }
}

/// Whether just one row of a datastore was written, with `value`.
pub open spec fn wrote(
    before: LedgerStepModel,
    after: LedgerStepModel,
    address: Address,
    key: Digest,
    value: Seq<u8>,
) -> bool {
    &&& after.data(address, key) == Some(value)
    &&& forall|a: Address, k: Digest|
        a != address || k != key ==> #[trigger] after.data(a, k) == before.data(a, k)
    &&& forall|a: Address| #[trigger] after.balance(a) == before.balance(a)
    &&& forall|a: Address| #[trigger] after.module(a) == before.module(a)
}

/// Writing into the datastore of an address succeeds just where the last call on the stack owns
/// the address, and then writes just that row. Else nothing changes.
pub proof fn lemma_set_data_for(
    context: ContextModel,
    address: Address,
    key: Digest,
    value: Seq<u8>,
)
    ensures
        ({
            let (after, res) = context.after_set_data_for(address, key, value);
            let depth = context.stack.len() as int;
            let owned = depth > 0 && exists|i: int|
                0 <= i < context.stack[depth - 1].owned_addresses.len()
                    && #[trigger] context.stack[depth - 1].owned_addresses[i] == address;
            &&& owned ==> {
                &&& res == Ok::<(), InterfaceError>(())
                &&& wrote(context.ledger_step, after.ledger_step, address, key, value)
                &&& only_causes(context, after)
            }
            &&& !owned ==> res == Err::<(), InterfaceError>(InterfaceError::WriteAccessDenied)
                && after == context
        }),
{
    lemma_with_data(context.ledger_step, address, key, value);
}

/// Writing into the own datastore writes just that row of the address of the last call on the
/// stack. Without a call nothing changes.
pub proof fn lemma_set_data(context: ContextModel, key: Digest, value: Seq<u8>)
    ensures
        ({
            let (after, res) = context.after_set_data(key, value);
            let depth = context.stack.len() as int;
            if depth == 0 {
                res == Err::<(), InterfaceError>(InterfaceError::NoCurrentAddress) && after
                    == context
            } else {
                let address = context.stack[depth - 1].address;
                &&& res == Ok::<(), InterfaceError>(())
                &&& wrote(context.ledger_step, after.ledger_step, address, key, value)
                &&& only_causes(context, after)
            }
        }),
{
    if context.stack.len() > 0 {
        lemma_with_data(context.ledger_step, context.stack.last().address, key, value);
    }
}

/// Sending coins sends them from the address of the last call on the stack.
pub proof fn lemma_transfer_coins(context: ContextModel, to: Address, amount: Amount)
    ensures
        ({
            let (after, res) = context.after_transfer_coins(to, amount);
            let depth = context.stack.len() as int;
            let step = context.ledger_step;
            let from = context.stack[depth - 1].address;
            let lacking = step.balance(from).raw < amount.raw;
            let full = from != to && step.balance(to).raw + amount.raw > u64::MAX;
            &&& only_causes(context, after)
            &&& if depth == 0 {
                res == Err::<(), InterfaceError>(InterfaceError::NoCurrentAddress) && after
                    == context
            } else if lacking {
                res == Err::<(), InterfaceError>(
                    InterfaceError::Transfer(TransferError::Debit(BalanceError::Underflow)),
                ) && after == context
            } else if full {
                res == Err::<(), InterfaceError>(
                    InterfaceError::Transfer(TransferError::Credit(BalanceError::Overflow)),
                ) && untouched(step, after.ledger_step)
            } else {
                res == Ok::<(), InterfaceError>(()) && moved(
                    step,
                    after.ledger_step,
                    from,
                    to,
                    amount,
                )
            }
        }),
{
    if context.stack.len() > 0 {
        lemma_moving_coins(context, context.stack.last().address, to, amount);
    }
}

/// Sending coins of another address is refused unless the last call on the stack owns it.
pub proof fn lemma_transfer_coins_for(
    context: ContextModel,
    from: Address,
    to: Address,
    amount: Amount,
)
    ensures
        ({
            let (after, res) = context.after_transfer_coins_for(from, to, amount);
            let depth = context.stack.len() as int;
            let owned = depth > 0 && exists|i: int|
                0 <= i < context.stack[depth - 1].owned_addresses.len()
                    && #[trigger] context.stack[depth - 1].owned_addresses[i] == from;
            let step = context.ledger_step;
            let lacking = step.balance(from).raw < amount.raw;
            let full = from != to && step.balance(to).raw + amount.raw > u64::MAX;
            &&& only_causes(context, after)
            &&& if !owned {
                res == Err::<(), InterfaceError>(InterfaceError::SpendingAccessDenied) && after
                    == context
            } else if lacking {
                res == Err::<(), InterfaceError>(
                    InterfaceError::Transfer(TransferError::Debit(BalanceError::Underflow)),
                ) && after == context
            } else if full {
                res == Err::<(), InterfaceError>(
                    InterfaceError::Transfer(TransferError::Credit(BalanceError::Overflow)),
                ) && untouched(step, after.ledger_step)
            } else {
                res == Ok::<(), InterfaceError>(()) && moved(
                    step,
                    after.ledger_step,
                    from,
                    to,
                    amount,
                )
            }
        }),
{
    lemma_moving_coins(context, from, to, amount);
}

/// An event is stamped with where and when it was generated: slot, block, addresses of the call
/// stack from the first to the last, kind of execution, number in the slot and operation.
pub proof fn lemma_stamp(context: ContextModel, id: SCOutputEventId, data: Seq<char>, i: int)
    ensures
        ({
            let event = context.stamped_event(id, data);
            &&& event.id == id
            &&& event.data == data
            &&& event.slot == context.slot
            &&& event.block == context.opt_block_id
            &&& event.read_only == context.read_only
            &&& event.index_in_slot == context.created_event_index
            &&& event.origin_operation_id == context.origin_operation_id
            &&& event.call_stack.len() == context.stack.len()
            &&& 0 <= i < context.stack.len() ==> event.call_stack[i] == context.stack[i].address
        }),
{
}

/// Generating an event adds it last, unless its identifier is taken, counts it, and changes
/// nothing else.
pub proof fn lemma_generate_event(context: ContextModel, id: SCOutputEventId, data: Seq<char>)
    requires
        context.created_event_index < u64::MAX,
    ensures
        ({
            let after = context.after_generate_event(id, data);
            let taken = exists|i: int|
                0 <= i < context.events.len() && (#[trigger] context.events[i]).id == id;
            &&& after.created_event_index == context.created_event_index + 1
            &&& taken ==> after.events == context.events
            &&& !taken ==> after.events == context.events.push(context.stamped_event(id, data))
            &&& after == (ContextModel {
                events: after.events,
                created_event_index: after.created_event_index,
                ..context
            })
        }),
{
}

/// Drawing a number moves the generator on and changes nothing else.
pub proof fn lemma_unsafe_random(context: ContextModel)
    ensures
        ({
            let after = context.after_unsafe_random();
            &&& after.unsafe_rng == drawn_from(context.unsafe_rng).1
            &&& after == (ContextModel { unsafe_rng: after.unsafe_rng, ..context })
        }),
{
}

/// What a contract reads of itself is what the address of the last call on the stack has, the
/// coins of that call and the addresses it owns.
pub proof fn lemma_own_reads(context: ContextModel, key: Digest)
    ensures
        context.stack.len() > 0 ==> {
            let call = context.stack[context.stack.len() - 1];
            let step = context.ledger_step;
            &&& context.current_address() == Ok::<Address, InterfaceError>(call.address)
            &&& context.own_balance() == Ok::<u64, InterfaceError>(step.balance(call.address).raw)
            &&& context.has_own_data(key) == Ok::<bool, InterfaceError>(
                step.data(call.address, key) is Some,
            )
            &&& step.data(call.address, key) matches Some(value) ==> context.own_data(key) == Ok::<
                Seq<u8>,
                InterfaceError,
            >(value)
            &&& step.data(call.address, key) is None ==> context.own_data(key) == Err::<
                Seq<u8>,
                InterfaceError,
            >(InterfaceError::DataEntryNotFound)
            &&& context.call_coins() == call.coins.raw
            &&& context.owned_addresses() == Ok::<Seq<Address>, InterfaceError>(
                call.owned_addresses,
            )
        },
        context.stack.len() == 0 ==> {
            let error = InterfaceError::NoCurrentAddress;
            &&& context.current_address() == Err::<Address, InterfaceError>(error)
            &&& context.own_balance() == Err::<u64, InterfaceError>(error)
            &&& context.has_own_data(key) == Err::<bool, InterfaceError>(error)
            &&& context.own_data(key) == Err::<Seq<u8>, InterfaceError>(error)
            &&& context.call_coins() == 0
            &&& context.owned_addresses() == Err::<Seq<Address>, InterfaceError>(
                InterfaceError::OwnedAddressesOutOfBounds,
            )
        },
{
}

/// The last call on the stack owns just the addresses that are in its list.
pub proof fn lemma_owns(context: ContextModel, address: Address)
    ensures
        context.owns(address) <==> context.stack.len() > 0 && exists|i: int|
            0 <= i < context.stack[context.stack.len() - 1].owned_addresses.len()
                && #[trigger] context.stack[context.stack.len() - 1].owned_addresses[i] == address,
{
}

/// What is read of an address is what the ledger has of it.
pub proof fn lemma_data_for(context: ContextModel, address: Address, key: Digest)
    ensures
        context.ledger_step.data(address, key) matches Some(value) ==> context.data_for(
            address,
            key,
        ) == Ok::<Seq<u8>, InterfaceError>(value),
        context.ledger_step.data(address, key) is None ==> context.data_for(address, key) == Err::<
            Seq<u8>,
            InterfaceError,
        >(InterfaceError::DataEntryNotFound),
{
}

/// The addresses of a call stack come in its order.
pub proof fn lemma_call_addresses(stack: Seq<StackModel>, i: int)
    ensures
        call_addresses(stack).len() == stack.len(),
        0 <= i < stack.len() ==> call_addresses(stack)[i] == stack[i].address,
{
}

/// The time of an execution is that of its slot, where there are threads and it fits.
pub proof fn lemma_time(interface: InterfaceModel)
    ensures
        ({
            let millis = slot_millis(
                interface.thread_count,
                interface.t0,
                interface.genesis_timestamp,
                interface.context.slot,
            );
            &&& interface.time() matches Ok(time) ==> interface.thread_count != 0 && time == millis
            &&& interface.time() matches Err(error) ==> error == InterfaceError::TimeOverflow && (
            interface.thread_count == 0 || millis > u64::MAX)
        }),
{
}

/// Putting a context into an interface changes nothing else of it.
pub proof fn lemma_interface_with_context(interface: InterfaceModel, context: ContextModel)
    ensures
        interface.with_context(context).context == context,
        interface.with_context(context).thread_count == interface.thread_count,
        interface.with_context(context).t0 == interface.t0,
        interface.with_context(context).genesis_timestamp == interface.genesis_timestamp,
{
}

/// The text of a failed credit is that of the balance error, and says where it arose. An error of
/// the file of the initial ledger says what went wrong.
pub proof fn lemma_error_texts(error: BalanceError, text: String)
    ensures
        InterfaceError::Transfer(TransferError::Credit(error)).text()
            == "Error crediting destination balance: "@ + InterfaceError::Transfer(
            TransferError::Debit(error),
        ).text(),
        InterfaceError::Transfer(TransferError::Debit(BalanceError::Overflow)).text()
            == "balance overflow"@,
        InterfaceError::Transfer(TransferError::Debit(BalanceError::Underflow)).text()
            == "balance underflow"@,
        ExecutionError::FileError(text).text() == text@,
{
}

/// What a run says in events, in order.
pub open spec fn said(calls: Seq<ContractCall>) -> Seq<Seq<char>>
    decreases calls.len(),
{
    if calls.len() == 0 {
        Seq::empty()
    } else {
        match calls.last() {
            ContractCall::GenerateEvent { data, .. } => said(calls.drop_last()).push(data),
            _ => said(calls.drop_last()),
        }
    }
}

/// Whether the identifiers of the events of a slot do not collide, for one kind of execution.
pub open spec fn ids_do_not_collide(
    digest: spec_fn(Seq<u8>) -> Digest,
    slot: Slot,
    read_only: bool,
) -> bool {
    forall|i: u64, j: u64|
        #![trigger
            digest(creation_bytes(slot, i, read_only)),
            digest(creation_bytes(slot, j, read_only))]
        digest(creation_bytes(slot, i, read_only)) == digest(creation_bytes(slot, j, read_only))
            ==> i == j
}

/// Every event that a run generates is kept, in order, with what it says: a run on a context
/// without events leaves as many events as it generated, and the i-th says what the i-th said.
pub proof fn lemma_run_keeps_every_event(
    context: ContextModel,
    calls: Seq<ContractCall>,
    digest: spec_fn(Seq<u8>) -> Digest,
)
    requires
        context.events.len() == 0,
        context.created_event_index == 0,
        ids_do_not_collide(digest, context.slot, context.read_only),
        named_calls(context, calls, digest),
    ensures
        ({
            let events = after_calls(context, calls).events;
            &&& events.len() == said(calls).len()
            &&& forall|i: int|
                0 <= i < events.len() ==> {
                    &&& (#[trigger] events[i]).data == said(calls)[i]
                    &&& events[i].index_in_slot == i
                    &&& events[i].slot == context.slot
                    &&& events[i].block == context.opt_block_id
                    &&& events[i].read_only == context.read_only
                    &&& events[i].origin_operation_id == context.origin_operation_id
                    &&& events[i].id.0 == digest(
                        creation_bytes(context.slot, i as u64, context.read_only),
                    )
                }
        }),
        after_calls(context, calls).created_event_index == said(calls).len(),
    decreases calls.len(),
{
    if calls.len() > 0 {
        let earlier = calls.drop_last();
        lemma_run_keeps_every_event(context, earlier, digest);
        lemma_calls_keep_frame(context, earlier);
        let before = after_calls(context, earlier);
        if let ContractCall::GenerateEvent { id, data } = calls.last() {
            let index = before.created_event_index;
            assert forall|i: int| 0 <= i < before.events.len() implies (
            #[trigger] before.events[i]).id != id by {
                if before.events[i].id == id {
                    assert(digest(
                        creation_bytes(context.slot, i as u64, context.read_only),
                    ) == digest(creation_bytes(context.slot, index, context.read_only)));
                }
            }
            lemma_generate_event(before, id, data);
        }
    }
}

/// However deep a run calls, the first call on the stack stays the one it began with, and every
/// event that it generates has that address first in its call stack, as long as there is a call
/// at all. The events that were there stay.
pub proof fn lemma_events_name_first_caller(
    context: ContextModel,
    calls: Seq<ContractCall>,
    sender: Address,
)
    requires
        context.stack.len() > 0,
        context.stack[0].address == sender,
    ensures
        ({
            let after = after_calls(context, calls);
            &&& after.stack.len() > 0 ==> after.stack[0].address == sender
            &&& after.events.len() >= context.events.len()
            &&& after.events.take(context.events.len() as int) == context.events
            &&& forall|i: int|
                context.events.len() <= i < after.events.len() && (
                #[trigger] after.events[i]).call_stack.len() > 0 ==> after.events[i].call_stack[0]
                    == sender
        }),
    decreases calls.len(),
{
    let after = after_calls(context, calls);
    let count = context.events.len() as int;
    if calls.len() == 0 {
        assert(context.events.take(count) =~= context.events);
    } else {
        let earlier = calls.drop_last();
        lemma_events_name_first_caller(context, earlier, sender);
        let before = after_calls(context, earlier);
        assert(after == after_call(before, calls.last()));
        assert(after.events.take(count) =~= before.events.take(count));
    }
}

/// The events of an operation name its sender: the run of a prepared operation begins with the
/// sender as the only one on the call stack, and so every event that it generates while there is
/// a call has the sender first in its call stack.
pub proof fn lemma_events_of_operation_name_sender(
    context: ContextModel,
    data: DataModel,
    creator: Address,
    block_id: BlockId,
    slot: Slot,
    operation: Option<OperationId>,
    operation_index: u64,
    calls: Seq<ContractCall>,
    i: int,
)
    ensures
        ({
            let prepared = context.prepared(
                data,
                creator,
                block_id,
                slot,
                operation,
                operation_index,
            );
            let events = after_calls(prepared, calls).events;
            &&& prepared.events == context.events
            &&& context.events.len() <= i < events.len() && events[i].call_stack.len() > 0
                ==> events[i].call_stack[0] == data.sender_address
        }),
{
    let prepared = context.prepared(data, creator, block_id, slot, operation, operation_index);
    lemma_events_name_first_caller(prepared, calls, data.sender_address);
}

} // verus!
