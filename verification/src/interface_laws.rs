//! What holds of everything that contracts can do through the interface.

use crate::interface_impl::{creation_bytes, module_bytes};
use crate::ledger_step::{
    lemma_transfer_conserves_coins, lemma_with_balance, lemma_with_data, lemma_with_module,
    LedgerStepModel,
};
use crate::models::{
    be_bytes, lemma_be_bytes_injective, lemma_be_bytes_len, lemma_slot_key_injective,
    lemma_slot_key_len, lemma_u64_fits, Address, Amount, BlockId, Digest, SCOutputEventId, Slot,
};
use crate::types::{fresh_call, ContextModel, StackModel};
use vstd::prelude::*;

verus! {

/// The bytes that name what is created in a slot differ for different slots, indices in a slot,
/// and kinds of execution.
pub proof fn lemma_creation_bytes_injective(
    slot_a: Slot,
    index_a: u64,
    read_only_a: bool,
    slot_b: Slot,
    index_b: u64,
    read_only_b: bool,
)
    requires
        creation_bytes(slot_a, index_a, read_only_a) == creation_bytes(
            slot_b,
            index_b,
            read_only_b,
        ),
    ensures
        slot_a == slot_b,
        index_a == index_b,
        read_only_a == read_only_b,
{
    let bytes_a = creation_bytes(slot_a, index_a, read_only_a);
    let bytes_b = creation_bytes(slot_b, index_b, read_only_b);
    lemma_slot_key_len(slot_a);
    lemma_slot_key_len(slot_b);
    lemma_be_bytes_len(index_a as nat, 8);
    lemma_be_bytes_len(index_b as nat, 8);
    assert(bytes_a.last() == bytes_b.last());
    assert(bytes_a.take(9) =~= slot_a.spec_bytes_key());
    assert(bytes_b.take(9) =~= slot_b.spec_bytes_key());
    lemma_slot_key_injective(slot_a, slot_b);
    assert(bytes_a.subrange(9, 17) =~= be_bytes(index_a as nat, 8));
    assert(bytes_b.subrange(9, 17) =~= be_bytes(index_b as nat, 8));
    lemma_u64_fits(index_a);
    lemma_u64_fits(index_b);
    lemma_be_bytes_injective(index_a as nat, index_b as nat, 8);
}

/// The bytes that name created modules differ for different blocks, positions of operations and
/// indices.
pub proof fn lemma_module_bytes_injective(
    block_a: BlockId,
    operation_a: u64,
    index_a: u64,
    block_b: BlockId,
    operation_b: u64,
    index_b: u64,
)
    requires
        module_bytes(block_a, operation_a, index_a) == module_bytes(block_b, operation_b, index_b),
    ensures
        block_a == block_b,
        operation_a == operation_b,
        index_a == index_b,
{
    let bytes_a = module_bytes(block_a, operation_a, index_a);
    let bytes_b = module_bytes(block_b, operation_b, index_b);
    lemma_be_bytes_len(operation_a as nat, 8);
    lemma_be_bytes_len(operation_b as nat, 8);
    lemma_be_bytes_len(index_a as nat, 8);
    lemma_be_bytes_len(index_b as nat, 8);
    assert(bytes_a.take(32) =~= block_a.0.bytes@);
    assert(bytes_b.take(32) =~= block_b.0.bytes@);
    assert(block_a.0.bytes =~= block_b.0.bytes);
    assert(bytes_a.subrange(32, 40) =~= be_bytes(operation_a as nat, 8));
    assert(bytes_b.subrange(32, 40) =~= be_bytes(operation_b as nat, 8));
    assert(bytes_a.subrange(40, 48) =~= be_bytes(index_a as nat, 8));
    assert(bytes_b.subrange(40, 48) =~= be_bytes(index_b as nat, 8));
    lemma_u64_fits(operation_a);
    lemma_u64_fits(operation_b);
    lemma_u64_fits(index_a);
    lemma_u64_fits(index_b);
    lemma_be_bytes_injective(operation_a as nat, operation_b as nat, 8);
    lemma_be_bytes_injective(index_a as nat, index_b as nat, 8);
}

/// Two executions ask for the address of a module under the same bytes only where they have the
/// same index and both count or both are read-only. In particular a read-only execution never
/// asks for an address under the bytes of one that counts.
pub proof fn lemma_module_address_bytes(a: ContextModel, b: ContextModel)
    requires
        a.module_address_bytes() == b.module_address_bytes(),
    ensures
        a.read_only == b.read_only,
        a.created_addr_index == b.created_addr_index,
        !a.read_only ==> a.opt_block_id == b.opt_block_id,
        !a.read_only && a.opt_block_id is Some ==> a.operation_index == b.operation_index,
        a.read_only || a.opt_block_id is None ==> a.slot == b.slot,
{
    lemma_module_address_len(a);
    lemma_module_address_len(b);
    if !a.read_only && a.opt_block_id is Some {
        lemma_module_bytes_injective(
            a.opt_block_id->0,
            a.operation_index,
            a.created_addr_index,
            b.opt_block_id->0,
            b.operation_index,
            b.created_addr_index,
        );
    } else {
        lemma_creation_bytes_injective(
            a.slot,
            a.created_addr_index,
            a.read_only,
            b.slot,
            b.created_addr_index,
            b.read_only,
        );
    }
}

proof fn lemma_module_address_len(context: ContextModel)
    ensures
        !context.read_only && context.opt_block_id is Some
            ==> context.module_address_bytes().len() == 48,
        context.read_only || context.opt_block_id is None
            ==> context.module_address_bytes().len() == 18,
{
    lemma_be_bytes_len(context.operation_index as nat, 8);
    lemma_be_bytes_len(context.created_addr_index as nat, 8);
    lemma_slot_key_len(context.slot);
}

/// A call that succeeded and is then finished leaves the call stack as it was.
pub proof fn lemma_call_and_return(context: ContextModel, to: Address, coins: Amount)
    requires
        context.after_init_call(to, coins).1 is Ok,
    ensures
        context.after_init_call(to, coins).0.stack.last() == fresh_call(to, coins),
        context.after_init_call(to, coins).0.after_finish_call().1 is Ok,
        context.after_init_call(to, coins).0.after_finish_call().0.stack == context.stack,
{
    let called = context.after_init_call(to, coins).0;
    assert(called.stack == context.stack.push(fresh_call(to, coins)));
    assert(called.stack.drop_last() =~= context.stack);
}

/// A request of a contract that can change the state of the execution.
pub enum ContractCall {
    InitCall { to: Address, coins: Amount },
    FinishCall,
    CreateModule { address: Address, module: Seq<u8> },
    SetDataFor { address: Address, key: Digest, value: Seq<u8> },
    SetData { key: Digest, value: Seq<u8> },
    TransferCoins { to: Address, amount: Amount },
    TransferCoinsFor { from: Address, to: Address, amount: Amount },
    GenerateEvent { id: SCOutputEventId, data: Seq<char> },
    UnsafeRandom,
}

/// The state after a request.
pub open spec fn after_call(context: ContextModel, call: ContractCall) -> ContextModel {
    match call {
        ContractCall::InitCall { to, coins } => context.after_init_call(to, coins).0,
        ContractCall::FinishCall => context.after_finish_call().0,
        ContractCall::CreateModule { address, module } => context.after_create_module(
            address,
            module,
        ).0,
        ContractCall::SetDataFor { address, key, value } => context.after_set_data_for(
            address,
            key,
            value,
        ).0,
        ContractCall::SetData { key, value } => context.after_set_data(key, value).0,
        ContractCall::TransferCoins { to, amount } => context.after_transfer_coins(to, amount).0,
        ContractCall::TransferCoinsFor { from, to, amount } => context.after_transfer_coins_for(
            from,
            to,
            amount,
        ).0,
        ContractCall::GenerateEvent { id, data } => context.after_generate_event(id, data),
        ContractCall::UnsafeRandom => context.after_unsafe_random(),
    }
}

/// The state after a run: requests, one after the other.
pub open spec fn after_calls(context: ContextModel, calls: Seq<ContractCall>) -> ContextModel
    decreases calls.len(),
{
    if calls.len() == 0 {
        context
    } else {
        after_call(after_calls(context, calls.drop_last()), calls.last())
    }
}

/// Whether two states agree on all that contracts have no hand in: the final ledger and its slot,
/// the history, and what is executed, when and how.
pub open spec fn same_frame(a: ContextModel, b: ContextModel) -> bool {
    &&& a.ledger_step.final_ledger_slot == b.ledger_step.final_ledger_slot
    &&& a.ledger_step.cumulative_history_changes == b.ledger_step.cumulative_history_changes
    &&& a.max_gas == b.max_gas
    &&& a.gas_price == b.gas_price
    &&& a.slot == b.slot
    &&& a.opt_block_id == b.opt_block_id
    &&& a.opt_block_creator_addr == b.opt_block_creator_addr
    &&& a.operation_index == b.operation_index
    &&& a.read_only == b.read_only
    &&& a.origin_operation_id == b.origin_operation_id
}

/// A run touches neither the final ledger nor the history, nor what is executed, when and how.
pub proof fn lemma_calls_keep_frame(context: ContextModel, calls: Seq<ContractCall>)
    ensures
        same_frame(after_calls(context, calls), context),
    decreases calls.len(),
{
    if calls.len() > 0 {
        lemma_calls_keep_frame(context, calls.drop_last());
    }
}

/// Whether every call on the stack owns its own address.
pub open spec fn calls_own_themselves(stack: Seq<StackModel>) -> bool {
    forall|i: int|
        0 <= i < stack.len() ==> (#[trigger] stack[i]).owned_addresses.contains(stack[i].address)
}

/// Every call on the stack goes on owning its own address, whatever a contract asks for.
pub proof fn lemma_call_keeps_ownership(context: ContextModel, call: ContractCall)
    requires
        calls_own_themselves(context.stack),
    ensures
        calls_own_themselves(after_call(context, call).stack),
{
    let before = context.stack;
    let after = after_call(context, call).stack;
    match call {
        ContractCall::InitCall { to, coins } => {
            assert(fresh_call(to, coins).owned_addresses[0] == to);
        },
        ContractCall::CreateModule { address, module } => {
            if before.len() > 0 {
                let owner = before.last();
                let owned = owner.owned_addresses;
                assert(before[before.len() - 1] == owner);
                let at = choose|at: int| 0 <= at < owned.len() && owned[at] == owner.address;
                assert(owned.push(address)[at] == owner.address);
                assert(after.last().owned_addresses.contains(after.last().address));
            }
        },
        _ => {},
    }
}

/// Only the creation of a module touches a module: the one at the new address.
pub proof fn lemma_call_touches_modules(context: ContextModel, call: ContractCall, address: Address)
    ensures
        after_call(context, call).ledger_step.module(address) == match call {
            ContractCall::CreateModule { address: created, module } if created == address => Some(
                module,
            ),
            _ => context.ledger_step.module(address),
        },
{
    let step = context.ledger_step;
    match call {
        ContractCall::InitCall { to, coins } => {
            if context.stack.len() > 0 {
                lemma_transfer_conserves_coins(step, context.stack.last().address, to, coins);
            }
        },
        ContractCall::CreateModule { address: created, module } => {
            lemma_with_module(step, created, Some(module));
        },
        ContractCall::SetDataFor { address: to, key, value } => {
            lemma_with_data(step, to, key, value);
        },
        ContractCall::SetData { key, value } => {
            if context.stack.len() > 0 {
                lemma_with_data(step, context.stack.last().address, key, value);
            }
        },
        ContractCall::TransferCoins { to, amount } => {
            if context.stack.len() > 0 {
                lemma_transfer_conserves_coins(step, context.stack.last().address, to, amount);
            }
        },
        ContractCall::TransferCoinsFor { from, to, amount } => {
            lemma_transfer_conserves_coins(step, from, to, amount);
        },
        _ => {},
    }
}

/// A request writes only into datastores of addresses that the current call owns, and takes coins
/// only from these.
pub proof fn lemma_call_touches_only_owned(context: ContextModel, call: ContractCall)
    requires
        calls_own_themselves(context.stack),
    ensures
        forall|address: Address, key: Digest|
            !context.owns(address) ==> #[trigger] after_call(context, call).ledger_step.data(
                address,
                key,
            ) == context.ledger_step.data(address, key),
        forall|address: Address|
            !context.owns(address) ==> #[trigger] after_call(context, call).ledger_step.balance(
                address,
            ).raw >= context.ledger_step.balance(address).raw,
{
    let step = context.ledger_step;
    if context.stack.len() > 0 {
        assert(context.stack[context.stack.len() - 1] == context.stack.last());
        assert(context.owns(context.stack.last().address));
    }
    match call {
        ContractCall::InitCall { to, coins } => {
            if context.stack.len() > 0 {
                lemma_transfer_conserves_coins(step, context.stack.last().address, to, coins);
            }
        },
        ContractCall::CreateModule { address, module } => {
            lemma_with_module(step, address, Some(module));
        },
        ContractCall::SetDataFor { address, key, value } => {
            lemma_with_data(step, address, key, value);
        },
        ContractCall::SetData { key, value } => {
            if context.stack.len() > 0 {
                lemma_with_data(step, context.stack.last().address, key, value);
            }
        },
        ContractCall::TransferCoins { to, amount } => {
            if context.stack.len() > 0 {
                lemma_transfer_conserves_coins(step, context.stack.last().address, to, amount);
            }
        },
        ContractCall::TransferCoinsFor { from, to, amount } => {
            lemma_transfer_conserves_coins(step, from, to, amount);
        },
        _ => {},
    }
}

/// The coins that `addresses` have together.
pub open spec fn total(step: LedgerStepModel, addresses: Seq<Address>) -> nat
    decreases addresses.len(),
{
    if addresses.len() == 0 {
        0
    } else {
        total(step, addresses.drop_last()) + step.balance(addresses.last()).raw as nat
    }
}

/// Whether `addresses` has every address that takes part in calls now on the stack.
pub open spec fn covers_stack(addresses: Seq<Address>, stack: Seq<StackModel>) -> bool {
    forall|i: int|
        0 <= i < stack.len() ==> {
            &&& addresses.contains((#[trigger] stack[i]).address)
            &&& forall|owned: Address|
                #[trigger] stack[i].owned_addresses.contains(owned) ==> addresses.contains(owned)
        }
}

/// Whether `addresses` has every address that a request brings in.
pub open spec fn covers_call(addresses: Seq<Address>, call: ContractCall) -> bool {
    match call {
        ContractCall::InitCall { to, .. } => addresses.contains(to),
        ContractCall::CreateModule { address, .. } => addresses.contains(address),
        ContractCall::TransferCoins { to, .. } => addresses.contains(to),
        ContractCall::TransferCoinsFor { to, .. } => addresses.contains(to),
        _ => true,
    }
}

/// Equal balances have equal totals.
proof fn lemma_total_same(a: LedgerStepModel, b: LedgerStepModel, addresses: Seq<Address>)
    requires
        forall|i: int|
            0 <= i < addresses.len() ==> #[trigger] a.balance(addresses[i]) == b.balance(
                addresses[i],
            ),
    ensures
        total(a, addresses) == total(b, addresses),
    decreases addresses.len(),
{
    if addresses.len() > 0 {
        let rest = addresses.drop_last();
        assert forall|i: int| 0 <= i < rest.len() implies #[trigger] a.balance(rest[i])
            == b.balance(rest[i]) by {
            assert(rest[i] == addresses[i]);
            assert(a.balance(addresses[i]) == b.balance(addresses[i]));
        }
        lemma_total_same(a, b, rest);
        assert(a.balance(addresses[addresses.len() - 1]) == b.balance(
            addresses[addresses.len() - 1],
        ));
    }
}

/// Where just one balance differs, the totals differ by as much.
proof fn lemma_total_one(
    a: LedgerStepModel,
    b: LedgerStepModel,
    addresses: Seq<Address>,
    address: Address,
)
    requires
        addresses.no_duplicates(),
        addresses.contains(address),
        forall|other: Address| other != address ==> #[trigger] a.balance(other) == b.balance(other),
    ensures
        total(a, addresses) - a.balance(address).raw == total(b, addresses) - b.balance(
            address,
        ).raw,
    decreases addresses.len(),
{
    let rest = addresses.drop_last();
    if addresses.last() == address {
        assert forall|i: int| 0 <= i < rest.len() implies #[trigger] a.balance(rest[i])
            == b.balance(rest[i]) by {
            assert(rest[i] == addresses[i]);
            assert(addresses[i] != addresses[addresses.len() - 1]);
        }
        lemma_total_same(a, b, rest);
    } else {
        let at = choose|at: int| 0 <= at < addresses.len() && addresses[at] == address;
        assert(rest[at] == address);
        lemma_total_one(a, b, rest, address);
    }
}

/// A transfer between addresses of a list leaves what the list has together.
pub proof fn lemma_transfer_keeps_total(
    step: LedgerStepModel,
    from: Address,
    to: Address,
    amount: Amount,
    addresses: Seq<Address>,
)
    requires
        addresses.no_duplicates(),
        addresses.contains(from),
        addresses.contains(to),
    ensures
        total(step.transferred(from, to, amount).0, addresses) == total(step, addresses),
{
    let after = step.transferred(from, to, amount).0;
    lemma_transfer_conserves_coins(step, from, to, amount);
    if step.transferred(from, to, amount).1 is Ok && from != to {
        let debited = step.debited(from, amount).0;
        lemma_with_balance(
            step,
            from,
            Amount { raw: (step.balance(from).raw - amount.raw) as u64 },
        );
        lemma_with_balance(
            debited,
            to,
            Amount { raw: (debited.balance(to).raw + amount.raw) as u64 },
        );
        lemma_total_one(debited, step, addresses, from);
        lemma_total_one(after, debited, addresses, to);
    } else {
        lemma_total_same(after, step, addresses);
    }
}

/// One request leaves the coins that all addresses concerned have together.
proof fn lemma_call_conserves_coins(
    context: ContextModel,
    call: ContractCall,
    addresses: Seq<Address>,
)
    requires
        addresses.no_duplicates(),
        covers_stack(addresses, context.stack),
        covers_call(addresses, call),
    ensures
        total(after_call(context, call).ledger_step, addresses) == total(
            context.ledger_step,
            addresses,
        ),
        covers_stack(addresses, after_call(context, call).stack),
{
    let step = context.ledger_step;
    let after = after_call(context, call);
    if context.stack.len() > 0 {
        assert(context.stack[context.stack.len() - 1] == context.stack.last());
    }
    match call {
        ContractCall::InitCall { to, coins } => {
            if context.stack.len() > 0 {
                lemma_transfer_keeps_total(
                    step,
                    context.stack.last().address,
                    to,
                    coins,
                    addresses,
                );
            }
        },
        ContractCall::CreateModule { address, module } => {
            lemma_with_module(step, address, Some(module));
            lemma_total_same(after.ledger_step, step, addresses);
            if context.stack.len() > 0 {
                let owned = context.stack.last().owned_addresses;
                assert forall|a: Address| #[trigger] owned.push(address).contains(a) implies
                    addresses.contains(a) by {
                    if a != address {
                        let at = choose|at: int|
                            0 <= at < owned.push(address).len() && owned.push(address)[at] == a;
                        assert(owned[at] == a);
                        assert(owned.contains(a));
                    }
                }
            }
        },
        ContractCall::SetDataFor { address, key, value } => {
            lemma_with_data(step, address, key, value);
            lemma_total_same(after.ledger_step, step, addresses);
        },
        ContractCall::SetData { key, value } => {
            if context.stack.len() > 0 {
                lemma_with_data(step, context.stack.last().address, key, value);
            }
            lemma_total_same(after.ledger_step, step, addresses);
        },
        ContractCall::TransferCoins { to, amount } => {
            if context.stack.len() > 0 {
                lemma_transfer_keeps_total(
                    step,
                    context.stack.last().address,
                    to,
                    amount,
                    addresses,
                );
            }
        },
        ContractCall::TransferCoinsFor { from, to, amount } => {
            if context.owns(from) {
                lemma_transfer_keeps_total(step, from, to, amount, addresses);
            }
        },
        _ => {},
    }
}

/// A run neither makes nor loses coins: what all addresses that take part in it have together
/// stays the same, whatever its contracts ask for.
pub proof fn lemma_calls_conserve_coins(
    context: ContextModel,
    calls: Seq<ContractCall>,
    addresses: Seq<Address>,
)
    requires
        addresses.no_duplicates(),
        covers_stack(addresses, context.stack),
        forall|i: int| 0 <= i < calls.len() ==> covers_call(addresses, #[trigger] calls[i]),
    ensures
        total(after_calls(context, calls).ledger_step, addresses) == total(
            context.ledger_step,
            addresses,
        ),
        covers_stack(addresses, after_calls(context, calls).stack),
    decreases calls.len(),
{
    if calls.len() > 0 {
        let rest = calls.drop_last();
        assert forall|i: int| 0 <= i < rest.len() implies covers_call(
            addresses,
            #[trigger] rest[i],
        ) by {
            assert(rest[i] == calls[i]);
        }
        lemma_calls_conserve_coins(context, rest, addresses);
        assert(calls.last() == calls[calls.len() - 1]);
        lemma_call_conserves_coins(after_calls(context, rest), calls.last(), addresses);
    }
}

} // verus!
