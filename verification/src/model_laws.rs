//! What amounts, slots, names and times are, said of their parts.

use crate::interface_impl::{creation_bytes, module_bytes};
use crate::models::{
    be_bytes, byte_range, lemma_be_bytes_len, lemma_u64_fits, Amount, BlockId, Slot,
};
use crate::timeslots::{
    latest_slot, slot_distance, slot_millis, spec_slot_count, MassaTime, TimeOverflowError,
};
use crate::types::ContextModel;
use crate::vm_model::{read_only_seed_bytes, step_seed_bytes};
use vstd::arithmetic::div_mod::lemma_fundamental_div_mod;
use vstd::prelude::*;

verus! {

/// A product that is capped is the greatest amount that is not above the product.
pub proof fn lemma_saturating_mul_is_greatest(amount: Amount, factor: u64, raw: u64)
    ensures
        raw <= amount.spec_saturating_mul(factor) <==> raw <= amount.raw * factor,
{
    let product = amount.raw * factor;
    assert(product >= 0) by (nonlinear_arith)
        requires
            product == amount.raw * factor,
    ;
}

/// Slots come in the order of their periods, and within a period in that of their threads.
pub proof fn lemma_slot_order(a: Slot, b: Slot)
    ensures
        a.spec_before(b) <==> a.period * 256 + a.thread < b.period * 256 + b.thread,
{
}

/// A range of slots holds its first one and not its last.
pub proof fn lemma_slot_range(slot: Slot, start: Slot, end: Slot)
    ensures
        slot.spec_within(start, end) <==> start.period * 256 + start.thread <= slot.period * 256
            + slot.thread < end.period * 256 + end.thread,
{
}

/// The number that bytes spell, most significant first.
pub open spec fn spelled(bytes: Seq<u8>) -> nat
    decreases bytes.len(),
{
    if bytes.len() == 0 {
        0
    } else {
        spelled(bytes.drop_last()) * 256 + bytes.last() as nat
    }
}

proof fn lemma_spelled(n: nat, width: nat)
    requires
        n < byte_range(width),
    ensures
        be_bytes(n, width).len() == width,
        spelled(be_bytes(n, width)) == n,
    decreases width,
{
    lemma_be_bytes_len(n, width);
    if width > 0 {
        lemma_spelled(n / 256, (width - 1) as nat);
        assert(be_bytes(n, width).drop_last() =~= be_bytes(n / 256, (width - 1) as nat));
    }
}

/// Eight big-endian bytes spell the number.
pub proof fn lemma_u64_spelled(n: u64)
    ensures
        be_bytes(n as nat, 8).len() == 8,
        spelled(be_bytes(n as nat, 8)) == n,
{
    lemma_u64_fits(n);
    lemma_spelled(n as nat, 8);
}

/// The key of a slot spells its period in eight bytes and has its thread in the ninth.
pub proof fn lemma_slot_key_parts(slot: Slot)
    ensures
        slot.spec_bytes_key().len() == 9,
        spelled(slot.spec_bytes_key().take(8)) == slot.period,
        slot.spec_bytes_key()[8] == slot.thread,
{
    lemma_u64_spelled(slot.period);
    assert(slot.spec_bytes_key().take(8) =~= be_bytes(slot.period as nat, 8));
}

/// The bytes that name an event: period, thread, index, and 1 where the execution counts.
pub proof fn lemma_creation_bytes_parts(slot: Slot, index: u64, read_only: bool)
    ensures
        creation_bytes(slot, index, read_only).len() == 18,
        spelled(creation_bytes(slot, index, read_only).take(8)) == slot.period,
        creation_bytes(slot, index, read_only)[8] == slot.thread,
        spelled(creation_bytes(slot, index, read_only).subrange(9, 17)) == index,
        read_only ==> creation_bytes(slot, index, read_only)[17] == 0,
        !read_only ==> creation_bytes(slot, index, read_only)[17] == 1,
{
    let bytes = creation_bytes(slot, index, read_only);
    lemma_slot_key_parts(slot);
    lemma_u64_spelled(index);
    assert(bytes.take(8) =~= slot.spec_bytes_key().take(8));
    assert(bytes.subrange(9, 17) =~= be_bytes(index as nat, 8));
}

/// The bytes that name a module of a block: the identifier of the block, the position of the
/// operation, and the index.
pub proof fn lemma_module_bytes_parts(block_id: BlockId, operation_index: u64, index: u64)
    ensures
        module_bytes(block_id, operation_index, index).len() == 48,
        forall|i: int|
            0 <= i < 32 ==> #[trigger] module_bytes(block_id, operation_index, index)[i]
                == block_id.0.bytes[i],
        spelled(module_bytes(block_id, operation_index, index).subrange(32, 40))
            == operation_index,
        spelled(module_bytes(block_id, operation_index, index).subrange(40, 48)) == index,
{
    let bytes = module_bytes(block_id, operation_index, index);
    lemma_u64_spelled(operation_index);
    lemma_u64_spelled(index);
    assert(bytes.subrange(32, 40) =~= be_bytes(operation_index as nat, 8));
    assert(bytes.subrange(40, 48) =~= be_bytes(index as nat, 8));
}

/// The bytes under which the address of a module is asked for, part by part: by the block and the
/// operation where an execution of a block counts, else by the slot.
pub proof fn lemma_module_address_parts(context: ContextModel)
    ensures
        !context.read_only && context.opt_block_id is Some ==> {
            let bytes = context.module_address_bytes();
            let block_id = context.opt_block_id->0;
            &&& bytes.len() == 48
            &&& bytes.take(32) =~= block_id.0.bytes@
            &&& spelled(bytes.subrange(32, 40)) == context.operation_index
            &&& spelled(bytes.subrange(40, 48)) == context.created_addr_index
        },
        context.read_only || context.opt_block_id is None ==> {
            let bytes = context.module_address_bytes();
            &&& bytes.len() == 18
            &&& spelled(bytes.take(8)) == context.slot.period
            &&& bytes[8] == context.slot.thread
            &&& spelled(bytes.subrange(9, 17)) == context.created_addr_index
            &&& bytes[17] == if context.read_only {
                0u8
            } else {
                1u8
            }
        },
{
    let bytes = context.module_address_bytes();
    if !context.read_only && context.opt_block_id is Some {
        let block_id = context.opt_block_id->0;
        lemma_module_bytes_parts(block_id, context.operation_index, context.created_addr_index);
        assert(bytes.take(32) =~= block_id.0.bytes@);
    } else {
        lemma_creation_bytes_parts(context.slot, context.created_addr_index, context.read_only);
    }
}

/// The bytes under which the identifier of an event is asked for, part by part.
pub proof fn lemma_event_id_parts(context: ContextModel)
    ensures
        ({
            let bytes = context.event_id_bytes();
            &&& bytes.len() == 18
            &&& spelled(bytes.take(8)) == context.slot.period
            &&& bytes[8] == context.slot.thread
            &&& spelled(bytes.subrange(9, 17)) == context.created_event_index
            &&& bytes[17] == if context.read_only {
                0u8
            } else {
                1u8
            }
        }),
{
    lemma_creation_bytes_parts(context.slot, context.created_event_index, context.read_only);
}

/// The bytes whose digest seeds a step: period, thread, 1, and the identifier of its block.
pub proof fn lemma_step_seed_parts(slot: Slot, block_id: Option<BlockId>)
    ensures
        ({
            let bytes = step_seed_bytes(slot, block_id);
            &&& spelled(bytes.take(8)) == slot.period
            &&& bytes[8] == slot.thread
            &&& bytes[9] == 1
            &&& block_id is None ==> bytes.len() == 10
            &&& block_id matches Some(id) ==> bytes.len() == 42 && bytes.skip(10) =~= id.0.bytes@
        }),
{
    let bytes = step_seed_bytes(slot, block_id);
    lemma_slot_key_parts(slot);
    assert(bytes.take(8) =~= slot.spec_bytes_key().take(8));
    if let Some(id) = block_id {
        assert(bytes.skip(10) =~= id.0.bytes@);
    }
}

/// The bytes whose digest seeds a read-only execution: period, thread, and 0.
pub proof fn lemma_read_only_seed_parts(slot: Slot)
    ensures
        ({
            let bytes = read_only_seed_bytes(slot);
            &&& bytes.len() == 10
            &&& spelled(bytes.take(8)) == slot.period
            &&& bytes[8] == slot.thread
            &&& bytes[9] == 0
        }),
{
    lemma_slot_key_parts(slot);
    assert(read_only_seed_bytes(slot).take(8) =~= slot.spec_bytes_key().take(8));
}

/// The first slot happens at genesis. The same thread comes again after a period, and the next
/// thread after the part of a period that each thread has.
pub proof fn lemma_slot_times(
    thread_count: u8,
    t0: MassaTime,
    genesis: MassaTime,
    period: u64,
    thread: u8,
)
    requires
        thread_count != 0,
    ensures
        slot_millis(thread_count, t0, genesis, (Slot { period: 0, thread: 0 })) == genesis.millis,
        period < u64::MAX ==> slot_millis(
            thread_count,
            t0,
            genesis,
            (Slot { period: (period + 1) as u64, thread }),
        ) == slot_millis(thread_count, t0, genesis, (Slot { period, thread })) + t0.millis,
        thread < u8::MAX ==> slot_millis(
            thread_count,
            t0,
            genesis,
            (Slot { period, thread: (thread + 1) as u8 }),
        ) == slot_millis(thread_count, t0, genesis, (Slot { period, thread })) + t0.millis
            / thread_count as u64,
{
    let t = t0.millis as int;
    let step = t / thread_count as int;
    assert(step == t0.millis / thread_count as u64);
    assert(step * 0 == 0 && t * 0 == 0) by (nonlinear_arith);
    let p = period as int;
    let n = thread as int;
    assert(t * (p + 1) == t * p + t) by (nonlinear_arith);
    assert(step * (n + 1) == step * n + step) by (nonlinear_arith);
}

/// The latest slot at a time is the one that began at that time or before, less than the part of
/// a thread ago, as far as the numbers of the threads of a period fit; of a number that does not
/// fit it has the last byte. Its period is always the one that the time lies in. There is no slot
/// before genesis, and an error where threads have no time.
pub proof fn lemma_latest_slot(
    thread_count: u8,
    t0: MassaTime,
    genesis: MassaTime,
    timestamp: MassaTime,
)
    ensures
        timestamp.millis < genesis.millis <==> latest_slot(thread_count, t0, genesis, timestamp)
            == Ok::<Option<Slot>, TimeOverflowError>(None),
        latest_slot(thread_count, t0, genesis, timestamp) is Err <==> genesis.millis
            <= timestamp.millis && (thread_count == 0 || t0.millis < thread_count),
        genesis.millis <= timestamp.millis && thread_count != 0 && t0.millis >= thread_count ==> {
            let slot = latest_slot(thread_count, t0, genesis, timestamp)->Ok_0->0;
            let began = slot_millis(thread_count, t0, genesis, slot);
            let part = t0.millis / thread_count as u64;
            let elapsed = timestamp.millis - genesis.millis;
            &&& t0.millis * slot.period <= elapsed < t0.millis * slot.period + t0.millis
            &&& slot.thread == ((elapsed - t0.millis * slot.period) / part as int) % 256
            &&& t0.millis <= part * 256 ==> began <= timestamp.millis < began + part
        },
{
    if genesis.millis <= timestamp.millis && thread_count != 0 {
        let t = t0.millis as int;
        let count = thread_count as int;
        let step = t / count;
        lemma_fundamental_div_mod(t, count);
        assert(t >= count <==> step >= 1) by (nonlinear_arith)
            requires
                t == count * step + t % count,
                0 <= t % count < count,
                count > 0,
        ;
        if t >= count {
            let elapsed = timestamp.millis - genesis.millis;
            let rest = elapsed % t;
            lemma_fundamental_div_mod(elapsed, t);
            lemma_fundamental_div_mod(rest, step);
            let thread = rest / step;
            let slot = latest_slot(thread_count, t0, genesis, timestamp)->Ok_0->0;
            assert(slot.period == elapsed / t);
            let number = ((timestamp.millis - genesis.millis) as u64 % t0.millis) / (t0.millis
                / thread_count as u64);
            assert(number as u8 == number % 256) by (bit_vector);
            assert(number == thread);
            assert(rest == elapsed - t * slot.period);
            if t <= step * 256 {
                assert(0 <= thread < 256) by (nonlinear_arith)
                    requires
                        rest == step * thread + rest % step,
                        0 <= rest % step < step,
                        0 <= rest < t,
                        t <= step * 256,
                        step >= 1,
                ;
                assert(slot.thread == thread);
                assert(step * thread == (t0.millis as nat / thread_count as nat)
                    * slot.thread as nat);
            }
        }
    }
}

/// The number of slots in a range is the difference of their positions, where a period has
/// `thread_count` of them. There is one where no number on the way is negative or too large.
pub proof fn lemma_slot_count(a: Slot, b: Slot, thread_count: u8)
    ensures
        ({
            let from = a.period * thread_count + a.thread;
            let to = b.period * thread_count + b.thread;
            &&& spec_slot_count(a, b, thread_count) is Ok <==> a.period <= b.period && from <= to
                && to - a.period * thread_count <= u64::MAX
            &&& spec_slot_count(a, b, thread_count) matches Ok(count) ==> count == to - from
        }),
{
    let n = thread_count as int;
    assert((b.period - a.period) * n == b.period * n - a.period * n) by (nonlinear_arith);
}

/// Distances between slots are differences of their positions.
pub proof fn lemma_slot_distance_parts(a: Slot, b: Slot, thread_count: u8)
    ensures
        slot_distance(a, b, thread_count) == (b.period * thread_count + b.thread) - (a.period
            * thread_count + a.thread),
{
    let n = thread_count as int;
    assert((b.period - a.period) * n == b.period * n - a.period * n) by (nonlinear_arith);
}

} // verus!
