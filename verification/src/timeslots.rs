//! When slots happen.
//!
//! A period lasts `t0` milliseconds and holds one slot per thread, at even distances. The first
//! slot of the first period happens at the genesis timestamp.

use crate::models::Slot;
use vstd::arithmetic::div_mod::{
    lemma_fundamental_div_mod, lemma_fundamental_div_mod_converse,
};
use vstd::prelude::*;

verus! {

/// A time or a duration, in milliseconds.
#[derive(Clone, Copy, Debug, PartialEq, Eq, Structural, PartialOrd, Ord, Hash)]
pub struct MassaTime {
    pub millis: u64,
}

impl MassaTime {
    /// The time of `millis` milliseconds.
    pub fn from_millis(millis: u64) -> (time: MassaTime)
        ensures
            time.millis == millis,
    {
        MassaTime { millis }
    }

    /// The number of milliseconds.
    pub fn to_millis(&self) -> (millis: u64)
        ensures
            millis == self.millis,
    {
        self.millis
    }
}

/// A time that cannot be computed: it does not fit, or the thread count or the period is zero.
#[derive(Clone, Copy, Debug, PartialEq, Eq)]
pub struct TimeOverflowError;

/// The millisecond at which `slot` happens, as a number without bound.
pub open spec fn slot_millis(
    thread_count: u8,
    t0: MassaTime,
    genesis: MassaTime,
    slot: Slot,
) -> nat {
    genesis.millis as nat + (t0.millis as nat / thread_count as nat) * slot.thread as nat
        + t0.millis as nat * slot.period as nat
}

/// The time at which `slot` happens.
pub fn get_block_slot_timestamp(
    thread_count: u8,
    t0: MassaTime,
    genesis_timestamp: MassaTime,
    slot: Slot,
) -> (timestamp: Result<MassaTime, TimeOverflowError>)
    ensures
        timestamp is Ok <==> thread_count != 0 && slot_millis(
            thread_count,
            t0,
            genesis_timestamp,
            slot,
        ) <= u64::MAX,
        timestamp matches Ok(time) ==> time.millis == slot_millis(
            thread_count,
            t0,
            genesis_timestamp,
            slot,
        ),
{
    if thread_count == 0 {
        return Err(TimeOverflowError);
    }
    let step: u64 = t0.millis / (thread_count as u64);
    let ghost base_millis = step as nat * slot.thread as nat;
    let ghost shift_millis = t0.millis as nat * slot.period as nat;
    proof {
        assert(step as nat == t0.millis as nat / thread_count as nat);
        assert(slot_millis(thread_count, t0, genesis_timestamp, slot) == genesis_timestamp.millis
            + base_millis + shift_millis);
    }
    let base: u64 = match step.checked_mul(slot.thread as u64) {
        Some(base) => base,
        None => return Err(TimeOverflowError),
    };
    let shift: u64 = match t0.millis.checked_mul(slot.period) {
        Some(shift) => shift,
        None => return Err(TimeOverflowError),
    };
    let start: u64 = match genesis_timestamp.millis.checked_add(base) {
        Some(start) => start,
        None => return Err(TimeOverflowError),
    };
    match start.checked_add(shift) {
        Some(millis) => Ok(MassaTime { millis }),
        None => Err(TimeOverflowError),
    }
}

/// The latest slot that happened at `timestamp` or before, or `None` before genesis.
pub open spec fn latest_slot(
    thread_count: u8,
    t0: MassaTime,
    genesis: MassaTime,
    timestamp: MassaTime,
) -> Result<Option<Slot>, TimeOverflowError> {
    if timestamp.millis < genesis.millis {
        Ok(None)
    } else if t0.millis == 0 || thread_count == 0 || t0.millis / thread_count as u64 == 0 {
        Err(TimeOverflowError)
    } else {
        let elapsed = (timestamp.millis - genesis.millis) as u64;
        let step = t0.millis / thread_count as u64;
        Ok(Some(Slot { period: elapsed / t0.millis, thread: ((elapsed % t0.millis) / step) as u8 }))
    }
}

/// The latest slot that happened at `timestamp` or before, or `None` before genesis.
pub fn get_latest_block_slot_at_timestamp(
    thread_count: u8,
    t0: MassaTime,
    genesis_timestamp: MassaTime,
    timestamp: MassaTime,
) -> (slot: Result<Option<Slot>, TimeOverflowError>)
    ensures
        slot == latest_slot(thread_count, t0, genesis_timestamp, timestamp),
{
    if timestamp.millis < genesis_timestamp.millis {
        return Ok(None);
    }
    if t0.millis == 0 || thread_count == 0 {
        return Err(TimeOverflowError);
    }
    let elapsed: u64 = timestamp.millis - genesis_timestamp.millis;
    let step: u64 = t0.millis / (thread_count as u64);
    if step == 0 {
        return Err(TimeOverflowError);
    }
    let thread: u8 = #[verifier::truncate]
    (((elapsed % t0.millis) / step) as u8);
    Ok(Some(Slot { period: elapsed / t0.millis, thread }))
}

/// The latest slot at the time of a slot is that slot.
pub proof fn lemma_latest_slot_at_slot_time(
    thread_count: u8,
    t0: MassaTime,
    genesis: MassaTime,
    slot: Slot,
)
    requires
        slot.thread < thread_count,
        t0.millis >= thread_count,
        slot_millis(thread_count, t0, genesis, slot) <= u64::MAX,
    ensures
        latest_slot(
            thread_count,
            t0,
            genesis,
            MassaTime { millis: slot_millis(thread_count, t0, genesis, slot) as u64 },
        ) == Ok::<Option<Slot>, TimeOverflowError>(Some(slot)),
{
    let t = t0.millis as int;
    let count = thread_count as int;
    let step = t / count;
    let offset = step * slot.thread as int;
    let timestamp = MassaTime { millis: slot_millis(thread_count, t0, genesis, slot) as u64 };
    lemma_fundamental_div_mod(t, count);
    assert(step >= 1) by (nonlinear_arith)
        requires
            t >= count,
            count > 0,
            step == t / count,
    ;
    assert(offset < t) by (nonlinear_arith)
        requires
            offset == step * slot.thread as int,
            step >= 1,
            slot.thread as int + 1 <= count,
            t == count * step + t % count,
            t % count >= 0,
    ;
    assert(offset >= 0) by (nonlinear_arith)
        requires
            offset == step * slot.thread as int,
            step >= 1,
    ;
    let elapsed = timestamp.millis as int - genesis.millis as int;
    assert(elapsed == slot.period as int * t + offset) by (nonlinear_arith)
        requires
            elapsed == offset + t * slot.period as int,
    ;
    lemma_fundamental_div_mod_converse(elapsed, t, slot.period as int, offset);
    assert(offset == slot.thread as int * step + 0) by (nonlinear_arith)
        requires
            offset == step * slot.thread as int,
    ;
    lemma_fundamental_div_mod_converse(offset, step, slot.thread as int, 0);
}

/// How many slots lie in `[a, b)`, as a number without bound; negative where `b` comes before `a`.
pub open spec fn slot_distance(a: Slot, b: Slot, thread_count: u8) -> int {
    (b.period - a.period) * thread_count + b.thread - a.thread
}

/// How many slots lie in `[a, b)`: an error where `b` is of an earlier period than `a`, or where
/// the number is negative or does not fit.
pub fn slot_count_in_range(a: Slot, b: Slot, thread_count: u8) -> (count: Result<
    u64,
    TimeOverflowError,
>)
    ensures
        count == spec_slot_count(a, b, thread_count),
{
    let periods: u64 = match b.period.checked_sub(a.period) {
        Some(periods) => periods,
        None => return Err(TimeOverflowError),
    };
    let whole: u64 = match periods.checked_mul(thread_count as u64) {
        Some(whole) => whole,
        None => return Err(TimeOverflowError),
    };
    let end: u64 = match whole.checked_add(b.thread as u64) {
        Some(end) => end,
        None => return Err(TimeOverflowError),
    };
    match end.checked_sub(a.thread as u64) {
        Some(count) => Ok(count),
        None => Err(TimeOverflowError),
    }
}

/// How many slots lie in `[a, b)`: an error where `b` is of an earlier period than `a`, or where
/// the number is negative or does not fit.
pub open spec fn spec_slot_count(a: Slot, b: Slot, thread_count: u8) -> Result<
    u64,
    TimeOverflowError,
> {
    let distance = slot_distance(a, b, thread_count);
    if a.period <= b.period && 0 <= distance && distance + a.thread <= u64::MAX {
        Ok(distance as u64)
    } else {
        Err(TimeOverflowError)
    }
}

} // verus!
