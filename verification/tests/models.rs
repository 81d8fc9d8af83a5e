use massa_execution::error::ExecutionError;
use massa_execution::models::{Address, Amount, Digest, Key, Slot};
use massa_execution::timeslots::{
    get_block_slot_timestamp, get_latest_block_slot_at_timestamp, slot_count_in_range, MassaTime,
    TimeOverflowError,
};

#[test]
fn amounts_are_checked() {
    let five = Amount::from_raw(5);
    assert_eq!(five.to_raw(), 5);
    assert_eq!(Amount::zero().to_raw(), 0);
    assert_eq!(five.checked_add(Amount::from_raw(7)), Some(Amount::from_raw(12)));
    assert_eq!(five.checked_add(Amount::from_raw(u64::MAX)), None);
    assert_eq!(five.checked_sub(Amount::from_raw(5)), Some(Amount::zero()));
    assert_eq!(five.checked_sub(Amount::from_raw(6)), None);
    assert_eq!(five.saturating_mul_u64(6), Amount::from_raw(30));
    assert_eq!(five.saturating_mul_u64(u64::MAX), Amount::from_raw(u64::MAX));
}

#[test]
fn slot_key_is_big_endian() {
    assert_eq!(Slot::new(258, 7).to_bytes_key(), vec![0, 0, 0, 0, 0, 0, 1, 2, 7]);
    assert_eq!(
        Slot::new(u64::MAX, u8::MAX).to_bytes_key(),
        vec![255, 255, 255, 255, 255, 255, 255, 255, 255]
    );
    assert_ne!(Slot::new(1, 0).to_bytes_key(), Slot::new(0, 1).to_bytes_key());
}

#[test]
fn slots_are_ordered_by_period_then_thread() {
    assert!(Slot::new(1, 31).before(&Slot::new(2, 0)));
    assert!(Slot::new(1, 3).before(&Slot::new(1, 4)));
    assert!(!Slot::new(1, 3).before(&Slot::new(1, 3)));
    assert!(!Slot::new(2, 0).before(&Slot::new(1, 31)));
    assert!(Slot::new(1, 3).within(&Slot::new(1, 3), &Slot::new(1, 4)));
    assert!(!Slot::new(1, 4).within(&Slot::new(1, 3), &Slot::new(1, 4)));
}

#[test]
fn digests_are_compared_byte_by_byte() {
    let mut bytes = [9u8; 32];
    let digest = Digest::from_bytes(bytes);
    assert!(digest.same(&Digest::from_bytes([9u8; 32])));
    assert_eq!(digest.to_bytes(), [9u8; 32]);
    bytes[31] = 8;
    assert!(!Address(digest).same(&Address(Digest::from_bytes(bytes))));
}

#[test]
fn slot_times() {
    let t0 = MassaTime::from_millis(16_000);
    let genesis = MassaTime::from_millis(1_000);
    // 32 threads, one slot every 500 milliseconds
    let at = get_block_slot_timestamp(32, t0, genesis, Slot::new(3, 5));
    assert_eq!(at, Ok(MassaTime::from_millis(1_000 + 3 * 16_000 + 5 * 500)));
    assert_eq!(
        get_block_slot_timestamp(32, t0, genesis, Slot::new(u64::MAX, 0)),
        Err(TimeOverflowError)
    );
    assert_eq!(get_block_slot_timestamp(0, t0, genesis, Slot::new(0, 0)), Err(TimeOverflowError));
}

#[test]
fn latest_slot_is_inverse_to_slot_time() {
    let t0 = MassaTime::from_millis(16_000);
    let genesis = MassaTime::from_millis(1_000);
    let at = |millis: u64| {
        get_latest_block_slot_at_timestamp(32, t0, genesis, MassaTime::from_millis(millis))
    };
    assert_eq!(at(51_500), Ok(Some(Slot::new(3, 5))));
    assert_eq!(at(51_999), Ok(Some(Slot::new(3, 5))));
    assert_eq!(at(52_000), Ok(Some(Slot::new(3, 6))));
    assert_eq!(at(1_000), Ok(Some(Slot::new(0, 0))));
    assert_eq!(at(999), Ok(None));
    assert_eq!(
        get_latest_block_slot_at_timestamp(
            32,
            MassaTime::from_millis(0),
            genesis,
            MassaTime::from_millis(2_000)
        ),
        Err(TimeOverflowError)
    );
}

#[test]
fn slots_in_a_range_are_counted() {
    assert_eq!(slot_count_in_range(Slot::new(1, 3), Slot::new(2, 1), 4), Ok(2));
    assert_eq!(slot_count_in_range(Slot::new(1, 3), Slot::new(1, 3), 4), Ok(0));
    assert_eq!(slot_count_in_range(Slot::new(1, 3), Slot::new(1, 2), 4), Err(TimeOverflowError));
    assert_eq!(slot_count_in_range(Slot::new(2, 0), Slot::new(1, 3), 4), Err(TimeOverflowError));
    assert_eq!(
        slot_count_in_range(Slot::new(0, 0), Slot::new(u64::MAX, 0), 4),
        Err(TimeOverflowError)
    );
}

#[test]
fn execution_errors_have_texts() {
    assert_eq!(ExecutionError::Nothing.message(), "Empty for now.");
    assert_eq!(ExecutionError::FileError("no such file".to_string()).message(), "no such file");
}
