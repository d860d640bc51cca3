use std::collections::HashSet;
use uid_generator_rs::{
    decompose_id, Snowflake, SnowflakeError, DEFAULT_EPOCH_MS, MAX_MACHINE_ID, MAX_SEQUENCE,
};

#[test]
fn new_snowflake_rejects_out_of_range_machine_id() {
    let err = Snowflake::new(MAX_MACHINE_ID + 1, DEFAULT_EPOCH_MS).unwrap_err();
    assert!(
        matches!(err, SnowflakeError::InvalidMachineId(_)),
        "expected InvalidMachineId, got {}",
        err.to_string()
    );
}

#[test]
fn new_snowflake_accepts_zero_machine_id() {
    Snowflake::new(0, DEFAULT_EPOCH_MS).expect("machine_id=0 should be valid");
}

#[test]
fn new_snowflake_accepts_max_machine_id() {
    Snowflake::new(MAX_MACHINE_ID, DEFAULT_EPOCH_MS)
        .expect("MAX_MACHINE_ID should be valid");
}

#[test]
fn next_id_produces_unique_ids() {
    let mut sf = Snowflake::new(1, DEFAULT_EPOCH_MS).unwrap();
    let mut seen = HashSet::with_capacity(10_000);
    for _ in 0..10_000 {
        let id = sf.next_id().unwrap();
        assert!(seen.insert(id), "duplicate ID: {id}");
    }
}

#[test]
fn next_id_is_monotonically_increasing() {
    let mut sf = Snowflake::new(1, DEFAULT_EPOCH_MS).unwrap();
    let mut prev = sf.next_id().unwrap();
    for _ in 0..5_000 {
        let id = sf.next_id().unwrap();
        assert!(id > prev, "ID not monotonic: {id} <= {prev}");
        prev = id;
    }
}

#[test]
fn decompose_id_extracts_correct_machine_id() {
    let machine_id = 42;
    let mut sf = Snowflake::new(machine_id, DEFAULT_EPOCH_MS).unwrap();
    let id = sf.next_id().unwrap();
    let (_, mid, _) = decompose_id(id);
    assert_eq!(mid, machine_id, "machine_id mismatch");
}

#[test]
fn decompose_id_sequence_in_range() {
    let mut sf = Snowflake::new(1, DEFAULT_EPOCH_MS).unwrap();
    let id = sf.next_id().unwrap();
    let (_, _, seq) = decompose_id(id);
    assert!(
        seq <= MAX_SEQUENCE,
        "sequence {seq} exceeds MAX_SEQUENCE {MAX_SEQUENCE}"
    );
}

#[test]
fn decompose_id_timestamp_in_range() {
    let before = std::time::SystemTime::now()
        .duration_since(std::time::UNIX_EPOCH)
        .unwrap()
        .as_millis() as u64
        - DEFAULT_EPOCH_MS;

    let mut sf = Snowflake::new(1, DEFAULT_EPOCH_MS).unwrap();
    let id = sf.next_id().unwrap();

    let after = std::time::SystemTime::now()
        .duration_since(std::time::UNIX_EPOCH)
        .unwrap()
        .as_millis() as u64
        - DEFAULT_EPOCH_MS;

    let (ts_ms, _, _) = decompose_id(id);
    assert!(
        ts_ms >= before && ts_ms <= after + 1,
        "timestamp {ts_ms} outside window [{before}, {after}]"
    );
}

#[test]
fn sequence_exhaustion_ids_remain_unique_and_monotonic() {
    let mut sf = Snowflake::new(1, DEFAULT_EPOCH_MS).unwrap();
    // Generate 3× the sequence capacity, forcing the generator to park and
    // advance the millisecond counter at least twice.
    let n = (MAX_SEQUENCE as usize + 1) * 3;
    let mut prev = sf.next_id().unwrap();
    let mut seen = HashSet::with_capacity(n);
    seen.insert(prev);

    for i in 0..n {
        let id = sf.next_id().unwrap();
        assert!(id > prev, "non-monotonic at i={i}: {id} <= {prev}");
        assert!(seen.insert(id), "duplicate at i={i}: {id}");
        prev = id;
    }
}

// ── further cases ─────────────────────────────────────────────────────────────

#[test]
fn decompose_splits_fields() {
    let id = (123_456_789u64 << 22) | (42 << 12) | 4000;
    assert_eq!(decompose_id(id), (123_456_789, 42, 4000));
    assert_eq!(decompose_id(0), (0, 0, 0));
    assert_eq!(decompose_id(u64::MAX), ((1 << 42) - 1, 1023, 4095));
}

#[test]
fn next_id_at_counts_within_a_millisecond() {
    let mut sf = Snowflake::new(5, DEFAULT_EPOCH_MS).unwrap();
    assert_eq!(sf.next_id_at(100), Some((100 << 22) | (5 << 12)));
    assert_eq!(sf.next_id_at(100), Some((100 << 22) | (5 << 12) | 1));
    assert_eq!(sf.next_id_at(100), Some((100 << 22) | (5 << 12) | 2));
    // A later millisecond restarts the sequence.
    assert_eq!(sf.next_id_at(101), Some((101 << 22) | (5 << 12)));
}

#[test]
fn next_id_at_waits_when_clock_is_behind() {
    let mut sf = Snowflake::new(5, DEFAULT_EPOCH_MS).unwrap();
    assert_eq!(sf.next_id_at(100), Some((100 << 22) | (5 << 12)));
    assert_eq!(sf.next_id_at(99), None);
    // Waiting left the generator unchanged.
    assert_eq!(sf.next_id_at(100), Some((100 << 22) | (5 << 12) | 1));
}

#[test]
fn next_id_at_waits_when_sequence_is_used_up() {
    let mut sf = Snowflake::new(3, DEFAULT_EPOCH_MS).unwrap();
    assert_eq!(sf.next_id_at(7), Some((7 << 22) | (3 << 12)));
    for seq in 1..=MAX_SEQUENCE {
        assert_eq!(sf.next_id_at(7), Some((7 << 22) | (3 << 12) | seq));
    }
    assert_eq!(sf.next_id_at(7), None);
    assert_eq!(sf.next_id_at(7), None);
    assert_eq!(sf.next_id_at(8), Some((8 << 22) | (3 << 12)));
}

#[test]
fn next_id_at_first_reading_at_zero() {
    // The initial position is millisecond 0, sequence 0, which was never
    // issued: a reading of 0 issues sequence 1.
    let mut sf = Snowflake::new(0, DEFAULT_EPOCH_MS).unwrap();
    assert_eq!(sf.next_id_at(0), Some(1));
}

#[test]
fn clock_before_epoch_is_an_error() {
    let mut sf = Snowflake::new(1, u64::MAX).unwrap();
    let err = sf.next_id().unwrap_err();
    assert!(matches!(err, SnowflakeError::SystemTime(_)));
    // The generator is unchanged: the configured epoch still applies.
    assert!(sf.next_id().is_err());
}

#[test]
fn ids_carry_the_machine_id() {
    let mut sf = Snowflake::new(MAX_MACHINE_ID, DEFAULT_EPOCH_MS).unwrap();
    for _ in 0..100 {
        let (_, mid, _) = decompose_id(sf.next_id().unwrap());
        assert_eq!(mid, MAX_MACHINE_ID);
    }
}

#[test]
fn snowflake_error_messages() {
    assert_eq!(
        SnowflakeError::InvalidMachineId(1024).to_string(),
        "machine ID 1024 exceeds maximum 1023"
    );
    assert_eq!(
        SnowflakeError::ClockDrift { last_ms: 10, now_ms: 7 }.to_string(),
        "clock went backward: last=10 now=7"
    );
    assert_eq!(
        SnowflakeError::SystemTime("bad".to_string()).to_string(),
        "system clock error: bad"
    );
    assert_eq!(SnowflakeError::PoisonedLock.to_string(), "internal mutex was poisoned");
}

#[test]
fn millis_since_epoch_steps() {
    assert_eq!(Snowflake::millis_since_epoch(Ok(1_000), 400).unwrap(), 600);
    assert_eq!(Snowflake::millis_since_epoch(Ok(400), 400).unwrap(), 0);
    let err = Snowflake::millis_since_epoch(Ok(399), 400).unwrap_err();
    assert_eq!(
        err.to_string(),
        "system clock error: clock reads earlier than the epoch"
    );
    let err = Snowflake::millis_since_epoch(Err("before 1970".to_string()), 0).unwrap_err();
    assert!(matches!(err, SnowflakeError::SystemTime(ref t) if t == "before 1970"));
}
