//! Snowflake 64-bit unique ID generator.
//!
//! Bit layout:
//!
//! ```text
//!  63        22        12        0
//!  ┌──────────┬─────────┬────────┐
//!  │  41-bit  │ 10-bit  │ 12-bit │
//!  │ timestamp│machine  │sequence│
//!  └──────────┴─────────┴────────┘
//! ```
//!
//! The timestamp counts milliseconds since the configured epoch. Shifted by
//! 22 bits it keeps 42 bits before its top bits leave the word, so IDs stay
//! ordered while it is below 2^42.
//!
//! The generator itself is a plain value: it takes `&mut self` to issue an
//! ID. A caller that shares one between threads puts it behind a lock, and
//! reports a poisoned lock as [`SnowflakeError::PoisonedLock`].
use crate::clock::{lemma_reads_between_step, reads_between, Clock};
use crate::text::{decimal_string, decimal_text};
use vstd::prelude::*;
use vstd::string::StringExecFns;

verus! {

/// Width of the per-millisecond sequence field.
pub const SEQUENCE_BITS: u64 = 12;

/// Width of the machine ID field.
pub const MACHINE_ID_BITS: u64 = 10;

/// Width of the timestamp field.
pub const TIMESTAMP_BITS: u64 = 41;

/// Position of the machine ID field.
pub const MACHINE_ID_SHIFT: u64 = 12;

/// Position of the timestamp field.
pub const TIMESTAMP_SHIFT: u64 = 22;

/// Largest valid machine ID (2^10 − 1 = 1 023).
pub const MAX_MACHINE_ID: u64 = 1023;

/// Largest valid sequence number (2^12 − 1 = 4 095).
pub const MAX_SEQUENCE: u64 = 4095;

/// Default epoch: 2020-01-01 00:00:00 UTC as milliseconds since UNIX_EPOCH.
pub const DEFAULT_EPOCH_MS: u64 = 1_577_836_800_000;

/// The ID assembled from its three fields:
/// `(timestamp_ms << 22) | (machine_id << 12) | sequence`.
pub open spec fn snowflake_id(timestamp_ms: u64, machine_id: u64, sequence: u64) -> u64 {
    (timestamp_ms << 22u64) | (machine_id << 12u64) | sequence
}

/// Errors of the generator.
#[derive(Debug)]
pub enum SnowflakeError {
    /// The machine ID given to [`Snowflake::new`] exceeds [`MAX_MACHINE_ID`].
    InvalidMachineId(u64),
    /// The clock did not move past the last millisecond in which an ID was
    /// issued, however long the generator waited for it.
    ClockDrift { last_ms: u64, now_ms: u64 },
    /// The system clock could not be read, or reads earlier than the epoch.
    SystemTime(String),
    /// A lock shared between threads was poisoned.
    PoisonedLock,
}

/// The message of a generator error.
pub open spec fn snowflake_error_text(e: SnowflakeError) -> Seq<char> {
    match e {
        SnowflakeError::InvalidMachineId(id) => "machine ID "@ + decimal_text(id as nat)
            + " exceeds maximum "@ + decimal_text(MAX_MACHINE_ID as nat),
        SnowflakeError::ClockDrift { last_ms, now_ms } => "clock went backward: last="@
            + decimal_text(last_ms as nat) + " now="@ + decimal_text(now_ms as nat),
        SnowflakeError::SystemTime(text) => "system clock error: "@ + text@,
        SnowflakeError::PoisonedLock => "internal mutex was poisoned"@,
    }
}

impl SnowflakeError {
    /// The error's message.
    pub fn to_string(&self) -> (text: String)
        ensures
            text@ == snowflake_error_text(*self),
    {
        match self {
            SnowflakeError::InvalidMachineId(id) => {
                let mut text = String::from_str("machine ID ");
                text.append(decimal_string(*id).as_str());
                text.append(" exceeds maximum ");
                text.append(decimal_string(MAX_MACHINE_ID).as_str());
                text
            },
            SnowflakeError::ClockDrift { last_ms, now_ms } => {
                let mut text = String::from_str("clock went backward: last=");
                text.append(decimal_string(*last_ms).as_str());
                text.append(" now=");
                text.append(decimal_string(*now_ms).as_str());
                text
            },
            SnowflakeError::SystemTime(e) => {
                let mut text = String::from_str("system clock error: ");
                text.append(e.as_str());
                text
            },
            SnowflakeError::PoisonedLock => String::from_str("internal mutex was poisoned"),
        }
    }
}

/// Snowflake ID generator.
///
/// Holds the configuration (epoch and machine ID), the position of the
/// last issued ID (millisecond and sequence number within it), and the clock
/// it reads.
#[derive(Debug)]
pub struct Snowflake {
    epoch_ms: u64,
    machine_id: u64,
    sequence: u64,
    last_ms: u64,
    clock: Clock,
}

/// How many clock readings the generator took to go from `before` to
/// `after`.
pub open spec fn readings_taken(before: Snowflake, after: Snowflake) -> int {
    reads_between(before.clock().reads(), after.clock().reads())
}

/// The generator moved from `before` to `after` by issuing one ID: either the
/// next sequence number in the same millisecond, or the first one of a later
/// millisecond. The configuration is unchanged.
pub open spec fn issued_next(before: Snowflake, after: Snowflake) -> bool {
    &&& after.epoch_ms() == before.epoch_ms()
    &&& after.machine_id() == before.machine_id()
    &&& {
        ||| after.last_ms() == before.last_ms() && before.sequence() < MAX_SEQUENCE
            && after.sequence() == before.sequence() + 1
        ||| after.last_ms() > before.last_ms() && after.sequence() == 0
    }
}

/// On clock reading `now` the generator must wait: the reading is behind the
/// last issued millisecond, or in it with the sequence used up.
pub open spec fn must_wait(s: Snowflake, now: u64) -> bool {
    now < s.last_ms() || (now == s.last_ms() && s.sequence() == MAX_SEQUENCE)
}

/// On clock reading `now`, which does not make it wait, the generator moved
/// from `before` to `after`: the next sequence number in the same
/// millisecond, or sequence 0 in the later millisecond `now`.
pub open spec fn issued_at(before: Snowflake, now: u64, after: Snowflake) -> bool {
    &&& after.epoch_ms() == before.epoch_ms()
    &&& after.machine_id() == before.machine_id()
    &&& if now == before.last_ms() {
        after.last_ms() == before.last_ms() && after.sequence() == before.sequence() + 1
    } else {
        after.last_ms() == now && after.sequence() == 0
    }
}

/// `readings` are the clock readings that one call of
/// [`Snowflake::next_id`] took before giving up: 2^64 of them, the last one
/// `now_ms`, and every one of them made the generator wait.
pub open spec fn readings_all_wait(s: Snowflake, readings: Seq<u64>, now_ms: u64) -> bool {
    &&& readings.len() == u64::MAX as nat + 1
    &&& readings.last() == now_ms
    &&& forall|i: int| 0 <= i < readings.len() ==> must_wait(s, #[trigger] readings[i])
}

/// `readings` are the clock readings that one call of
/// [`Snowflake::next_id`] took to move the generator from `before` to
/// `after`: every reading but the last made it wait, and the last one issued
/// an ID as [`Snowflake::next_id_at`] does.
pub open spec fn readings_until_issue(before: Snowflake, readings: Seq<u64>, after: Snowflake) -> bool {
    &&& readings.len() >= 1
    &&& forall|i: int| 0 <= i < readings.len() - 1 ==> must_wait(before, #[trigger] readings[i])
    &&& !must_wait(before, readings.last())
    &&& issued_at(before, readings.last(), after)
}

impl Snowflake {
    #[verifier::type_invariant]
    spec fn fields_in_range(self) -> bool {
        &&& self.machine_id <= MAX_MACHINE_ID
        &&& self.sequence <= MAX_SEQUENCE
    }

    /// The configured epoch, in milliseconds since the Unix epoch.
    pub closed spec fn epoch_ms(self) -> u64 {
        self.epoch_ms
    }

    /// The machine ID written into every ID.
    pub closed spec fn machine_id(self) -> u64 {
        self.machine_id
    }

    /// The sequence number of the last issued ID.
    pub closed spec fn sequence(self) -> u64 {
        self.sequence
    }

    /// The millisecond (since the epoch) of the last issued ID.
    pub closed spec fn last_ms(self) -> u64 {
        self.last_ms
    }

    /// The clock the generator reads.
    pub closed spec fn clock(self) -> Clock {
        self.clock
    }

    /// `self` and `other` have the same configuration and the same position.
    pub open spec fn same_position(self, other: Snowflake) -> bool {
        &&& self.epoch_ms() == other.epoch_ms()
        &&& self.machine_id() == other.machine_id()
        &&& self.sequence() == other.sequence()
        &&& self.last_ms() == other.last_ms()
    }

    /// The machine ID and the sequence number are within their fields.
    pub open spec fn in_range(self) -> bool {
        &&& self.machine_id() <= MAX_MACHINE_ID
        &&& self.sequence() <= MAX_SEQUENCE
    }

    /// The ID that names the generator's position: the last one it issued.
    pub open spec fn current_id(self) -> u64 {
        snowflake_id(self.last_ms(), self.machine_id(), self.sequence())
    }

    /// Creates a new generator.
    ///
    /// - `machine_id` must be in `[0, MAX_MACHINE_ID]`.
    /// - `epoch_ms` is milliseconds since UNIX_EPOCH for your custom epoch;
    ///   pass [`DEFAULT_EPOCH_MS`] to use the built-in 2020-01-01 default.
    pub fn new(machine_id: u64, epoch_ms: u64) -> (res: Result<Snowflake, SnowflakeError>)
        ensures
            machine_id > MAX_MACHINE_ID ==> (res matches Err(SnowflakeError::InvalidMachineId(m))
                && m == machine_id),
            machine_id <= MAX_MACHINE_ID ==> (res matches Ok(sf) && sf.machine_id() == machine_id
                && sf.epoch_ms() == epoch_ms && sf.sequence() == 0 && sf.last_ms() == 0
                && sf.in_range() && sf.clock().reads() == 0 && sf.clock().latest() is None),
    {
        if machine_id > MAX_MACHINE_ID {
            return Err(SnowflakeError::InvalidMachineId(machine_id));
        }
        Ok(Snowflake { epoch_ms, machine_id, sequence: 0, last_ms: 0, clock: Clock::new() })
    }

    /// Milliseconds since the epoch `epoch_ms`, from a reading of the clock
    /// in milliseconds since the Unix epoch (or the clock's error text).
    pub fn millis_since_epoch(reading: Result<u64, String>, epoch_ms: u64) -> (res: Result<
        u64,
        SnowflakeError,
    >)
        ensures
            match reading {
                Ok(ms) => if ms >= epoch_ms {
                    res == Ok::<u64, SnowflakeError>((ms - epoch_ms) as u64)
                } else {
                    res matches Err(SnowflakeError::SystemTime(text)) && text@
                        == "clock reads earlier than the epoch"@
                },
                Err(text) => res == Err::<u64, SnowflakeError>(SnowflakeError::SystemTime(text)),
            },
    {
        match reading {
            Ok(ms) => {
                if ms < epoch_ms {
                    Err(
                        SnowflakeError::SystemTime(
                            String::from_str("clock reads earlier than the epoch"),
                        ),
                    )
                } else {
                    Ok(ms - epoch_ms)
                }
            },
            Err(text) => Err(SnowflakeError::SystemTime(text)),
        }
    }

    /// Returns milliseconds elapsed since the configured epoch, by one
    /// reading of `clock`.
    ///
    /// A clock that reads earlier than the epoch is reported as an error.
    /// Which time the clock reads is not stated; the result is that reading
    /// less the epoch, and the reading is remembered as the clock's latest.
    fn current_ms(clock: &mut Clock, epoch_ms: u64) -> (res: Result<u64, SnowflakeError>)
        ensures
            final(clock).reads() == crate::clock::next_count(old(clock).reads()),
            res matches Ok(ms) ==> ms + epoch_ms <= u64::MAX && final(clock).latest() == Some(
                (ms + epoch_ms) as u64,
            ),
            res matches Err(e) ==> e is SystemTime,
    {
        let reading = clock.read_ms();
        Self::millis_since_epoch(reading, epoch_ms)
    }

    /// Issues the ID for clock reading `now`, which is neither behind the last
    /// issued millisecond nor in it when its sequence is used up.
    fn issue(&mut self, now: u64) -> (id: u64)
        requires
            now >= old(self).last_ms(),
            now == old(self).last_ms() ==> old(self).sequence() < MAX_SEQUENCE,
        ensures
            issued_next(*old(self), *final(self)),
            final(self).clock() == old(self).clock(),
            final(self).last_ms() == now,
            final(self).in_range(),
            id == final(self).current_id(),
    {
        proof {
            use_type_invariant(&*self);
        }
        if now == self.last_ms {
            self.sequence = self.sequence + 1;
        } else {
            self.sequence = 0;
            self.last_ms = now;
        }
        (now << TIMESTAMP_SHIFT) | (self.machine_id << MACHINE_ID_SHIFT) | self.sequence
    }

    /// The decision for one clock reading `now` (milliseconds since the
    /// epoch): issue an ID, or `None` when the generator must wait for a later
    /// reading. Waiting leaves the generator unchanged.
    pub fn next_id_at(&mut self, now: u64) -> (res: Option<u64>)
        ensures
            final(self).in_range(),
            now < old(self).last_ms() ==> res is None && *final(self) == *old(self),
            now == old(self).last_ms() && old(self).sequence() == MAX_SEQUENCE ==> res is None
                && *final(self) == *old(self),
            now == old(self).last_ms() && old(self).sequence() < MAX_SEQUENCE ==> {
                &&& final(self).epoch_ms() == old(self).epoch_ms()
                &&& final(self).machine_id() == old(self).machine_id()
                &&& final(self).last_ms() == old(self).last_ms()
                &&& final(self).sequence() == old(self).sequence() + 1
                &&& final(self).clock() == old(self).clock()
                &&& res == Some(final(self).current_id())
            },
            now > old(self).last_ms() ==> {
                &&& final(self).epoch_ms() == old(self).epoch_ms()
                &&& final(self).machine_id() == old(self).machine_id()
                &&& final(self).last_ms() == now
                &&& final(self).sequence() == 0
                &&& final(self).clock() == old(self).clock()
                &&& res == Some(final(self).current_id())
            },
    {
        proof {
            use_type_invariant(&*self);
        }
        if now < self.last_ms || (now == self.last_ms && self.sequence == MAX_SEQUENCE) {
            return None;
        }
        Some(self.issue(now))
    }

    /// Reads the clock until a reading lets the generator issue an ID (see
    /// [`Snowflake::next_id_at`]), and issues it. Gives up with
    /// [`SnowflakeError::ClockDrift`] when `budget + 1` readings in a row all
    /// say wait. Also gives the readings taken, in order, each as milliseconds
    /// since the epoch; the last of them is the clock's latest reading.
    fn issue_after_readings(&mut self, budget: u64) -> (res: (
        Result<u64, SnowflakeError>,
        Ghost<Seq<u64>>,
    ))
        ensures
            final(self).in_range(),
            ({
                let readings = res.1@;
                let taken = readings_taken(*old(self), *final(self));
                &&& readings.len() <= budget + 1
                &&& forall|i: int|
                    0 <= i < readings.len() - 1 ==> must_wait(*old(self), #[trigger] readings[i])
                &&& res.0 matches Ok(id) ==> {
                    &&& readings.len() >= 1
                    &&& taken == readings.len()
                    &&& !must_wait(*old(self), readings.last())
                    &&& issued_at(*old(self), readings.last(), *final(self))
                    &&& id == final(self).current_id()
                    &&& final(self).clock().latest() matches Some(r) && r == readings.last()
                        + old(self).epoch_ms()
                }
                &&& res.0 matches Err(e) ==> final(self).same_position(*old(self)) && (
                e is SystemTime || e is ClockDrift)
                &&& res.0 matches Err(SnowflakeError::SystemTime(_)) ==> {
                    &&& readings.len() <= budget
                    &&& taken == readings.len() + 1
                    &&& forall|i: int|
                        0 <= i < readings.len() ==> must_wait(*old(self), #[trigger] readings[i])
                }
                &&& res.0 matches Err(SnowflakeError::ClockDrift { last_ms, now_ms }) ==> {
                    &&& readings.len() == budget + 1
                    &&& taken == readings.len()
                    &&& must_wait(*old(self), readings.last())
                    &&& last_ms == old(self).last_ms()
                    &&& now_ms == readings.last()
                    &&& final(self).clock().latest() matches Some(r) && r == now_ms
                        + old(self).epoch_ms()
                }
            }),
    {
        proof {
            use_type_invariant(&*self);
        }
        let ghost start = *self;
        let ghost mut readings: Seq<u64> = Seq::empty();
        let mut left: u64 = budget;
        loop
            invariant
                self.same_position(start),
                start == *old(self),
                self.in_range(),
                readings.len() + left == budget,
                forall|i: int| 0 <= i < readings.len() ==> must_wait(start, #[trigger] readings[i]),
                reads_between(start.clock().reads(), self.clock().reads()) == readings.len(),
                readings.len() >= 1 ==> (self.clock().latest() matches Some(r) && r
                    == readings.last() + start.epoch_ms()),
            decreases left,
        {
            proof {
                lemma_reads_between_step(start.clock().reads(), self.clock().reads());
            }
            let mut clock = self.clock;
            let reading = Self::current_ms(&mut clock, self.epoch_ms);
            self.clock = clock;
            let now = match reading {
                Ok(ms) => ms,
                Err(e) => {
                    return (Err(e), Ghost(readings));
                },
            };
            proof {
                readings = readings.push(now);
            }
            match self.next_id_at(now) {
                Some(id) => {
                    return (Ok(id), Ghost(readings));
                },
                None => {
                    if left == 0 {
                        let last_ms = self.last_ms;
                        return (
                            Err(SnowflakeError::ClockDrift { last_ms, now_ms: now }),
                            Ghost(readings),
                        );
                    }
                    left = left - 1;
                },
            }
        }
    }

    /// Generates the next unique 64-bit Snowflake ID.
    ///
    /// Each call reads the clock, and each reading goes to
    /// [`Snowflake::next_id_at`]: within one millisecond the sequence number
    /// counts up; when it is used up, or when the clock has moved backward,
    /// the generator reads the clock again until it may issue. The issued ID
    /// carries the millisecond of the last reading, which is the clock's
    /// latest. It gives up with [`SnowflakeError::ClockDrift`] only after 2^64
    /// readings in a row that all say wait. On an error the generator keeps
    /// its position.
    pub fn next_id(&mut self) -> (res: Result<u64, SnowflakeError>)
        ensures
            final(self).in_range(),
            1 <= readings_taken(*old(self), *final(self)) <= u64::MAX as int + 1,
            res matches Ok(id) ==> issued_next(*old(self), *final(self)) && id
                == final(self).current_id(),
            res matches Ok(_) ==> exists|readings: Seq<u64>|
                #[trigger] readings_until_issue(*old(self), readings, *final(self))
                    && readings.len() == readings_taken(*old(self), *final(self)),
            res matches Ok(_) ==> (final(self).clock().latest() matches Some(r) && r
                == final(self).last_ms() + final(self).epoch_ms()),
            res matches Ok(id) ==> final(self).last_ms() < 0x400_0000_0000
                ==> (final(self).clock().latest() matches Some(r) && r == id / 4194304 + old(self).epoch_ms()),
            res matches Err(e) ==> final(self).same_position(*old(self)) && (e is SystemTime
                || e is ClockDrift),
            res matches Err(SnowflakeError::ClockDrift { last_ms, now_ms }) ==> {
                &&& last_ms == old(self).last_ms()
                &&& readings_taken(*old(self), *final(self)) == u64::MAX as int + 1
                &&& final(self).clock().latest() matches Some(r) && r == now_ms
                    + old(self).epoch_ms()
                &&& exists|readings: Seq<u64>|
                    #[trigger] readings_all_wait(*old(self), readings, now_ms)
            },
    {
        let (res, Ghost(readings)) = self.issue_after_readings(u64::MAX);
        proof {
            if res is Ok {
                assert(readings_until_issue(*old(self), readings, *self));
                use_type_invariant(&*self);
                if self.last_ms < 0x400_0000_0000 {
                    lemma_id_carries_clock_reading(*self);
                }
            }
            if let Err(SnowflakeError::ClockDrift { last_ms, now_ms }) = res {
                assert(readings_all_wait(*old(self), readings, now_ms));
            }
        }
        res
    }
}

/// The millisecond field of the generator's last issued ID, plus the epoch,
/// is the clock's latest reading, when that reading is the millisecond of
/// its position and the millisecond count fits in 42 bits.
pub proof fn lemma_id_carries_clock_reading(s: Snowflake)
    requires
        s.in_range(),
        s.last_ms() < 0x400_0000_0000,
        s.clock().latest() matches Some(r) && r == s.last_ms() + s.epoch_ms(),
    ensures
        s.clock().latest() matches Some(r) && r == s.current_id() / 4194304 + s.epoch_ms(),
{
    lemma_decompose_inverts_compose(s.last_ms(), s.machine_id(), s.sequence());
}

/// While the timestamp fits in 42 bits, an ID is the plain sum of its shifted
/// fields.
pub proof fn lemma_snowflake_id_value(timestamp_ms: u64, machine_id: u64, sequence: u64)
    requires
        timestamp_ms < 0x400_0000_0000,
        machine_id <= MAX_MACHINE_ID,
        sequence <= MAX_SEQUENCE,
    ensures
        snowflake_id(timestamp_ms, machine_id, sequence) == timestamp_ms * 4194304 + machine_id
            * 4096 + sequence,
{
    assert((timestamp_ms << 22u64) | (machine_id << 12u64) | sequence == timestamp_ms * 4194304
        + machine_id * 4096 + sequence) by (bit_vector)
        requires
            timestamp_ms < 0x400_0000_0000,
            machine_id <= 1023,
            sequence <= 4095,
    ;
}

/// Decomposing an ID gives back the fields it was assembled from, while the
/// timestamp fits in 42 bits.
pub proof fn lemma_decompose_inverts_compose(timestamp_ms: u64, machine_id: u64, sequence: u64)
    requires
        timestamp_ms < 0x400_0000_0000,
        machine_id <= MAX_MACHINE_ID,
        sequence <= MAX_SEQUENCE,
    ensures
        ({
            let id = snowflake_id(timestamp_ms, machine_id, sequence);
            &&& id / 4194304 == timestamp_ms
            &&& (id / 4096) % 1024 == machine_id
            &&& id % 4096 == sequence
        }),
{
    lemma_snowflake_id_value(timestamp_ms, machine_id, sequence);
    let id = snowflake_id(timestamp_ms, machine_id, sequence);
    assert(id / 4194304 == timestamp_ms) by (nonlinear_arith)
        requires
            id == timestamp_ms * 4194304 + machine_id * 4096 + sequence,
            machine_id <= 1023,
            sequence <= 4095,
    ;
    assert(id / 4096 == timestamp_ms * 1024 + machine_id) by (nonlinear_arith)
        requires
            id == timestamp_ms * 4194304 + machine_id * 4096 + sequence,
            sequence <= 4095,
    ;
    assert((timestamp_ms * 1024 + machine_id) % 1024 == machine_id) by (nonlinear_arith)
        requires
            machine_id <= 1023,
    ;
    assert(id % 4096 == sequence) by (nonlinear_arith)
        requires
            id == timestamp_ms * 4194304 + machine_id * 4096 + sequence,
            sequence <= 4095,
    ;
}

/// Each issued ID is strictly greater than the one issued before it (and so
/// no ID is issued twice), while the millisecond count fits in 42 bits.
pub proof fn lemma_issued_ids_increase(before: Snowflake, after: Snowflake)
    requires
        before.in_range(),
        after.in_range(),
        issued_next(before, after),
        after.last_ms() < 0x400_0000_0000,
    ensures
        before.current_id() < after.current_id(),
{
    lemma_snowflake_id_value(before.last_ms(), before.machine_id(), before.sequence());
    lemma_snowflake_id_value(after.last_ms(), after.machine_id(), after.sequence());
    if after.last_ms() > before.last_ms() {
        assert(before.last_ms() * 4194304 + 4194304 <= after.last_ms() * 4194304)
            by (nonlinear_arith)
            requires
                after.last_ms() > before.last_ms(),
        ;
    }
}

/// Splits an ID into `(timestamp_ms_since_epoch, machine_id, sequence)`.
pub fn decompose_id(id: u64) -> (parts: (u64, u64, u64))
    ensures
        parts.0 == id / 4194304,
        parts.1 == (id / 4096) % 1024,
        parts.2 == id % 4096,
{
    let sequence = id & MAX_SEQUENCE;
    let machine_id = (id >> MACHINE_ID_SHIFT) & MAX_MACHINE_ID;
    let ts_ms = id >> TIMESTAMP_SHIFT;
    assert(id & 4095u64 == id % 4096) by (bit_vector);
    assert((id >> 12u64) & 1023u64 == (id / 4096) % 1024) by (bit_vector);
    assert(id >> 22u64 == id / 4194304) by (bit_vector);
    (ts_ms, machine_id, sequence)
}

/// Over any run of issued IDs, a later ID is strictly greater than an earlier
/// one, so no two are equal, while the millisecond count stays below 2^42.
/// `states[0]` is the generator before the run, `states[k]` after the `k`-th ID.
pub proof fn lemma_run_of_ids_increases(states: Seq<Snowflake>, i: int, j: int)
    requires
        forall|k: int| 0 <= k < states.len() ==> #[trigger] states[k].in_range(),
        forall|k: int| 0 <= k < states.len() ==> #[trigger] states[k].last_ms() < 0x400_0000_0000,
        forall|k: int|
            0 <= k < states.len() - 1 ==> issued_next(#[trigger] states[k], states[k + 1]),
        0 <= i < j < states.len(),
    ensures
        states[i].current_id() < states[j].current_id(),
    decreases j - i,
{
    lemma_issued_ids_increase(states[j - 1], states[j]);
    if i < j - 1 {
        lemma_run_of_ids_increases(states, i, j - 1);
    }
}

} // verus!
