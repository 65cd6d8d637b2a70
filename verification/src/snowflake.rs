//! Monotonic 64-bit connection identifiers.
//!
//! An identifier packs a millisecond timestamp, a machine id and a
//! per-millisecond sequence number: `(ts << 22) | (machine_id << 12) | seq`.
//! Successive identifiers from one generator are strictly increasing.

use vstd::prelude::*;

verus! {

/// Errors of the connection-identifier generator.
#[derive(Debug, Clone, Copy, PartialEq, Eq, Structural)]
pub enum Error {
    /// The machine id, or the clock reading, is outside the representable
    /// range.
    ExceededMaximumLimit,
    /// The wall clock stayed behind the generator's latest observed
    /// timestamp for every retry.
    ClockRegression,
}

/// Milliseconds of the fixed epoch the timestamp field counts from.
pub const DEFAULT_EPOCH: u64 = 1685290942000;

/// Largest machine id: the field is 10 bits wide.
pub const MAX_MACHINE_ID: u64 = 1023;

/// Largest sequence number within one millisecond: the field is 12 bits wide.
pub const MAX_SEQ: u64 = 4095;

/// Largest representable timestamp: 42 bits remain above the two fields.
pub const MAX_TS: u64 = 0x3ff_ffff_ffff;

/// How many times `gen` re-reads a clock that has not advanced before it
/// reports `ClockRegression`.
pub const RETRY_LIMIT: u64 = 1048576;

/// Relies on `std::time::SystemTime::now` and `duration_since`: milliseconds
/// of the wall clock since the unix epoch. The clock may move arbitrarily
/// between calls, so nothing is promised of the result.
#[verifier::external_body]
fn unix_millis() -> u64 {
    match std::time::SystemTime::now().duration_since(std::time::UNIX_EPOCH) {
        Ok(d) => d.as_millis() as u64,
        Err(_) => 0,
    }
}

/// Generator state: the latest observed timestamp and the sequence number
/// handed out within that millisecond.
pub struct Snowflake {
    machine_id: u64,
    latest_ts: u64,
    seq: u64,
}

/// The identifier packed from a timestamp, machine id and sequence number,
/// as a mathematical integer: `ts * 2^22 + machine_id * 2^12 + seq`.
pub open spec fn spec_id(ts: int, machine_id: int, seq: int) -> int {
    ts * 0x400000 + machine_id * 0x1000 + seq
}

impl Snowflake {
    /// The fields are in range, so a packed identifier fits in 64 bits.
    pub closed spec fn wf(self) -> bool {
        self.machine_id <= MAX_MACHINE_ID && self.seq <= MAX_SEQ && self.latest_ts <= MAX_TS
    }

    /// The identifier the current state packs to; each successful `gen`
    /// moves it strictly upward.
    pub closed spec fn current_id(self) -> int {
        spec_id(self.latest_ts as int, self.machine_id as int, self.seq as int)
    }

    pub closed spec fn spec_machine_id(self) -> u64 {
        self.machine_id
    }

    /// The latest wall-clock millisecond (relative to the epoch) the
    /// generator has observed.
    pub closed spec fn spec_latest_ts(self) -> u64 {
        self.latest_ts
    }

    /// The sequence number handed out within that millisecond.
    pub closed spec fn spec_seq(self) -> u64 {
        self.seq
    }

    /// Builds a generator for `machine_id`; ids out of the 10-bit range are
    /// rejected.
    pub fn new(machine_id: u64) -> (r: Result<Self, Error>)
        ensures
            machine_id <= MAX_MACHINE_ID ==> (r matches Ok(s) && s.wf() && s.spec_machine_id()
                == machine_id && s.current_id() == spec_id(0, machine_id as int, 0)),
            machine_id > MAX_MACHINE_ID ==> r === Err(Error::ExceededMaximumLimit),
    {
        if machine_id > MAX_MACHINE_ID {
            return Err(Error::ExceededMaximumLimit);
        }
        Ok(Snowflake { machine_id, latest_ts: 0, seq: 0 })
    }

    /// One step of the generator against one clock reading: the whole
    /// decision of spec-section 4.1 as a function of the state and the
    /// reading. `Ok(Some(id))` advances; `Ok(None)` asks the caller to read
    /// the clock again (it retreated, sits before the epoch, or this
    /// millisecond's 4096 sequence numbers are spent); a reading past the
    /// 42-bit timestamp range fails at once.
    pub fn advance(&mut self, now_millis: u64) -> (r: Result<Option<u64>, Error>)
        requires
            old(self).wf(),
        ensures
            final(self).wf(),
            final(self).spec_machine_id() == old(self).spec_machine_id(),
            now_millis < DEFAULT_EPOCH ==> r == Ok::<Option<u64>, Error>(None) && *final(self)
                == *old(self),
            now_millis >= DEFAULT_EPOCH && now_millis - DEFAULT_EPOCH > MAX_TS ==> r == Err::<
                Option<u64>,
                Error,
            >(Error::ExceededMaximumLimit) && *final(self) == *old(self),
            now_millis >= DEFAULT_EPOCH && now_millis - DEFAULT_EPOCH <= MAX_TS ==> ({
                let ts = (now_millis - DEFAULT_EPOCH) as u64;
                &&& (ts < old(self).spec_latest_ts() || (ts == old(self).spec_latest_ts() && old(self).spec_seq() == MAX_SEQ)) ==> r == Ok::<Option<u64>, Error>(None) && *final(self)
                    == *old(self)
                &&& (ts == old(self).spec_latest_ts() && old(self).spec_seq() < MAX_SEQ) ==> final(self).spec_latest_ts() == ts && final(self).spec_seq() == old(self).spec_seq() + 1
                &&& ts > old(self).spec_latest_ts() ==> final(self).spec_latest_ts() == ts && final(self).spec_seq() == 0
                &&& (ts > old(self).spec_latest_ts() || (ts == old(self).spec_latest_ts() && old(self).spec_seq() < MAX_SEQ)) ==> r == Ok::<Option<u64>, Error>(
                    Some(
                        spec_id(
                            final(self).spec_latest_ts() as int,
                            final(self).spec_machine_id() as int,
                            final(self).spec_seq() as int,
                        ) as u64,
                    ),
                )
            }),
    {
        if now_millis < DEFAULT_EPOCH {
            return Ok(None);
        }
        let ts = now_millis - DEFAULT_EPOCH;
        if ts > MAX_TS {
            return Err(Error::ExceededMaximumLimit);
        }
        if ts == self.latest_ts && self.seq < MAX_SEQ {
            self.seq = self.seq + 1;
            return Ok(Some(self.pack()));
        }
        if ts > self.latest_ts {
            self.latest_ts = ts;
            self.seq = 0;
            return Ok(Some(self.pack()));
        }
        // the clock retreated, or this millisecond is spent
        Ok(None)
    }

    /// Draws the next identifier. A clock that retreated, or a millisecond
    /// whose 4096 sequence numbers are spent, is retried until the clock
    /// advances; a clock past the 42-bit range fails at once. The decision
    /// against each reading is `advance`; only the readings come from
    /// outside.
    pub fn gen(&mut self) -> (r: Result<u64, Error>)
        requires
            old(self).wf(),
        ensures
            final(self).wf(),
            final(self).spec_machine_id() == old(self).spec_machine_id(),
            match r {
                Ok(id) => {
                    &&& id == final(self).current_id()
                    &&& final(self).current_id() > old(self).current_id()
                    &&& id == spec_id(
                        final(self).spec_latest_ts() as int,
                        final(self).spec_machine_id() as int,
                        final(self).spec_seq() as int,
                    )
                    &&& id % 0x1000 == final(self).spec_seq()
                    &&& id / 0x1000 % 0x400 == final(self).spec_machine_id()
                    &&& id / 0x400000 == final(self).spec_latest_ts()
                    &&& final(self).spec_seq() <= MAX_SEQ
                    &&& final(self).spec_latest_ts() <= MAX_TS
                },
                Err(e) => *final(self) == *old(self) && (e == Error::ClockRegression || e
                    == Error::ExceededMaximumLimit),
            },
    {
        let mut attempts: u64 = 0;
        while attempts < RETRY_LIMIT
            invariant
                *self == *old(self),
                old(self).wf(),
            decreases RETRY_LIMIT - attempts,
        {
            let now = unix_millis();
            let ghost before = *self;
            match self.advance(now) {
                Ok(Some(id)) => {
                    return Ok(id);
                },
                Ok(None) => {
                    proof {
                        assert(*self == before);
                    }
                },
                Err(e) => {
                    return Err(e);
                },
            }
            attempts = attempts + 1;
        }
        Err(Error::ClockRegression)
    }

    /// Packs the current state into an identifier.
    fn pack(&self) -> (id: u64)
        requires
            self.wf(),
        ensures
            id == self.current_id(),
            id % 0x1000 == self.spec_seq(),
            id / 0x1000 % 0x400 == self.spec_machine_id(),
            id / 0x400000 == self.spec_latest_ts(),
    {
        let id = self.latest_ts * 0x400000 + self.machine_id * 0x1000 + self.seq;
        proof {
            assert(id % 0x1000 == self.seq) by (nonlinear_arith)
                requires
                    id == self.latest_ts * 0x400000 + self.machine_id * 0x1000 + self.seq,
                    self.seq <= 4095,
            ;
            assert(id / 0x1000 == self.latest_ts * 0x400 + self.machine_id) by (nonlinear_arith)
                requires
                    id == self.latest_ts * 0x400000 + self.machine_id * 0x1000 + self.seq,
                    self.seq <= 4095,
            ;
            assert((self.latest_ts * 0x400 + self.machine_id) % 0x400 == self.machine_id)
                by (nonlinear_arith)
                requires
                    self.machine_id <= 1023,
            ;
            assert(id / 0x400000 == self.latest_ts) by (nonlinear_arith)
                requires
                    id == self.latest_ts * 0x400000 + self.machine_id * 0x1000 + self.seq,
                    self.seq <= 4095,
                    self.machine_id <= 1023,
            ;
        }
        id
    }
}

} // verus!
