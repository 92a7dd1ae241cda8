//! Points in time, as the seconds since the Unix epoch and the nanoseconds
//! beyond them. Which pairs of numbers are a point in time is for the
//! calendar of the `chrono` crate to say.

use crate::endian::{le_bytes, lemma_radix_values};
use crate::error::{Failure, LBSError};
use crate::format::{
    lemma_signed_round_trip, lemma_unsigned_round_trip, parse_signed, parse_unsigned, signed_wire,
    Parsed,
};
use crate::read::LBSRead;
use crate::roundtrip::RoundTrip;
use crate::stream::Reader;
use crate::write::LBSWrite;
use chrono::{TimeZone, Utc};
use vstd::prelude::*;

verus! {

/// Seconds since the Unix epoch, not counting leap seconds, and the
/// nanoseconds since the last whole second.
#[derive(Clone, Copy, Debug, PartialEq, Eq, Structural)]
pub struct Timestamp {
    pub secs: i64,
    pub nanos: u32,
}

impl View for Timestamp {
    type V = Timestamp;

    open spec fn view(&self) -> Timestamp {
        *self
    }
}

impl DeepView for Timestamp {
    type V = Timestamp;

    open spec fn deep_view(&self) -> Timestamp {
        *self
    }
}

/// Whether `chrono` has a date and time in UTC for the seconds and
/// nanoseconds.
pub uninterp spec fn is_utc_timestamp(secs: int, nanos: nat) -> bool;

/// Asks `chrono`, through `TimeZone::timestamp_opt` of `Utc`, whether the
/// seconds and nanoseconds are a date and time. The answer depends on the
/// two numbers alone; nothing more is claimed of it.
#[verifier::external_body]
fn has_utc_date_time(secs: i64, nanos: u32) -> (valid: bool)
    ensures
        valid == is_utc_timestamp(secs as int, nanos as nat),
{
    Utc.timestamp_opt(secs, nanos).single().is_some()
}

/// What a timestamp is worth on the wire: itself if the calendar has it,
/// else the failure of an invalid timestamp.
pub open spec fn checked(timestamp: Timestamp, valid: bool) -> Result<Timestamp, Failure> {
    if valid {
        Ok(timestamp)
    } else {
        Err(Failure::InvalidTimestamp)
    }
}

/// The timestamp of the seconds and nanoseconds, given whether the
/// calendar has it.
pub fn timestamp_from(secs: i64, nanos: u32, valid: bool) -> (res: Result<Timestamp, LBSError>)
    ensures
        match res {
            Ok(timestamp) => checked(Timestamp { secs, nanos }, valid) == Ok::<_, Failure>(
                timestamp,
            ),
            Err(e) => checked(Timestamp { secs, nanos }, valid) == Err::<Timestamp, _>(e@),
        },
{
    if valid {
        Ok(Timestamp { secs, nanos })
    } else {
        Err(LBSError::InvalidTimestamp)
    }
}

impl Timestamp {
    /// Whether the timestamp is a date and time of the calendar.
    pub open spec fn valid(self) -> bool {
        is_utc_timestamp(self.secs as int, self.nanos as nat)
    }

    /// Whether the timestamp is a date and time of the calendar.
    pub fn is_valid(&self) -> (valid: bool)
        ensures
            valid == self.valid(),
    {
        has_utc_date_time(self.secs, self.nanos)
    }
}

impl LBSWrite for Timestamp {
    /// The seconds in eight bytes, then the nanoseconds in four. A
    /// timestamp that the calendar does not have is not written.
    open spec fn wire(&self) -> Seq<u8> {
        if self.valid() {
            signed_wire(self.secs as int, 8) + le_bytes(self.nanos as nat, 4)
        } else {
            Seq::empty()
        }
    }

    open spec fn outcome(&self) -> Result<(), Failure> {
        if self.valid() {
            Ok(())
        } else {
            Err(Failure::InvalidTimestamp)
        }
    }

    open spec fn must_write(&self) -> bool {
        true
    }

    fn lbs_write(&self, w: &mut Vec<u8>) -> (res: Result<(), LBSError>) {
        let ghost before = w@;
        if !self.is_valid() {
            assert(before + Seq::<u8>::empty() =~= before);
            return Err(LBSError::InvalidTimestamp);
        }
        self.secs.lbs_write(w)?;
        let res = self.nanos.lbs_write(w);
        assert(w@ =~= before + (signed_wire(self.secs as int, 8) + le_bytes(self.nanos as nat, 4)));
        res
    }

    fn lbs_must_write(&self) -> (must: bool) {
        true
    }
}

impl LBSRead for Timestamp {
    open spec fn parse(input: Seq<u8>) -> Parsed<Timestamp> {
        let secs = parse_signed(input, 8);
        match secs.result {
            Ok(s) => {
                let nanos = parse_unsigned(secs.rest, 4);
                match nanos.result {
                    Ok(n) => Parsed {
                        result: checked(
                            Timestamp { secs: s as i64, nanos: n as u32 },
                            is_utc_timestamp(s as i64 as int, n as u32 as nat),
                        ),
                        rest: nanos.rest,
                    },
                    Err(failure) => Parsed::failed(failure, nanos.rest),
                }
            },
            Err(failure) => Parsed::failed(failure, secs.rest),
        }
    }

    fn lbs_read(r: &mut Reader) -> (res: Result<Self, LBSError>) {
        let secs = i64::lbs_read(r)?;
        let nanos = u32::lbs_read(r)?;
        timestamp_from(secs, nanos, has_utc_date_time(secs, nanos))
    }
}

impl RoundTrip for Timestamp {
    proof fn lemma_round_trip(&self, rest: Seq<u8>) {
        lemma_radix_values();
        let tail = le_bytes(self.nanos as nat, 4);
        assert(self.wire() + rest =~= signed_wire(self.secs as int, 8) + (tail + rest));
        lemma_signed_round_trip(self.secs as int, 8, tail + rest);
        lemma_unsigned_round_trip(self.nanos as nat, 4, rest);
    }
}

} // verus!
