//! A single punch interval: start instant, optional end, stable ordinal
//! index and optional note.

use vstd::prelude::*;

use crate::time::{Duration, Interval, Timestamp};

verus! {

/// One punch interval. `end` is `None` while the interval is open (the
/// subject is punched in); the index is the record's position in insertion
/// order, assigned once and never reassigned.
#[derive(Debug)]
pub struct Record {
    /// Ordinal position: the count of records that existed at insertion.
    pub i: usize,
    pub start: Timestamp,
    pub end: Option<Timestamp>,
    pub note: Option<String>,
}

/// The record's span in seconds at instant `now`: `end - start`, with `now`
/// substituted for a missing end.
pub open spec fn duration_seconds_at(r: Record, now: Timestamp) -> int {
    match r.end {
        Some(e) => e.epoch - r.start.epoch,
        None => now.epoch - r.start.epoch,
    }
}

impl Record {
    /// A fresh open record: its index is the count of existing records,
    /// which must be assigned before insertion.
    pub fn new(timestamp: Timestamp, num_existing: usize, note: Option<String>) -> (r: Record)
        ensures
            r.i == num_existing,
            r.start == timestamp,
            r.end is None,
            r.note == note,
    {
        Record { i: num_existing, start: timestamp, end: None, note }
    }

    /// The record has ended, and not before it started. An `end` earlier
    /// than `start` does not count as terminated: it is flagged as
    /// corruption upstream, never silently accepted.
    pub open spec fn is_terminated_spec(self) -> bool {
        match self.end {
            Some(e) => self.start.epoch <= e.epoch,
            None => false,
        }
    }

    pub fn is_terminated(&self) -> (b: bool)
        ensures
            b == self.is_terminated_spec(),
    {
        match &self.end {
            Some(e) => self.start.epoch <= e.epoch,
            None => false,
        }
    }

    /// The key of the bucket this record falls in for `interval`.
    pub fn bucket_key(&self, interval: Interval) -> (k: u32)
        ensures
            k == self.start.interval_key(interval),
    {
        self.start.floor_to_interval_units(interval)
    }

    /// The record's span at instant `now`; deterministic in its arguments.
    pub fn duration_at(&self, now: Timestamp) -> (d: Duration)
        ensures
            d.0 == duration_seconds_at(*self, now),
    {
        match &self.end {
            Some(e) => Duration::between(self.start, *e),
            None => Duration::between(self.start, now),
        }
    }

    /// The record's span, substituting the current wall clock for a
    /// missing end: the elapsed time so far of an open record.
    pub fn duration(&self) -> (d: Duration)
        ensures
            self.end matches Some(e) ==> d.0 == e.epoch - self.start.epoch,
            exists|t: Timestamp| d.0 == duration_seconds_at(*self, t),
            -0xFFFF_FFFF <= d.0 <= 0xFFFF_FFFF,
    {
        let now = Timestamp::now();
        let d = self.duration_at(now);
        proof {
            assert(d.0 == duration_seconds_at(*self, now));
        }
        d
    }
}

impl Duration {
    /// The span of `r`; an open record runs until the current instant.
    pub fn of_record(r: &Record) -> (d: Duration)
        ensures
            r.end matches Some(e) ==> d.0 == e.epoch - r.start.epoch,
            exists|t: Timestamp| d.0 == duration_seconds_at(*r, t),
            -0xFFFF_FFFF <= d.0 <= 0xFFFF_FFFF,
    {
        r.duration()
    }
}

} // verus!
