//! Display configuration threaded from the boundary into the core:
//! grouping interval, alignment, precision and rounding options.

use vstd::prelude::*;

use crate::round::{RoundingDirection, RoundingOptions};
use crate::time::Interval;

verus! {

/// Options controlling how one record line is rendered.
#[derive(Clone, Copy, Debug, PartialEq, Eq, Structural)]
pub struct RecordFormattingOptions {
    /// Pad record indices to align with this many records.
    pub align_with_n_records: usize,
    /// Render timestamps precisely, with offset and sub-second digits.
    pub precise: bool,
    /// Render timestamps with their time zone.
    pub timezone: bool,
    /// How displayed durations are rounded.
    pub rounding_opts: RoundingOptions,
}

impl Default for RecordFormattingOptions {
    fn default() -> (r: Self)
        ensures
            r.align_with_n_records == 0,
            !r.precise,
            r.timezone,
            r.rounding_opts.direction == RoundingDirection::Nearest,
            r.rounding_opts.granularity.0 == 60,
    {
        RecordFormattingOptions {
            align_with_n_records: 0,
            precise: false,
            timezone: true,
            rounding_opts: Default::default(),
        }
    }
}

/// Options controlling how a whole card is displayed.
#[derive(Clone, Copy, Debug, PartialEq, Eq, Structural)]
pub struct CardFormattingOptions {
    /// The interval at which records are grouped into buckets.
    pub interval: Interval,
    pub record_opts: RecordFormattingOptions,
}

impl Default for CardFormattingOptions {
    fn default() -> (r: Self)
        ensures
            r.interval == Interval::Day,
            r.record_opts.align_with_n_records == 0,
            !r.record_opts.precise,
            r.record_opts.timezone,
            r.record_opts.rounding_opts.direction == RoundingDirection::Nearest,
            r.record_opts.rounding_opts.granularity.0 == 60,
    {
        CardFormattingOptions { interval: Default::default(), record_opts: Default::default() }
    }
}

} // verus!
