//! The rounding engine: a direction and a positive granularity in seconds,
//! parsed from a `<direction>,<amount><unit>` specification, and the
//! rounding of durations to a boundary of that granularity.

use vstd::prelude::*;

use vstd::arithmetic::div_mod::*;
use vstd::string::StringExecFns;

use crate::err::Error;
use crate::seqs::lemma_filter_push;
use crate::text::{
    alpha_part, letter_pred, lower_eq, nonalpha_part, nonletter_pred,
    parse_usize_chars, parse_usize_spec, str_eq_ignore_case,
};
use crate::time::{Duration, Interval, interval_token};

verus! {

/// Which granularity boundary a duration is rounded to.
#[derive(Clone, Copy, Debug, PartialEq, Eq, Structural)]
pub enum RoundingDirection {
    Down,
    Up,
    Nearest,
}

/// The direction named by a token, up to ASCII case; `None` otherwise.
pub open spec fn direction_token(s: Seq<char>) -> Option<RoundingDirection> {
    if lower_eq(s, "down"@) || lower_eq(s, "d"@) {
        Some(RoundingDirection::Down)
    } else if lower_eq(s, "up"@) || lower_eq(s, "u"@) {
        Some(RoundingDirection::Up)
    } else if lower_eq(s, "nearest"@) || lower_eq(s, "n"@) {
        Some(RoundingDirection::Nearest)
    } else {
        None
    }
}

impl RoundingDirection {
    /// Parse a rounding-direction token, case-insensitively.
    pub fn try_from_str(s: &str) -> (r: Result<RoundingDirection, Error>)
        ensures
            match direction_token(s@) {
                Some(d) => r == Ok::<RoundingDirection, Error>(d),
                None => r == Err::<RoundingDirection, Error>(Error::InvalidRoundingDirection),
            },
    {
        if str_eq_ignore_case(s, "down") || str_eq_ignore_case(s, "d") {
            Ok(RoundingDirection::Down)
        } else if str_eq_ignore_case(s, "up") || str_eq_ignore_case(s, "u") {
            Ok(RoundingDirection::Up)
        } else if str_eq_ignore_case(s, "nearest") || str_eq_ignore_case(s, "n") {
            Ok(RoundingDirection::Nearest)
        } else {
            Err(Error::InvalidRoundingDirection)
        }
    }
}

/// A rounding granularity: a positive count of seconds.
#[derive(Clone, Copy, Debug, PartialEq, Eq, Structural)]
pub struct RoundingGranularityInSeconds(pub usize);

impl Default for RoundingGranularityInSeconds {
    /// The default granularity is one minute.
    fn default() -> (r: Self)
        ensures
            r.0 == 60,
    {
        RoundingGranularityInSeconds(60)
    }
}

/// Seconds per unit of `interval`, where an interval of fixed length names
/// a granularity unit; months and years have none.
pub open spec fn unit_seconds(interval: Interval) -> Option<int> {
    match interval {
        Interval::Second => Some(1),
        Interval::Minute => Some(60),
        Interval::Hour => Some(3600),
        Interval::Day => Some(86400),
        Interval::Week => Some(604800),
        Interval::Month => None,
        Interval::Year => None,
    }
}

/// The granularity in seconds named by `<amount><unit>`: the non-letter
/// characters are the decimal amount, the letters the unit token, and the
/// product must fit in `usize`. `None` when any of that fails.
pub open spec fn granularity_seconds(s: Seq<char>) -> Option<int> {
    match parse_usize_spec(nonalpha_part(s)) {
        None => None,
        Some(amount) => match interval_token(alpha_part(s)) {
            None => None,
            Some(iv) => match unit_seconds(iv) {
                None => None,
                Some(unit) => if amount * unit <= usize::MAX {
                    Some(amount * unit)
                } else {
                    None
                },
            },
        },
    }
}

impl RoundingGranularityInSeconds {
    /// Parse `<amount><unit>`, e.g. `5min` or `1h`. A granularity that
    /// cannot be read, or whose unit has no fixed length, is
    /// `InvalidTimeInterval`; a zero granularity is `InvalidConfiguration`.
    pub fn try_from_str(s: &str) -> (r: Result<RoundingGranularityInSeconds, Error>)
        ensures
            match granularity_seconds(s@) {
                Some(v) => if v > 0 {
                    r matches Ok(g) && g.0 == v
                } else {
                    r == Err::<RoundingGranularityInSeconds, Error>(Error::InvalidConfiguration)
                },
                None => r == Err::<RoundingGranularityInSeconds, Error>(Error::InvalidTimeInterval),
            },
    {
        let n: usize = s.unicode_len();
        let mut alpha: Vec<char> = Vec::new();
        let mut other: Vec<char> = Vec::new();
        let mut i: usize = 0;
        while i < n
            invariant
                0 <= i <= n,
                n == s@.len(),
                alpha@ == alpha_part(s@.take(i as int)),
                other@ == nonalpha_part(s@.take(i as int)),
            decreases n - i,
        {
            let c: char = s.get_char(i);
            let code: u32 = c as u32;
            proof {
                assert(s@.take(i + 1) =~= s@.take(i as int).push(s@[i as int]));
                lemma_filter_push(s@.take(i as int), letter_pred(), s@[i as int]);
                lemma_filter_push(s@.take(i as int), nonletter_pred(), s@[i as int]);
            }
            if (65 <= code && code <= 90) || (97 <= code && code <= 122) {
                alpha.push(c);
            } else {
                other.push(c);
            }
            i += 1;
        }
        proof {
            assert(s@.take(n as int) =~= s@);
        }
        let amount: usize = match parse_usize_chars(&other) {
            Some(a) => a,
            None => {
                return Err(Error::InvalidTimeInterval);
            },
        };
        let iv: Interval = match Interval::try_from_chars(&alpha) {
            Ok(iv) => iv,
            Err(_) => {
                return Err(Error::InvalidTimeInterval);
            },
        };
        let unit: usize = match iv {
            Interval::Second => 1,
            Interval::Minute => 60,
            Interval::Hour => 3600,
            Interval::Day => 86400,
            Interval::Week => 604800,
            Interval::Month => {
                return Err(Error::InvalidTimeInterval);
            },
            Interval::Year => {
                return Err(Error::InvalidTimeInterval);
            },
        };
        if amount > usize::MAX / unit {
            // The product would not fit in usize.
            proof {
                lemma_fundamental_div_mod(usize::MAX as int, unit as int);
                lemma_mod_division_less_than_divisor(usize::MAX as int, unit as int);
                assert(amount * unit >= (usize::MAX as int / unit as int + 1) * unit)
                    by (nonlinear_arith)
                    requires
                        amount >= usize::MAX as int / unit as int + 1,
                        unit >= 1,
                ;
                assert((usize::MAX as int / unit as int + 1) * unit == (usize::MAX as int
                    / unit as int) * unit + unit) by (nonlinear_arith);
            }
            return Err(Error::InvalidTimeInterval);
        }
        proof {
            lemma_fundamental_div_mod(usize::MAX as int, unit as int);
            lemma_mod_division_less_than_divisor(usize::MAX as int, unit as int);
            assert(amount * unit <= (usize::MAX as int / unit as int) * unit)
                by (nonlinear_arith)
                requires
                    amount <= usize::MAX as int / unit as int,
                    unit >= 1,
            ;
        }
        let v: usize = amount * unit;
        if v == 0 {
            Err(Error::InvalidConfiguration)
        } else {
            Ok(RoundingGranularityInSeconds(v))
        }
    }
}

/// The full rounding configuration: direction and granularity.
#[derive(Clone, Copy, Debug, PartialEq, Eq, Structural)]
pub struct RoundingOptions {
    pub direction: RoundingDirection,
    pub granularity: RoundingGranularityInSeconds,
}

impl Default for RoundingOptions {
    /// The default rounds to the nearest minute.
    fn default() -> (r: Self)
        ensures
            r.direction == RoundingDirection::Nearest,
            r.granularity.0 == 60,
    {
        RoundingOptions { direction: RoundingDirection::Nearest, granularity: Default::default() }
    }
}

/// `i` is the position of the only comma in `s`.
pub open spec fn single_comma_at(s: Seq<char>, i: int) -> bool {
    &&& 0 <= i < s.len()
    &&& s[i] == ','
    &&& forall|j: int| 0 <= j < s.len() && j != i ==> s[j] != ','
}

/// `s` holds exactly one comma.
pub open spec fn has_single_comma(s: Seq<char>) -> bool {
    exists|i: int| single_comma_at(s, i)
}

/// What a full `<direction>,<amount><unit>` specification names: the
/// direction and the granularity in seconds, or the error of whichever
/// half cannot be read. A specification without exactly one comma is
/// `InvalidTimeInterval`; a zero granularity is `InvalidConfiguration`.
pub open spec fn parse_rounding(s: Seq<char>) -> Result<(RoundingDirection, int), Error> {
    if !has_single_comma(s) {
        Err(Error::InvalidTimeInterval)
    } else {
        let i = choose|i: int| single_comma_at(s, i);
        match direction_token(s.take(i)) {
            None => Err(Error::InvalidRoundingDirection),
            Some(d) => match granularity_seconds(s.skip(i + 1)) {
                None => Err(Error::InvalidTimeInterval),
                Some(v) => if v > 0 {
                    Ok((d, v))
                } else {
                    Err(Error::InvalidConfiguration)
                },
            },
        }
    }
}

/// Find the position of the only comma of `s`, if `s` has exactly one.
fn find_single_comma(s: &str) -> (r: Option<usize>)
    ensures
        match r {
            Some(i) => single_comma_at(s@, i as int),
            None => !has_single_comma(s@),
        },
{
    let n: usize = s.unicode_len();
    let mut first: usize = 0;
    let mut count: usize = 0;
    let mut i: usize = 0;
    while i < n
        invariant
            0 <= i <= n,
            n == s@.len(),
            count <= 1,
            count == 0 ==> forall|j: int| 0 <= j < i ==> s@[j] != ',',
            count == 1 ==> first < i && s@[first as int] == ',' && forall|j: int|
                0 <= j < i && j != first ==> s@[j] != ',',
        decreases n - i,
    {
        let c: char = s.get_char(i);
        if c == ',' {
            if count == 0 {
                first = i;
                count = 1;
            } else {
                proof {
                    assert forall|k: int| !single_comma_at(s@, k) by {
                        if single_comma_at(s@, k) {
                            if k == first {
                                assert(s@[i as int] == ',');
                            } else {
                                assert(s@[first as int] == ',');
                            }
                        }
                    }
                }
                return None;
            }
        }
        i += 1;
    }
    if count == 1 {
        Some(first)
    } else {
        None
    }
}

impl RoundingOptions {
    /// Parse a full rounding specification such as `nearest,5min`.
    pub fn try_from_str(s: &str) -> (r: Result<RoundingOptions, Error>)
        ensures
            match parse_rounding(s@) {
                Ok((d, v)) => r matches Ok(o) && o.direction == d && o.granularity.0 == v,
                Err(e) => r == Err::<RoundingOptions, Error>(e),
            },
    {
        let i: usize = match find_single_comma(s) {
            Some(i) => i,
            None => {
                return Err(Error::InvalidTimeInterval);
            },
        };
        proof {
            let ghost w = choose|w: int| single_comma_at(s@, w);
            assert(w == i as int);
        }
        let n: usize = s.unicode_len();
        let head: &str = s.substring_char(0, i);
        let tail: &str = s.substring_char(i + 1, n);
        proof {
            assert(head@ =~= s@.take(i as int));
            assert(tail@ =~= s@.skip(i + 1));
        }
        let direction: RoundingDirection = match RoundingDirection::try_from_str(head) {
            Ok(d) => d,
            Err(e) => {
                return Err(e);
            },
        };
        let granularity: RoundingGranularityInSeconds =
            match RoundingGranularityInSeconds::try_from_str(tail) {
            Ok(g) => g,
            Err(e) => {
                return Err(e);
            },
        };
        Ok(RoundingOptions { direction, granularity })
    }
}

impl RoundingOptions {
    /// Check a rounding specification before any log access, reporting a
    /// human-readable message for whichever half cannot be read.
    pub fn validate_str(input: String) -> (r: Result<(), String>)
        ensures
            match parse_rounding(input@) {
                Ok(_) => r is Ok,
                Err(e) => r matches Err(m) && (if !has_single_comma(input@) {
                    m@ == "Failed to parse <ROUNDING> argument. Expected <ROUNDING> to be of form '<DIRECTION>,<INTERVAL>'. For example: up,5min"@
                } else if e == Error::InvalidRoundingDirection {
                    m@ == "Failed to parse rounding DIRECTION. Expected one of the following: \"nearest\" (\"n\"), \"up\" (\"u\"), or \"down\" (\"d\")"@
                } else {
                    m@ == "Failed to parse rounding GRANULARITY. Expected a positive time specification like \"5min\", \"1h\", \"3day\", etc."@
                }),
            },
    {
        let s: &str = input.as_str();
        let i: usize = match find_single_comma(s) {
            Some(i) => i,
            None => {
                return Err(String::from_str(
                    "Failed to parse <ROUNDING> argument. Expected <ROUNDING> to be of form '<DIRECTION>,<INTERVAL>'. For example: up,5min",
                ));
            },
        };
        proof {
            let ghost w = choose|w: int| single_comma_at(s@, w);
            assert(w == i as int);
        }
        let n: usize = s.unicode_len();
        let head: &str = s.substring_char(0, i);
        let tail: &str = s.substring_char(i + 1, n);
        proof {
            assert(head@ =~= s@.take(i as int));
            assert(tail@ =~= s@.skip(i + 1));
        }
        match RoundingDirection::try_from_str(head) {
            Ok(_) => {},
            Err(_) => {
                return Err(String::from_str(
                    "Failed to parse rounding DIRECTION. Expected one of the following: \"nearest\" (\"n\"), \"up\" (\"u\"), or \"down\" (\"d\")",
                ));
            },
        }
        match RoundingGranularityInSeconds::try_from_str(tail) {
            Ok(_) => {},
            Err(_) => {
                return Err(String::from_str(
                    "Failed to parse rounding GRANULARITY. Expected a positive time specification like \"5min\", \"1h\", \"3day\", etc.",
                ));
            },
        }
        Ok(())
    }
}

/// The rounding algorithm over mathematical integers: a duration already on
/// a boundary is unchanged; otherwise it moves to the boundary the
/// direction picks, with `Nearest` going up on a tie or beyond the middle.
pub open spec fn round_spec(exact: int, direction: RoundingDirection, granularity: int) -> int
    recommends
        granularity >= 1,
{
    let excess = exact % granularity;
    if excess == 0 {
        exact
    } else {
        let lower = exact - excess;
        match direction {
            RoundingDirection::Down => lower,
            RoundingDirection::Up => lower + granularity,
            RoundingDirection::Nearest => if 2 * excess >= granularity {
                lower + granularity
            } else {
                lower
            },
        }
    }
}

impl Duration {
    /// Round this duration as `opt` directs. The bounds keep every
    /// intermediate value within `i64`.
    pub fn round(&self, opt: &RoundingOptions) -> (d: Duration)
        requires
            1 <= opt.granularity.0,
            opt.granularity.0 <= 0x7FFF_FFFF_FFFF_FFFF,
            self.0 + opt.granularity.0 <= 0x7FFF_FFFF_FFFF_FFFF,
            -0x7FFF_FFFF_FFFF_FFFF + opt.granularity.0 <= self.0,
        ensures
            d.0 == round_spec(self.0 as int, opt.direction, opt.granularity.0 as int),
    {
        let g: u64 = opt.granularity.0 as u64;
        let ghost gi = g as int;
        let m: u64 = if self.0 >= 0 {
            (self.0 as u64) % g
        } else {
            let a: u64 = (-self.0) as u64;
            let rem: u64 = a % g;
            proof {
                lemma_fundamental_div_mod(a as int, gi);
                lemma_mod_division_less_than_divisor(a as int, gi);
                let q = a as int / gi;
                if rem == 0 {
                    assert(self.0 as int == (-q) * gi) by (nonlinear_arith)
                        requires
                            a as int == q * gi + 0,
                            self.0 as int == -(a as int),
                    ;
                    lemma_mod_multiples_basic(-q, gi);
                } else {
                    assert(self.0 as int == (-q - 1) * gi + (gi - rem)) by (nonlinear_arith)
                        requires
                            a as int == q * gi + rem as int,
                            self.0 as int == -(a as int),
                    ;
                    lemma_mod_multiples_vanish(-q - 1, gi - rem, gi);
                    lemma_small_mod((gi - rem) as nat, gi as nat);
                }
            }
            if rem == 0 {
                0
            } else {
                g - rem
            }
        };
        proof {
            lemma_mod_division_less_than_divisor(self.0 as int, gi);
            assert(m == self.0 as int % gi);
        }
        if m == 0 {
            Duration(self.0)
        } else {
            let lower: i64 = self.0 - (m as i64);
            match opt.direction {
                RoundingDirection::Down => Duration(lower),
                RoundingDirection::Up => Duration(lower + (g as i64)),
                RoundingDirection::Nearest => {
                    if m >= g - m {
                        Duration(lower + (g as i64))
                    } else {
                        Duration(lower)
                    }
                },
            }
        }
    }
}

/// Rounding lands on a boundary of the granularity, and moves a duration
/// by at most one granularity.
pub proof fn lemma_round_aligned(exact: int, direction: RoundingDirection, granularity: int)
    requires
        granularity >= 1,
    ensures
        round_spec(exact, direction, granularity) % granularity == 0,
        -granularity <= round_spec(exact, direction, granularity) - exact <= granularity,
{
    let excess = exact % granularity;
    lemma_fundamental_div_mod(exact, granularity);
    lemma_mod_division_less_than_divisor(exact, granularity);
    let q = exact / granularity;
    if excess == 0 {
    } else {
        let lower = exact - excess;
        assert(granularity * q == q * granularity) by (nonlinear_arith);
        assert(lower == q * granularity);
        lemma_mod_multiples_basic(q, granularity);
        assert(lower + granularity == (q + 1) * granularity) by (nonlinear_arith)
            requires
                lower == q * granularity,
        ;
        lemma_mod_multiples_basic(q + 1, granularity);
    }
}

/// Rounding twice with the same options gives what rounding once gives.
pub proof fn lemma_round_idempotent(exact: int, direction: RoundingDirection, granularity: int)
    requires
        granularity >= 1,
    ensures
        round_spec(round_spec(exact, direction, granularity), direction, granularity)
            == round_spec(exact, direction, granularity),
{
    lemma_round_aligned(exact, direction, granularity);
}

/// A duration exceeding the lower boundary by exactly half the granularity
/// rounds up under `Nearest`: the tie goes deterministically toward the
/// upper boundary.
pub proof fn lemma_round_nearest_tie_up(exact: int, granularity: int)
    requires
        granularity >= 1,
        granularity % 2 == 0,
        exact % granularity == granularity / 2,
    ensures
        round_spec(exact, RoundingDirection::Nearest, granularity) == exact + granularity / 2,
{
    lemma_fundamental_div_mod(granularity, 2);
    lemma_mod_division_less_than_divisor(granularity, 2);
    assert(granularity == 2 * (granularity / 2));
    lemma_mod_division_less_than_divisor(exact, granularity);
}

} // verus!

