use punch::err::Error;
use punch::round::{RoundingDirection, RoundingGranularityInSeconds, RoundingOptions};
use punch::time::Duration;

fn opts(direction: RoundingDirection, granularity: usize) -> RoundingOptions {
    RoundingOptions { direction, granularity: RoundingGranularityInSeconds(granularity) }
}

#[test]
fn direction_tokens_parse_case_insensitively() {
    assert!(matches!(RoundingDirection::try_from_str("down"), Ok(RoundingDirection::Down)));
    assert!(matches!(RoundingDirection::try_from_str("d"), Ok(RoundingDirection::Down)));
    assert!(matches!(RoundingDirection::try_from_str("DOWN"), Ok(RoundingDirection::Down)));
    assert!(matches!(RoundingDirection::try_from_str("up"), Ok(RoundingDirection::Up)));
    assert!(matches!(RoundingDirection::try_from_str("U"), Ok(RoundingDirection::Up)));
    assert!(matches!(RoundingDirection::try_from_str("nearest"), Ok(RoundingDirection::Nearest)));
    assert!(matches!(RoundingDirection::try_from_str("NeArEsT"), Ok(RoundingDirection::Nearest)));
    assert!(matches!(RoundingDirection::try_from_str("n"), Ok(RoundingDirection::Nearest)));
}

#[test]
fn direction_rejects_unknown_tokens() {
    assert_eq!(RoundingDirection::try_from_str("sideways"), Err(Error::InvalidRoundingDirection));
    assert_eq!(RoundingDirection::try_from_str(""), Err(Error::InvalidRoundingDirection));
    assert_eq!(RoundingDirection::try_from_str("downward"), Err(Error::InvalidRoundingDirection));
}

#[test]
fn granularity_converts_amount_and_unit_to_seconds() {
    assert_eq!(
        RoundingGranularityInSeconds::try_from_str("5min"),
        Ok(RoundingGranularityInSeconds(300))
    );
    assert_eq!(
        RoundingGranularityInSeconds::try_from_str("1h"),
        Ok(RoundingGranularityInSeconds(3600))
    );
    assert_eq!(
        RoundingGranularityInSeconds::try_from_str("2hour"),
        Ok(RoundingGranularityInSeconds(7200))
    );
    assert_eq!(
        RoundingGranularityInSeconds::try_from_str("3day"),
        Ok(RoundingGranularityInSeconds(259200))
    );
    assert_eq!(
        RoundingGranularityInSeconds::try_from_str("2w"),
        Ok(RoundingGranularityInSeconds(1209600))
    );
    assert_eq!(
        RoundingGranularityInSeconds::try_from_str("10M"),
        Ok(RoundingGranularityInSeconds(600))
    );
}

#[test]
fn granularity_rejects_malformed_or_unbounded_units() {
    assert_eq!(
        RoundingGranularityInSeconds::try_from_str("min"),
        Err(Error::InvalidTimeInterval)
    );
    assert_eq!(RoundingGranularityInSeconds::try_from_str("5"), Err(Error::InvalidTimeInterval));
    assert_eq!(
        RoundingGranularityInSeconds::try_from_str("xmin"),
        Err(Error::InvalidTimeInterval)
    );
    assert_eq!(
        RoundingGranularityInSeconds::try_from_str("5month"),
        Err(Error::InvalidTimeInterval)
    );
    assert_eq!(
        RoundingGranularityInSeconds::try_from_str("5year"),
        Err(Error::InvalidTimeInterval)
    );
    assert_eq!(RoundingGranularityInSeconds::try_from_str(""), Err(Error::InvalidTimeInterval));
}

#[test]
fn granularity_of_zero_is_invalid_configuration() {
    assert_eq!(
        RoundingGranularityInSeconds::try_from_str("0min"),
        Err(Error::InvalidConfiguration)
    );
    assert_eq!(RoundingGranularityInSeconds::try_from_str("0h"), Err(Error::InvalidConfiguration));
}

#[test]
fn rounding_options_parse_both_halves() {
    let o = RoundingOptions::try_from_str("up,5min").unwrap();
    assert_eq!(o.direction, RoundingDirection::Up);
    assert_eq!(o.granularity.0, 300);

    let o = RoundingOptions::try_from_str("Nearest,1h").unwrap();
    assert_eq!(o.direction, RoundingDirection::Nearest);
    assert_eq!(o.granularity.0, 3600);
}

#[test]
fn rounding_options_report_the_unparseable_half() {
    assert_eq!(RoundingOptions::try_from_str("up"), Err(Error::InvalidTimeInterval));
    assert_eq!(RoundingOptions::try_from_str("up,5min,3"), Err(Error::InvalidTimeInterval));
    assert_eq!(RoundingOptions::try_from_str("sideways,5min"), Err(Error::InvalidRoundingDirection));
    assert_eq!(RoundingOptions::try_from_str("up,zzz"), Err(Error::InvalidTimeInterval));
    assert_eq!(RoundingOptions::try_from_str("up,0min"), Err(Error::InvalidConfiguration));
}

#[test]
fn validate_str_accepts_and_rejects_like_the_parser() {
    assert!(RoundingOptions::validate_str(String::from("up,5min")).is_ok());
    assert!(RoundingOptions::validate_str(String::from("nearest,1h")).is_ok());
    let m = RoundingOptions::validate_str(String::from("updown")).unwrap_err();
    assert!(m.contains("<ROUNDING>"));
    let m = RoundingOptions::validate_str(String::from("x,5min")).unwrap_err();
    assert!(m.contains("DIRECTION"));
    let m = RoundingOptions::validate_str(String::from("up,zzz")).unwrap_err();
    assert!(m.contains("GRANULARITY"));
}

#[test]
fn default_rounding_is_nearest_minute() {
    let o = RoundingOptions::default();
    assert_eq!(o.direction, RoundingDirection::Nearest);
    assert_eq!(o.granularity.0, 60);
}

#[test]
fn round_lands_on_a_boundary_within_one_granularity() {
    // An aligned duration is returned unchanged.
    assert_eq!(Duration(28800).round(&opts(RoundingDirection::Nearest, 3600)), Duration(28800));
    assert_eq!(Duration(0).round(&opts(RoundingDirection::Up, 3600)), Duration(0));
    // Down and up move to the enclosing boundaries.
    assert_eq!(Duration(3000).round(&opts(RoundingDirection::Down, 3600)), Duration(0));
    assert_eq!(Duration(3000).round(&opts(RoundingDirection::Up, 3600)), Duration(3600));
    // The aligned-and-close law on a sample of values.
    for seconds in [0i64, 59, 60, 61, 3599, 3600, 5400, 86399] {
        for direction in [RoundingDirection::Down, RoundingDirection::Up, RoundingDirection::Nearest]
        {
            let o = opts(direction, 900);
            let r = Duration(seconds).round(&o);
            assert_eq!(r.0.rem_euclid(900), 0);
            assert!((r.0 - seconds).abs() <= 900);
        }
    }
}

#[test]
fn round_is_idempotent() {
    for seconds in [0i64, 45, 2400, 3000, 5400, 7801] {
        for direction in [RoundingDirection::Down, RoundingDirection::Up, RoundingDirection::Nearest]
        {
            let o = opts(direction, 3600);
            let once = Duration(seconds).round(&o);
            let twice = once.round(&o);
            assert_eq!(once, twice);
        }
    }
}

#[test]
fn nearest_rounds_a_tie_up() {
    // Exactly half a granularity above the boundary goes up, always.
    assert_eq!(Duration(1800).round(&opts(RoundingDirection::Nearest, 3600)), Duration(3600));
    assert_eq!(Duration(5400).round(&opts(RoundingDirection::Nearest, 3600)), Duration(7200));
    assert_eq!(Duration(30).round(&opts(RoundingDirection::Nearest, 60)), Duration(60));
    // Just below the middle goes down.
    assert_eq!(Duration(1799).round(&opts(RoundingDirection::Nearest, 3600)), Duration(0));
}

#[test]
fn hms_splits_a_duration_for_display() {
    assert_eq!(Duration(7800).hms(), (2, 10, 0));
    assert_eq!(Duration(0).hms(), (0, 0, 0));
    assert_eq!(Duration(3661).hms(), (1, 1, 1));
    assert_eq!(Duration(59).hms(), (0, 0, 59));
}

#[test]
fn sum_and_mean_over_durations() {
    let items = vec![Duration(3000), Duration(4800)];
    assert_eq!(Duration::sum(&items), Duration(7800));
    assert_eq!(Duration::mean(&items), Duration(3900));

    let empty: Vec<Duration> = Vec::new();
    assert_eq!(Duration::sum(&empty), Duration(0));

    // The mean truncates toward zero, also for negative sums.
    let negatives = vec![Duration(-3), Duration(-4)];
    assert_eq!(Duration::mean(&negatives), Duration(-3));
}
