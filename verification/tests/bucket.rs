use punch::bucket::{group_by_interval, RecordBucket};
use punch::record::Record;
use punch::round::{RoundingDirection, RoundingGranularityInSeconds, RoundingOptions};
use punch::time::{Duration, Interval, Timestamp};

fn at(epoch: u32, year: u16, month: u8, day: u8, week: u8) -> Timestamp {
    Timestamp { epoch, year, month, day, week }
}

fn rec(i: usize, start: Timestamp, seconds: u32) -> Record {
    Record {
        i,
        start,
        end: Some(Timestamp { epoch: start.epoch + seconds, ..start }),
        note: None,
    }
}

fn nearest_hour() -> RoundingOptions {
    RoundingOptions {
        direction: RoundingDirection::Nearest,
        granularity: RoundingGranularityInSeconds(3600),
    }
}

#[test]
fn interval_keys_floor_to_calendar_buckets() {
    // 2024-01-10T09:00:00+00:00
    let t = at(1704877200, 2024, 1, 10, 2);
    assert_eq!(t.floor_to_interval_units(Interval::Second), 1704877200);
    assert_eq!(t.floor_to_interval_units(Interval::Minute), 1704877200 / 60);
    assert_eq!(t.floor_to_interval_units(Interval::Hour), 1704877200 / 3600);
    assert_eq!(t.floor_to_interval_units(Interval::Day), 20240110);
    assert_eq!(t.floor_to_interval_units(Interval::Week), 202402);
    assert_eq!(t.floor_to_interval_units(Interval::Month), 202401);
    assert_eq!(t.floor_to_interval_units(Interval::Year), 2024);
}

#[test]
fn composite_keys_do_not_collide_across_years() {
    // Week 1 of 2024 and week 1 of 2025 are distinct buckets.
    let w2024 = at(1704153600, 2024, 1, 2, 1);
    let w2025 = at(1735776000, 2025, 1, 2, 1);
    assert_ne!(
        w2024.floor_to_interval_units(Interval::Week),
        w2025.floor_to_interval_units(Interval::Week)
    );
    assert_ne!(
        w2024.floor_to_interval_units(Interval::Day),
        w2025.floor_to_interval_units(Interval::Day)
    );
}

#[test]
fn grouping_by_day_splits_and_orders_buckets() {
    let day10 = at(1704877200, 2024, 1, 10, 2);
    let day11 = at(1704963600, 2024, 1, 11, 2);
    // Most recent first, as persisted.
    let records = vec![
        rec(2, day11, 1800),
        rec(1, day10, 4800),
        rec(0, day10, 3000),
    ];
    let buckets = group_by_interval(records, Interval::Day, false);
    assert_eq!(buckets.len(), 2);
    // Ascending by key: day 10 before day 11.
    assert_eq!(buckets[0].key(), 20240110);
    assert_eq!(buckets[1].key(), 20240111);
    // Encounter order within a bucket is kept.
    assert_eq!(buckets[0].records.len(), 2);
    assert_eq!(buckets[0].records[0].i, 1);
    assert_eq!(buckets[0].records[1].i, 0);
    assert_eq!(buckets[1].records.len(), 1);
    assert_eq!(buckets[1].records[0].i, 2);
    assert_eq!(buckets[0].interval, Interval::Day);
    assert!(!buckets[0].precise);
}

#[test]
fn grouping_nothing_yields_no_buckets() {
    let buckets = group_by_interval(Vec::new(), Interval::Week, true);
    assert!(buckets.is_empty());
}

#[test]
fn statistics_compute_both_rounded_figures_independently() {
    // Two terminated records of 00:50:00 and 01:20:00 in one day bucket.
    let day10 = at(1704877200, 2024, 1, 10, 2);
    let mut bucket = RecordBucket::new(Interval::Day, false);
    bucket.add(rec(1, day10, 4800));
    bucket.add(rec(0, day10, 3000));

    let st = bucket.statistics_at(day10, &nearest_hour());
    assert_eq!(st.count, 2);
    // sum = 02:10:00; each record rounds to 01:00:00.
    assert_eq!(st.sum, Duration(7800));
    assert_eq!(st.sum_of_rounded, Duration(7200));
    // rounded sum = round(02:10:00) = 02:00:00 — they coincide here.
    assert_eq!(st.rounded_sum, Duration(7200));
    assert_eq!(st.avg, Duration(3900));
}

#[test]
fn rounding_does_not_distribute_over_sums() {
    // Two records of 00:40:00: each rounds up to 01:00:00, so the sum of
    // rounded spans is 02:00:00, while the raw sum 01:20:00 rounds down
    // to 01:00:00. The two figures diverge.
    let day10 = at(1704877200, 2024, 1, 10, 2);
    let mut bucket = RecordBucket::new(Interval::Day, false);
    bucket.add(rec(1, day10, 2400));
    bucket.add(rec(0, day10, 2400));

    let st = bucket.statistics_at(day10, &nearest_hour());
    assert_eq!(st.sum, Duration(4800));
    assert_eq!(st.sum_of_rounded, Duration(7200));
    assert_eq!(st.rounded_sum, Duration(3600));
    assert_ne!(st.sum_of_rounded, st.rounded_sum);
}

#[test]
fn open_records_run_until_the_given_instant() {
    let start = at(1000, 2024, 1, 10, 2);
    let now = at(4600, 2024, 1, 10, 2);
    let open = Record { i: 0, start, end: None, note: None };
    assert_eq!(open.duration_at(now), Duration(3600));

    let mut bucket = RecordBucket::new(Interval::Day, true);
    bucket.add(open);
    let st = bucket.statistics_at(now, &nearest_hour());
    assert_eq!(st.count, 1);
    assert_eq!(st.sum, Duration(3600));
    assert_eq!(st.avg, Duration(3600));
}

#[test]
fn bucket_sizes_count_their_records() {
    let day10 = at(1704877200, 2024, 1, 10, 2);
    let mut bucket = RecordBucket::new(Interval::Hour, false);
    assert_eq!(bucket.size(), 0);
    bucket.add(rec(0, day10, 60));
    assert_eq!(bucket.size(), 1);
}

#[test]
fn interval_tokens_parse_case_insensitively() {
    assert_eq!(Interval::try_from_str("min"), Ok(Interval::Minute));
    assert_eq!(Interval::try_from_str("M"), Ok(Interval::Minute));
    assert_eq!(Interval::try_from_str("hour"), Ok(Interval::Hour));
    assert_eq!(Interval::try_from_str("h"), Ok(Interval::Hour));
    assert_eq!(Interval::try_from_str("Day"), Ok(Interval::Day));
    assert_eq!(Interval::try_from_str("d"), Ok(Interval::Day));
    assert_eq!(Interval::try_from_str("WEEK"), Ok(Interval::Week));
    assert_eq!(Interval::try_from_str("w"), Ok(Interval::Week));
    assert_eq!(Interval::try_from_str("month"), Ok(Interval::Month));
    assert_eq!(Interval::try_from_str("year"), Ok(Interval::Year));
    assert_eq!(
        Interval::try_from_str("fortnight"),
        Err(punch::err::Error::InvalidTimeInterval)
    );
}

#[test]
fn the_wall_clock_yields_a_plausible_calendar_instant() {
    let t = Timestamp::now();
    assert!((1..=12).contains(&t.month));
    assert!((1..=31).contains(&t.day));
    assert!((1..=53).contains(&t.week));
    assert!(t.year >= 2024);
}
