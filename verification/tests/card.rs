use punch::card::{Card, CardStatus};
use punch::err::Error;
use punch::files::validate_file_exists;
use punch::record::Record;
use punch::time::{Duration, Interval, Timestamp};

// 2024-01-10T09:00:00+00:00 and the same day at 17:00.
fn nine_am() -> Timestamp {
    Timestamp { epoch: 1704877200, year: 2024, month: 1, day: 10, week: 2 }
}

fn five_pm() -> Timestamp {
    Timestamp { epoch: 1704906000, year: 2024, month: 1, day: 10, week: 2 }
}

fn terminated(i: usize, start: u32, end: u32) -> Record {
    Record {
        i,
        start: Timestamp { epoch: start, year: 2024, month: 1, day: 10, week: 2 },
        end: Some(Timestamp { epoch: end, year: 2024, month: 1, day: 10, week: 2 }),
        note: None,
    }
}

fn open(i: usize, start: u32) -> Record {
    Record {
        i,
        start: Timestamp { epoch: start, year: 2024, month: 1, day: 10, week: 2 },
        end: None,
        note: None,
    }
}

#[test]
fn punch_in_then_out_full_day() {
    let mut card = Card::empty();
    assert_eq!(card.status(), CardStatus::PunchedOut);

    card.punch_in(nine_am(), None).unwrap();
    assert_eq!(card.records.len(), 1);
    assert_eq!(card.records[0].i, 0);
    assert!(card.records[0].end.is_none());
    assert_eq!(card.status(), CardStatus::PunchedIn);

    card.punch_out(five_pm(), None).unwrap();
    assert_eq!(card.records.len(), 1);
    assert_eq!(card.records[0].end, Some(five_pm()));
    assert_eq!(card.status(), CardStatus::PunchedOut);

    // The day was eight hours, already aligned to the hour.
    let d = card.records[0].duration_at(five_pm());
    assert_eq!(d, Duration(28800));
    let rounding = punch::round::RoundingOptions {
        direction: punch::round::RoundingDirection::Nearest,
        granularity: punch::round::RoundingGranularityInSeconds(3600),
    };
    assert_eq!(d.round(&rounding), Duration(28800));

    // Bucketing by day files it under the 2024-01-10 key.
    assert_eq!(card.records[0].bucket_key(Interval::Day), 20240110);
}

#[test]
fn punch_in_while_punched_in_fails_and_changes_nothing() {
    let mut card = Card::empty();
    card.punch_in(nine_am(), Some("morning")).unwrap();
    let before_len = card.records.len();
    let before_note = card.records[0].note.clone();

    assert_eq!(card.punch_in(five_pm(), None), Err(Error::IncorrectCardStateForIn));
    assert_eq!(card.records.len(), before_len);
    assert_eq!(card.records[0].note, before_note);
    assert!(card.records[0].end.is_none());
    assert_eq!(card.records[0].start, nine_am());
}

#[test]
fn punch_out_while_punched_out_fails_and_changes_nothing() {
    let mut card = Card::from_records(vec![terminated(0, 100, 200)]);
    assert_eq!(card.status(), CardStatus::PunchedOut);
    assert_eq!(card.punch_out(five_pm(), None), Err(Error::IncorrectCardStateForOut));
    assert_eq!(card.records.len(), 1);
    assert_eq!(card.records[0].end, Some(Timestamp { epoch: 200, year: 2024, month: 1, day: 10, week: 2 }));

    let mut empty = Card::empty();
    assert_eq!(empty.punch_out(five_pm(), None), Err(Error::IncorrectCardStateForOut));
    assert_eq!(empty.records.len(), 0);
}

#[test]
fn punch_out_before_start_is_rejected() {
    let mut card = Card::empty();
    card.punch_in(five_pm(), None).unwrap();
    assert_eq!(card.punch_out(nine_am(), None), Err(Error::IncorrectCardStateForOut));
    assert!(card.records[0].end.is_none());
}

#[test]
fn indices_are_preinsertion_counts() {
    let mut card = Card::empty();
    card.punch_in(nine_am(), None).unwrap();
    card.punch_out(five_pm(), None).unwrap();
    let later = Timestamp { epoch: 1704963600, year: 2024, month: 1, day: 11, week: 2 };
    card.punch_in(later, None).unwrap();
    // Most recent first: the new record sits at the front with index 1.
    assert_eq!(card.records.len(), 2);
    assert_eq!(card.records[0].i, 1);
    assert_eq!(card.records[1].i, 0);
}

#[test]
fn notes_join_with_a_semicolon() {
    let mut card = Card::empty();
    card.punch_in(nine_am(), Some("in-note")).unwrap();
    card.punch_out(five_pm(), Some(String::from("out-note"))).unwrap();
    assert_eq!(card.records[0].note, Some(String::from("in-note;out-note")));

    let mut card2 = Card::empty();
    card2.punch_in(nine_am(), Some("only-in")).unwrap();
    card2.punch_out(five_pm(), None).unwrap();
    assert_eq!(card2.records[0].note, Some(String::from("only-in")));

    let mut card3 = Card::empty();
    card3.punch_in(nine_am(), None).unwrap();
    card3.punch_out(five_pm(), Some(String::from("only-out"))).unwrap();
    assert_eq!(card3.records[0].note, Some(String::from("only-out")));

    let mut card4 = Card::empty();
    card4.punch_in(nine_am(), None).unwrap();
    card4.punch_out(five_pm(), None).unwrap();
    assert_eq!(card4.records[0].note, None);
}

#[test]
fn non_final_open_record_means_corrupted() {
    // Most recent first: the older record (position 1) is open.
    let card = Card::from_records(vec![terminated(1, 300, 400), open(0, 100)]);
    assert_eq!(card.status(), CardStatus::Corrupted);

    // Regardless of the most recent record's state.
    let card2 = Card::from_records(vec![open(1, 300), open(0, 100)]);
    assert_eq!(card2.status(), CardStatus::Corrupted);

    // An older record whose end precedes its start is not terminated.
    let card3 = Card::from_records(vec![terminated(1, 300, 400), terminated(0, 200, 100)]);
    assert_eq!(card3.status(), CardStatus::Corrupted);
}

#[test]
fn corrupted_card_rejects_both_punches() {
    let mut card = Card::from_records(vec![terminated(1, 300, 400), open(0, 100)]);
    assert_eq!(card.punch_in(five_pm(), None), Err(Error::IncorrectCardStateForIn));
    assert_eq!(card.punch_out(five_pm(), None), Err(Error::IncorrectCardStateForOut));
    assert_eq!(card.records.len(), 2);
}

#[test]
fn terminated_requires_end_not_before_start() {
    assert!(terminated(0, 100, 200).is_terminated());
    assert!(terminated(0, 100, 100).is_terminated());
    assert!(!terminated(0, 200, 100).is_terminated());
    assert!(!open(0, 100).is_terminated());
}

#[test]
fn missing_file_is_a_reported_error() {
    assert_eq!(validate_file_exists(true), Ok(()));
    assert_eq!(validate_file_exists(false), Err(Error::FileDoesNotExist));
}

#[test]
fn error_messages_are_single_actionable_lines() {
    assert_eq!(
        Error::IncorrectCardStateForIn.message(),
        "Cannot punch in. Did you punch out last time?"
    );
    assert_eq!(
        Error::IncorrectCardStateForOut.message(),
        "Cannot punch out. Did you punch in before?"
    );
    assert_eq!(Error::InvalidTimeInterval.message(), "Failed to parse time interval");
    assert_eq!(Error::InvalidRoundingDirection.message(), "Failed to parse rounding direction");
}

#[test]
fn status_names_render_the_three_states() {
    assert_eq!(CardStatus::PunchedIn.name(), "PunchedIn");
    assert_eq!(CardStatus::PunchedOut.name(), "PunchedOut");
    assert_eq!(CardStatus::Corrupted.name(), "Corrupted");
}
