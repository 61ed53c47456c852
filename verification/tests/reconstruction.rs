use online_history::error::InvalidInputError;
use online_history::instant::{denotes_instant, MAX_INSTANT, MIN_INSTANT};
use online_history::sessions::{reconstruct, DEFAULT_GAP_THRESHOLD};
use online_history::timespan::TimeSpan;

fn span(start: i64, end: i64) -> TimeSpan {
    TimeSpan { start, end, duration: (end - start) as u64 }
}

#[test]
fn default_threshold_is_five_minutes() {
    assert_eq!(DEFAULT_GAP_THRESHOLD, 300);
}

#[test]
fn two_runs_give_two_sessions() {
    let pings = vec![1000, 1100, 1200, 6000, 6100, 6200];
    assert_eq!(
        reconstruct(&pings, 300),
        Ok(vec![
            TimeSpan { start: 1000, end: 1200, duration: 200 },
            TimeSpan { start: 6000, end: 6200, duration: 200 },
        ])
    );
}

#[test]
fn duplicates_extend_by_nothing() {
    let pings = vec![5, 5, 5, 5, 5];
    assert_eq!(reconstruct(&pings, 300), Ok(vec![TimeSpan { start: 5, end: 5, duration: 0 }]));
}

#[test]
fn no_pings_no_sessions() {
    assert_eq!(reconstruct(&Vec::new(), 300), Ok(Vec::new()));
}

#[test]
fn lone_ping_is_a_session_of_no_duration() {
    assert_eq!(reconstruct(&vec![42], 300), Ok(vec![TimeSpan { start: 42, end: 42, duration: 0 }]));
}

#[test]
fn gap_of_the_threshold_splits() {
    assert_eq!(reconstruct(&vec![100, 400], 300), Ok(vec![span(100, 100), span(400, 400)]));
}

#[test]
fn gap_below_the_threshold_merges() {
    assert_eq!(reconstruct(&vec![100, 399], 300), Ok(vec![span(100, 399)]));
}

#[test]
fn gap_above_the_threshold_splits() {
    assert_eq!(reconstruct(&vec![100, 401], 300), Ok(vec![span(100, 100), span(401, 401)]));
}

#[test]
fn small_gaps_give_one_session_from_first_to_last() {
    let pings = vec![-50, 0, 299, 598, 600, 899];
    assert_eq!(reconstruct(&pings, 300), Ok(vec![TimeSpan { start: -50, end: 899, duration: 949 }]));
}

#[test]
fn split_is_the_two_halves_side_by_side() {
    let left = vec![10, 20, 500, 510];
    let right = vec![810, 820, 2000];
    let mut whole = left.clone();
    whole.extend(right.iter());
    let mut expected = reconstruct(&left, 300).unwrap();
    expected.extend(reconstruct(&right, 300).unwrap());
    assert_eq!(
        expected,
        vec![span(10, 20), span(500, 510), span(810, 820), span(2000, 2000)]
    );
    assert_eq!(reconstruct(&whole, 300), Ok(expected));
}

#[test]
fn sessions_keep_apart_and_in_order() {
    let pings = vec![0, 100, 250, 700, 701, 1500, 1799, 2098, 5000];
    let sessions = reconstruct(&pings, 300).unwrap();
    assert_eq!(sessions, vec![span(0, 250), span(700, 701), span(1500, 2098), span(5000, 5000)]);
    for pair in sessions.windows(2) {
        assert!(pair[0].end < pair[1].start);
        assert!(pair[0].start < pair[1].start);
        assert!(pair[1].start - pair[0].end >= 300);
    }
    let total: u64 = sessions.iter().map(|s| s.duration).sum();
    assert_eq!(total, 250 + 1 + 598);
    assert!(total <= 5000);
}

#[test]
fn rebuilding_twice_gives_the_same() {
    let pings = vec![3, 4, 400, 401, 402, 9000];
    assert_eq!(reconstruct(&pings, 300), reconstruct(&pings, 300));
    let faulty = vec![3, 2];
    assert_eq!(reconstruct(&faulty, 300), reconstruct(&faulty, 300));
}

#[test]
fn other_thresholds() {
    let pings = vec![0, 10, 20, 40];
    assert_eq!(reconstruct(&pings, 11), Ok(vec![span(0, 20), span(40, 40)]));
    assert_eq!(reconstruct(&pings, 10), Ok(vec![span(0, 0), span(10, 10), span(20, 20), span(40, 40)]));
    assert_eq!(reconstruct(&pings, 21), Ok(vec![span(0, 40)]));
    assert_eq!(reconstruct(&pings, u64::MAX), Ok(vec![span(0, 40)]));
}

#[test]
fn threshold_of_nothing_splits_everywhere() {
    assert_eq!(reconstruct(&vec![5, 5, 6], 0), Ok(vec![span(5, 5), span(5, 5), span(6, 6)]));
}

#[test]
fn earlier_timestamp_is_reported() {
    assert_eq!(
        reconstruct(&vec![10, 20, 19, 30], 300),
        Err(InvalidInputError::Unsorted { index: 2 })
    );
    assert_eq!(reconstruct(&vec![1, 0], 300), Err(InvalidInputError::Unsorted { index: 1 }));
}

#[test]
fn first_fault_wins() {
    assert_eq!(
        reconstruct(&vec![10, 5, i64::MAX], 300),
        Err(InvalidInputError::Unsorted { index: 1 })
    );
    assert_eq!(
        reconstruct(&vec![10, i64::MAX, 5], 300),
        Err(InvalidInputError::OutOfRange { index: 1 })
    );
    assert_eq!(
        reconstruct(&vec![10, i64::MIN], 300),
        Err(InvalidInputError::OutOfRange { index: 1 })
    );
}

#[test]
fn timestamp_beyond_the_calendar_is_reported() {
    assert_eq!(reconstruct(&vec![i64::MAX], 300), Err(InvalidInputError::OutOfRange { index: 0 }));
    assert_eq!(reconstruct(&vec![i64::MIN], 300), Err(InvalidInputError::OutOfRange { index: 0 }));
    assert_eq!(
        reconstruct(&vec![MIN_INSTANT - 1, 0], 300),
        Err(InvalidInputError::OutOfRange { index: 0 })
    );
    assert_eq!(
        reconstruct(&vec![0, MAX_INSTANT + 1], 300),
        Err(InvalidInputError::OutOfRange { index: 1 })
    );
}

#[test]
fn whole_calendar_is_two_sessions_or_one() {
    let pings = vec![MIN_INSTANT, MAX_INSTANT];
    assert_eq!(
        reconstruct(&pings, 300),
        Ok(vec![span(MIN_INSTANT, MIN_INSTANT), span(MAX_INSTANT, MAX_INSTANT)])
    );
    assert_eq!(
        reconstruct(&pings, u64::MAX),
        Ok(vec![TimeSpan {
            start: MIN_INSTANT,
            end: MAX_INSTANT,
            duration: 16_544_868_105_599,
        }])
    );
}

#[test]
fn instants_are_the_calendar_of_chrono() {
    assert_eq!(chrono::DateTime::<chrono::Utc>::MIN_UTC.timestamp(), MIN_INSTANT);
    assert_eq!(chrono::DateTime::<chrono::Utc>::MAX_UTC.timestamp(), MAX_INSTANT);
    assert!(denotes_instant(MIN_INSTANT));
    assert!(denotes_instant(MAX_INSTANT));
    assert!(denotes_instant(0));
    assert!(denotes_instant(-1));
    assert!(denotes_instant(1_431_648_000));
    assert!(!denotes_instant(MIN_INSTANT - 1));
    assert!(!denotes_instant(MAX_INSTANT + 1));
    assert!(!denotes_instant(i64::MIN));
    assert!(!denotes_instant(i64::MAX));
}

#[test]
fn negative_timestamps_are_instants_too() {
    assert_eq!(
        reconstruct(&vec![-1000, -900, -100, 0, 50], 300),
        Ok(vec![span(-1000, -900), span(-100, 50)])
    );
}
