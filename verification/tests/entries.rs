use revlog::card::CardId;
use revlog::card::Usn;
use revlog::revlog::RevlogEntry;
use revlog::revlog::RevlogId;
use revlog::revlog::RevlogReviewKind;
use revlog::timestamp::TimestampMillis;
use revlog::timestamp::TimestampSecs;

const KINDS: [RevlogReviewKind; 6] = [
    RevlogReviewKind::Learning,
    RevlogReviewKind::Review,
    RevlogReviewKind::Relearning,
    RevlogReviewKind::Filtered,
    RevlogReviewKind::Manual,
    RevlogReviewKind::Rescheduled,
];

fn entry(review_kind: RevlogReviewKind, ease_factor: u32, button_chosen: u8) -> RevlogEntry {
    RevlogEntry {
        review_kind,
        ease_factor,
        button_chosen,
        ..Default::default()
    }
}

fn spans(interval: i32) -> u32 {
    let e = RevlogEntry {
        interval,
        last_interval: 0,
        ..Default::default()
    };
    let last = RevlogEntry {
        interval: 0,
        last_interval: interval,
        ..Default::default()
    };
    assert_eq!(e.last_interval_secs(), 0);
    assert_eq!(last.interval_secs(), 0);
    assert_eq!(e.interval_secs(), last.last_interval_secs());
    e.interval_secs()
}

#[test]
fn intervals_are_days_or_seconds() {
    assert_eq!(spans(10), 864_000);
    assert_eq!(spans(1), 86_400);
    assert_eq!(spans(0), 0);
    assert_eq!(spans(-1), 1);
    assert_eq!(spans(-600), 600);
}

#[test]
fn long_intervals_saturate() {
    assert_eq!(spans(24_855), 2_147_472_000);
    assert_eq!(spans(24_856), 2_147_483_647);
    assert_eq!(spans(i32::MAX), 2_147_483_647);
    assert_eq!(spans(-i32::MAX), 2_147_483_647);
    assert_eq!(spans(i32::MIN), 2_147_483_647);
}

#[test]
fn longer_intervals_span_no_less() {
    assert!(spans(3) < spans(4));
    assert!(spans(24_855) < spans(24_856));
    assert_eq!(spans(24_856), spans(30_000));
    assert!(spans(-3) < spans(-4));
}

#[test]
fn reset_is_manual_without_ease() {
    for kind in KINDS {
        assert_eq!(entry(kind, 0, 0).is_reset(), kind == RevlogReviewKind::Manual);
        assert!(!entry(kind, 2500, 0).is_reset());
    }
}

#[test]
fn cramming_is_filtered_without_ease() {
    for kind in KINDS {
        assert_eq!(entry(kind, 0, 3).is_cramming(), kind == RevlogReviewKind::Filtered);
        assert!(!entry(kind, 1, 3).is_cramming());
        assert!(!(entry(kind, 0, 3).is_cramming() && entry(kind, 0, 3).is_reset()));
    }
}

#[test]
fn rating_counts_unless_crammed() {
    assert!(!entry(RevlogReviewKind::Review, 2500, 0).has_rating());
    assert!(entry(RevlogReviewKind::Review, 2500, 1).has_rating());
    assert!(entry(RevlogReviewKind::Review, 2500, 255).has_rating());
    assert!(!entry(RevlogReviewKind::Review, 2500, 0).has_rating_and_affects_scheduling());
    assert!(entry(RevlogReviewKind::Review, 0, 3).has_rating_and_affects_scheduling());
    assert!(!entry(RevlogReviewKind::Filtered, 0, 3).has_rating_and_affects_scheduling());
    assert!(entry(RevlogReviewKind::Filtered, 2500, 3).has_rating_and_affects_scheduling());
    assert!(!entry(RevlogReviewKind::Manual, 0, 0).has_rating_and_affects_scheduling());
}

#[test]
fn kinds_are_stored_as_numbers() {
    for (n, kind) in KINDS.into_iter().enumerate() {
        assert_eq!(kind.as_number(), n as u8);
        assert_eq!(RevlogReviewKind::from_number(n as u8), Some(kind));
    }
    assert_eq!(RevlogReviewKind::from_number(6), None);
    assert_eq!(RevlogReviewKind::from_number(255), None);
    assert_eq!(RevlogReviewKind::default(), RevlogReviewKind::Learning);
}

#[test]
fn default_entry_is_all_zero() {
    let e = RevlogEntry::default();
    assert_eq!(e.id, RevlogId(0));
    assert_eq!(e.cid, CardId(0));
    assert_eq!(e.usn, Usn(0));
    assert_eq!(e, entry(RevlogReviewKind::Learning, 0, 0));
}

#[test]
fn ids_are_milliseconds() {
    assert_eq!(RevlogId(1_999).as_secs(), TimestampSecs(1));
    assert_eq!(RevlogId(2_000).as_secs(), TimestampSecs(2));
    assert_eq!(RevlogId(-1_999).as_secs(), TimestampSecs(-1));
    assert_eq!(RevlogId(i64::MAX).as_secs(), TimestampSecs(9_223_372_036_854_775));
    assert_eq!(RevlogId::from(TimestampMillis(42)), RevlogId(42));
}

#[test]
fn new_id_is_the_current_time() {
    let before = std::time::UNIX_EPOCH.elapsed().unwrap().as_millis() as i64;
    let id = RevlogId::new();
    let after = std::time::UNIX_EPOCH.elapsed().unwrap().as_millis() as i64;
    assert!(before <= id.0 && id.0 <= after);
}

#[test]
fn clock_readings_are_milliseconds() {
    assert_eq!(TimestampMillis::from_reading(Ok(0)), TimestampMillis(0));
    assert_eq!(
        TimestampMillis::from_reading(Ok(1_700_000_000_123)),
        TimestampMillis(1_700_000_000_123)
    );
    assert_eq!(TimestampMillis::from_reading(Err(5)), TimestampMillis(-5));
    assert_eq!(TimestampMillis::from_reading(Ok(1 << 64)), TimestampMillis(0));
    assert_eq!(TimestampMillis::from_reading(Err(1 << 63)), TimestampMillis(i64::MIN));
}

#[test]
fn age_is_in_whole_days() {
    let made = |secs: i64| RevlogEntry {
        id: RevlogId(secs * 1000),
        ..Default::default()
    };
    let next_day = TimestampSecs(10 * 86_400);
    assert_eq!(made(10 * 86_400 - 1).days_elapsed(next_day), 0);
    assert_eq!(made(9 * 86_400).days_elapsed(next_day), 1);
    assert_eq!(made(0).days_elapsed(next_day), 10);
    assert_eq!(made(11 * 86_400).days_elapsed(next_day), 0);
    assert_eq!(TimestampSecs(5).adding_secs(-7), TimestampSecs(-2));
    assert_eq!(TimestampSecs::from(3), TimestampSecs(3));
}
