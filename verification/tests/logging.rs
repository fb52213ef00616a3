use revlog::card::Card;
use revlog::card::CardId;
use revlog::card::Deck;
use revlog::card::DeckConfigId;
use revlog::card::DeckId;
use revlog::card::FsrsMemoryState;
use revlog::card::Usn;
use revlog::collection::scheduled_review_entry;
use revlog::collection::Collection;
use revlog::collection::UndoableRevlogChange;
use revlog::error::AnkiError;
use revlog::revlog::RevlogEntry;
use revlog::revlog::RevlogId;
use revlog::revlog::RevlogReviewKind;

fn card() -> Card {
    Card {
        id: CardId(7),
        deck_id: DeckId(1),
        original_deck_id: DeckId(0),
        interval: 21,
        ease_factor: 2300,
        memory_state: None,
    }
}

fn log_of(col: &Collection) -> Vec<RevlogEntry> {
    col.storage.get_all_revlog_entries(0.into()).unwrap()
}

fn with_id(id: i64) -> RevlogEntry {
    RevlogEntry {
        id: RevlogId(id),
        cid: CardId(7),
        button_chosen: 2,
        ..Default::default()
    }
}

#[test]
fn scheduled_review_records_the_card() {
    let entry = scheduled_review_entry(
        RevlogId(5_000),
        &card(),
        10,
        Usn(-1),
        RevlogReviewKind::Manual,
    );
    assert_eq!(
        entry,
        RevlogEntry {
            id: RevlogId(5_000),
            cid: CardId(7),
            usn: Usn(-1),
            button_chosen: 0,
            interval: 21,
            last_interval: 10,
            ease_factor: 2300,
            taken_millis: 0,
            review_kind: RevlogReviewKind::Manual,
        }
    );
}

#[test]
fn scheduled_review_records_difficulty_and_caps_intervals() {
    let mut card = card();
    card.memory_state = Some(FsrsMemoryState {
        difficulty_shifted: 612,
    });
    card.interval = u32::MAX;
    let entry = scheduled_review_entry(
        RevlogId(1),
        &card,
        i32::MAX as u32 + 1,
        Usn(3),
        RevlogReviewKind::Rescheduled,
    );
    assert_eq!(entry.ease_factor, 612);
    assert_eq!(entry.interval, i32::MAX);
    assert_eq!(entry.last_interval, i32::MAX);
    card.interval = i32::MAX as u32;
    let entry =
        scheduled_review_entry(RevlogId(1), &card, 0, Usn(3), RevlogReviewKind::Rescheduled);
    assert_eq!(entry.interval, i32::MAX);
    assert_eq!(entry.last_interval, 0);
}

#[test]
fn scheduled_review_is_a_reset_without_ease_only() {
    let mut card = card();
    let kind = RevlogReviewKind::Manual;
    let made = |card: &Card| scheduled_review_entry(RevlogId(1), card, 0, Usn(0), kind);
    assert!(!made(&card).is_reset());
    card.ease_factor = 0;
    assert!(made(&card).is_reset());
    assert!(!made(&card).is_cramming());
    assert!(!made(&card).has_rating_and_affects_scheduling());
    card.memory_state = Some(FsrsMemoryState {
        difficulty_shifted: 100,
    });
    assert!(!made(&card).is_reset());
}

#[test]
fn logging_adds_an_entry_that_can_be_undone() -> Result<(), AnkiError> {
    let mut col = Collection::new();
    let before = RevlogId::new();
    col.log_manually_scheduled_review(&card(), 10, Usn(-1))?;
    col.log_rescheduled_review(&card(), 11, Usn(-1))?;
    let log = log_of(&col);
    assert_eq!(log.len(), 2);
    assert!(log[0].id >= before);
    assert!(log[0].id < log[1].id);
    assert_eq!(log[0].review_kind, RevlogReviewKind::Manual);
    assert_eq!(log[0].last_interval, 10);
    assert_eq!(log[1].review_kind, RevlogReviewKind::Rescheduled);
    assert_eq!(log[1].last_interval, 11);
    assert_eq!(
        col.undo,
        vec![
            UndoableRevlogChange::Added(log[0]),
            UndoableRevlogChange::Added(log[1])
        ]
    );
    assert_eq!(col.changes_since_open()?, 2);
    Ok(())
}

#[test]
fn logging_at_a_taken_time_uses_the_next_free_id() -> Result<(), AnkiError> {
    let mut col = Collection::new();
    let kind = RevlogReviewKind::Manual;
    col.log_scheduled_review_at(RevlogId(5_000), &card(), 1, Usn(0), kind)?;
    col.log_scheduled_review_at(RevlogId(9_000), &card(), 2, Usn(0), kind)?;
    col.log_scheduled_review_at(RevlogId(5_000), &card(), 3, Usn(0), kind)?;
    col.log_scheduled_review_at(RevlogId(7_000), &card(), 4, Usn(0), kind)?;
    let log = log_of(&col);
    let ids: Vec<i64> = log.iter().map(|e| e.id.0).collect();
    let intervals: Vec<i32> = log.iter().map(|e| e.last_interval).collect();
    assert_eq!(ids, vec![5_000, 7_000, 9_000, 9_001]);
    assert_eq!(intervals, vec![1, 4, 2, 3]);
    assert_eq!(col.undo[2], UndoableRevlogChange::Added(log[3]));
    col.log_scheduled_review(&card(), 5, Usn(0), kind)?;
    assert_eq!(log_of(&col).len(), 5);
    Ok(())
}

#[test]
fn logging_fails_when_no_id_is_free() {
    let mut col = Collection::new();
    let kind = RevlogReviewKind::Manual;
    let last = RevlogId(i64::MAX);
    assert_eq!(col.log_scheduled_review_at(last, &card(), 1, Usn(0), kind), Ok(()));
    assert_eq!(
        col.log_scheduled_review_at(last, &card(), 1, Usn(0), kind),
        Err(AnkiError::DbError)
    );
    assert_eq!(col.undo.len(), 1);
    assert_eq!(col.changes_since_open(), Ok(1));
}

#[test]
fn taken_ids_are_refused_or_made_unique() -> Result<(), AnkiError> {
    let mut col = Collection::new();
    assert_eq!(col.storage.add_revlog_entry(&with_id(10), false)?, Some(RevlogId(10)));
    assert_eq!(col.storage.add_revlog_entry(&with_id(10), false)?, None);
    assert_eq!(col.changes_since_open()?, 1);
    assert_eq!(col.storage.add_revlog_entry(&with_id(10), true)?, Some(RevlogId(11)));
    assert_eq!(col.add_revlog_entry_undoable(with_id(5))?, RevlogId(5));
    assert_eq!(col.add_revlog_entry_undoable(with_id(5))?, RevlogId(12));
    let ids: Vec<i64> = log_of(&col).iter().map(|e| e.id.0).collect();
    assert_eq!(ids, vec![5, 10, 11, 12]);
    assert_eq!(col.storage.add_revlog_entry(&with_id(i64::MAX), true)?, Some(RevlogId(i64::MAX)));
    assert_eq!(
        col.storage.add_revlog_entry(&with_id(10), true),
        Err(AnkiError::DbError)
    );
    Ok(())
}

#[test]
fn added_entry_is_read_back_in_chunks() -> Result<(), AnkiError> {
    let mut col = Collection::new();
    for id in [3, 1, 2] {
        col.storage.add_revlog_entry(&with_id(id * 1_000), false)?;
    }
    let before = col.all_revlog_entries_in_card_order_chunked(0.into())?;
    let changes = col.changes_since_open()?;
    let mut entry = with_id(1_000);
    entry.cid = CardId(6);
    let id = col.add_revlog_entry_undoable(entry)?;
    assert_eq!(id, RevlogId(3_001));
    assert_ne!(col.changes_since_open()?, changes);
    let mut after = col.all_revlog_entries_in_card_order_chunked(0.into())?;
    assert_eq!(after.len(), before.len() + 1);
    assert_eq!(after.remove(0), RevlogEntry { id, ..entry });
    assert_eq!(after, before);
    Ok(())
}

#[test]
fn rows_are_written_in_place() -> Result<(), AnkiError> {
    let mut col = Collection::new();
    let mut card = card();
    col.storage.add_or_update_card(&card)?;
    card.interval = 5;
    col.storage.add_or_update_card(&card)?;
    col.storage.set_search_table_to_card_ids(&[CardId(7), CardId(8)])?;
    assert_eq!(col.storage.all_searched_cards()?, vec![card]);
    col.storage.clear_searched_cards_table()?;
    assert_eq!(col.storage.all_searched_cards()?, vec![]);
    let deck = Deck {
        id: DeckId(1),
        config_id: Some(DeckConfigId(4)),
    };
    col.storage.add_or_update_deck(&deck)?;
    assert_eq!(col.storage.get_decks_map()?.get(&1), Some(&deck));
    assert_eq!(deck.config_id(), Some(DeckConfigId(4)));
    assert_eq!(col.changes_since_open()?, 3);
    Ok(())
}
