use revlog::card::Card;
use revlog::card::CardId;
use revlog::card::DeckId;
use revlog::chunked::REVLOG_CHUNK_CARD_COUNT;
use revlog::chunked::REVLOG_CHUNK_READ_RETRIES;
use revlog::collection::Collection;
use revlog::error::AnkiError;
use revlog::revlog::RevlogEntry;
use revlog::revlog::RevlogId;
use revlog::revlog::RevlogReviewKind;

fn add_cards_with_reviews(
    col: &mut Collection,
    cards: usize,
    reviews_per_card: usize,
) -> Result<Vec<CardId>, AnkiError> {
    let mut cids = Vec::with_capacity(cards);
    let mut revlog_id = 1_000_i64;

    for idx in 0..cards {
        let mut card = Card {
            id: CardId(idx as i64 + 1),
            deck_id: DeckId(1),
            original_deck_id: DeckId(0),
            interval: 0,
            ease_factor: 0,
            memory_state: None,
        };
        col.storage.add_or_update_card(&card)?;
        card.interval = 10;
        col.storage.add_or_update_card(&card)?;
        cids.push(card.id);

        for review_idx in 0..reviews_per_card {
            col.storage.add_revlog_entry(
                &RevlogEntry {
                    id: RevlogId(revlog_id),
                    cid: card.id,
                    button_chosen: 3,
                    interval: 10 + review_idx as i32,
                    last_interval: 9 + review_idx as i32,
                    ease_factor: 2500,
                    taken_millis: 1000,
                    review_kind: RevlogReviewKind::Review,
                    ..Default::default()
                },
                false,
            )?;
            revlog_id += 1;
        }
    }

    Ok(cids)
}

fn late_entry(id: RevlogId) -> RevlogEntry {
    RevlogEntry {
        id,
        cid: CardId(i64::MAX - 1),
        button_chosen: 3,
        interval: 10,
        last_interval: 9,
        ease_factor: 2500,
        taken_millis: 1000,
        review_kind: RevlogReviewKind::Review,
        ..Default::default()
    }
}

#[test]
fn searched_chunked_revlog_reader_matches_single_pass() -> Result<(), AnkiError> {
    let mut col = Collection::new();
    let cids = add_cards_with_reviews(&mut col, 32, 4)?;

    col.storage.set_search_table_to_card_ids(&cids)?;
    let expected = col
        .storage
        .get_revlog_entries_for_searched_cards_in_card_order_after_stamp(0.into())?;
    col.storage.clear_searched_cards_table()?;
    col.storage.set_search_table_to_card_ids(&cids)?;
    let actual = col.searched_revlog_entries_in_card_order_chunked(0.into())?;
    col.storage.clear_searched_cards_table()?;

    assert_eq!(actual, expected);
    assert_eq!(actual.len(), 128);
    Ok(())
}

#[test]
fn chunked_revlog_reader_restarts_after_write() -> Result<(), AnkiError> {
    let mut col = Collection::new();
    add_cards_with_reviews(&mut col, std::cmp::max(REVLOG_CHUNK_CARD_COUNT + 1, 4097), 1)?;
    let expected = col.all_revlog_entries_in_card_order_chunked(0.into())?;
    let mut inserted = false;

    let actual = col.revlog_entries_in_card_order_chunked(
        |col: &mut Collection, after_cid, chunk_size| {
            col.storage
                .get_all_revlog_card_ids_after_stamp_chunk(0.into(), after_cid, chunk_size)
        },
        |col: &mut Collection, cids: &[CardId]| {
            col.storage
                .get_revlog_entries_for_card_ids_in_card_order_after_stamp(cids, 0.into())
        },
        |col: &mut Collection| {
            col.storage
                .get_all_revlog_entries_in_card_order_after_stamp(0.into())
        },
        |col: &mut Collection| {
            if !inserted {
                inserted = true;
                col.storage
                    .add_revlog_entry(&late_entry(RevlogId::new()), false)?;
            }
            Ok(())
        },
    )?;

    assert_eq!(actual.len(), expected.len() + 1);
    assert_eq!(actual.last().unwrap().cid, CardId(i64::MAX - 1));
    Ok(())
}

#[test]
fn all_reader_matches_single_pass_over_several_chunks() -> Result<(), AnkiError> {
    let mut col = Collection::new();
    add_cards_with_reviews(&mut col, REVLOG_CHUNK_CARD_COUNT + 5, 2)?;
    let single = col
        .storage
        .get_all_revlog_entries_in_card_order_after_stamp(0.into())?;
    let chunked = col.all_revlog_entries_in_card_order_chunked(0.into())?;
    assert_eq!(chunked, single);
    assert_eq!(chunked.len(), 2 * (REVLOG_CHUNK_CARD_COUNT + 5));
    Ok(())
}

#[test]
fn reader_orders_by_card_and_time_and_drops_old_entries() -> Result<(), AnkiError> {
    let mut col = Collection::new();
    for (id, cid) in [(5_000, 2), (3_000, 7), (4_000, 2), (1_999, 1), (2_000, 1), (9_000, 0)] {
        let entry = RevlogEntry {
            id: RevlogId(id),
            cid: CardId(cid),
            ..Default::default()
        };
        col.storage.add_revlog_entry(&entry, false)?;
    }
    let ids = |entries: Vec<RevlogEntry>| entries.iter().map(|e| e.id.0).collect::<Vec<_>>();
    assert_eq!(
        ids(col.all_revlog_entries_in_card_order_chunked(2.into())?),
        vec![2_000, 4_000, 5_000, 3_000]
    );
    // a pass starts past card 0
    assert_eq!(
        ids(col.storage.get_all_revlog_entries_in_card_order_after_stamp(2.into())?),
        vec![9_000, 2_000, 4_000, 5_000, 3_000]
    );
    assert_eq!(
        ids(col.storage.get_all_revlog_entries(2.into())?),
        vec![2_000, 3_000, 4_000, 5_000, 9_000]
    );
    col.storage.set_search_table_to_card_ids(&[CardId(7), CardId(1), CardId(50)])?;
    assert_eq!(
        ids(col.searched_revlog_entries_in_card_order_chunked(2.into())?),
        vec![2_000, 3_000]
    );
    assert_eq!(
        ids(col.storage.get_revlog_entries_for_searched_cards_after_stamp(0.into())?),
        vec![1_999, 2_000, 3_000]
    );
    Ok(())
}

#[test]
fn card_ids_come_in_chunks() -> Result<(), AnkiError> {
    let mut col = Collection::new();
    let cids = add_cards_with_reviews(&mut col, 5, 3)?;
    let chunk = |col: &Collection, after: i64, limit: usize| {
        col.storage
            .get_all_revlog_card_ids_after_stamp_chunk(0.into(), CardId(after), limit)
    };
    assert_eq!(chunk(&col, 0, 2)?, vec![CardId(1), CardId(2)]);
    assert_eq!(chunk(&col, 2, 2)?, vec![CardId(3), CardId(4)]);
    assert_eq!(chunk(&col, 4, 2)?, vec![CardId(5)]);
    assert_eq!(chunk(&col, 5, 2)?, vec![]);
    assert_eq!(chunk(&col, 0, 0)?, vec![]);
    col.storage.set_search_table_to_card_ids(&cids[3..])?;
    assert_eq!(
        col.storage
            .get_searched_revlog_card_ids_after_stamp_chunk(0.into(), CardId(0), 10)?,
        vec![CardId(4), CardId(5)]
    );
    Ok(())
}

#[test]
fn reader_falls_back_after_the_last_retry() -> Result<(), AnkiError> {
    let mut col = Collection::new();
    add_cards_with_reviews(&mut col, 3, 1)?;
    let mut chunks = 0;
    let mut fallbacks = 0;
    let actual = col.revlog_entries_in_card_order_chunked(
        |col: &mut Collection, after_cid, chunk_size| {
            col.storage
                .get_all_revlog_card_ids_after_stamp_chunk(0.into(), after_cid, chunk_size)
        },
        |col: &mut Collection, cids: &[CardId]| {
            col.storage
                .get_revlog_entries_for_card_ids_in_card_order_after_stamp(cids, 0.into())
        },
        |col: &mut Collection| {
            fallbacks += 1;
            col.storage
                .get_all_revlog_entries_in_card_order_after_stamp(0.into())
        },
        |col: &mut Collection| {
            chunks += 1;
            let id = RevlogId(50_000 + chunks);
            col.storage.add_revlog_entry(&late_entry(id), false)?;
            Ok(())
        },
    )?;
    assert_eq!(chunks as usize, REVLOG_CHUNK_READ_RETRIES + 1);
    assert_eq!(fallbacks, 1);
    assert_eq!(actual.len(), 6);
    Ok(())
}

#[test]
fn reader_passes_errors_on() {
    let read = |fail_at: u8| {
        let mut col = Collection::new();
        add_cards_with_reviews(&mut col, 3, 1).unwrap();
        col.revlog_entries_in_card_order_chunked(
            |col: &mut Collection, after_cid, chunk_size| {
                if fail_at == 0 {
                    return Err(AnkiError::DbError);
                }
                col.storage
                    .get_all_revlog_card_ids_after_stamp_chunk(0.into(), after_cid, chunk_size)
            },
            |col: &mut Collection, cids: &[CardId]| {
                if fail_at == 1 {
                    return Err(AnkiError::InvalidInput);
                }
                col.storage
                    .get_revlog_entries_for_card_ids_in_card_order_after_stamp(cids, 0.into())
            },
            |_: &mut Collection| {
                if fail_at == 3 {
                    return Err(AnkiError::SearchError);
                }
                Ok(vec![])
            },
            |col: &mut Collection| {
                if fail_at == 2 {
                    return Err(AnkiError::FsrsParamsInvalid);
                }
                col.storage
                    .add_revlog_entry(&late_entry(RevlogId(3)), true)
                    .map(|_| ())
            },
        )
    };
    assert_eq!(read(0), Err(AnkiError::DbError));
    assert_eq!(read(1), Err(AnkiError::InvalidInput));
    assert_eq!(read(2), Err(AnkiError::FsrsParamsInvalid));
    assert_eq!(read(3), Err(AnkiError::SearchError));
    assert_eq!(read(4), Ok(vec![]));
}
