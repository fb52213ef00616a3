//! What is read of the review log.

use crate::card::Card;
use crate::card::CardId;
use crate::card::Deck;
use crate::chunked::after_rounds;
use crate::chunked::all_faithful;
use crate::chunked::follow_on;
use crate::chunked::law_read_is_up_to_date;
use crate::chunked::of_numbered_cards;
use crate::chunked::ChunkRound;
use crate::chunked::REVLOG_CHUNK_CARD_COUNT;
use crate::chunked::REVLOG_CHUNK_READ_RETRIES;
use crate::collection::Collection;
use crate::error::AnkiError;
use crate::graphs::context::lemma_filter_contains;
use crate::order::lists_in_card_order;
use crate::revlog::RevlogEntry;
use crate::storage::lemma_filter_ascending;
use crate::storage::next_cards;
use crate::storage::of_cards_since;
use crate::storage::since;
use crate::storage::Storage;
use crate::timestamp::TimestampSecs;
use std::collections::HashMap;
use vstd::prelude::*;

verus! {

/// The chunked reader of the whole log lists, by card and by time within a card, every entry of a
/// card from 1 on whose id is no less than the milliseconds of the stamp, and leaves the
/// collection as it is. Nothing else of an entry matters.
pub proof fn law_all_entries_are_read(
    col: Collection,
    left: Collection,
    after: TimestampSecs,
    res: Result<Vec<RevlogEntry>, AnkiError>,
)
    requires
        exists|c: &mut Collection|
            *c == col && *final(c) == left && #[trigger] call_ensures(
                Collection::all_revlog_entries_in_card_order_chunked,
                (c, after),
                res,
            ),
    ensures
        left == col,
        res is Ok,
        forall|e: RevlogEntry| #[trigger]
            (res->Ok_0)@.contains(e) <==> col.storage.revlog().contains(e) && e.cid.0 >= 1
                && e.id.0 >= after.0 * 1000,
        forall|i: int, j: int|
            0 <= i < j < (res->Ok_0)@.len() ==> {
                let earlier = #[trigger] (res->Ok_0)@[i];
                let later = #[trigger] (res->Ok_0)@[j];
                earlier.cid.0 < later.cid.0 || earlier.cid.0 == later.cid.0 && earlier.id.0
                    < later.id.0
            },
{
    let list = (res->Ok_0)@;
    assert forall|e: RevlogEntry| #[trigger]
        list.contains(e) <==> col.storage.revlog().contains(e) && e.cid.0 >= 1 && e.id.0 >= after.0
            * 1000 by {
        assert(list.contains(e) <==> col.storage.revlog().contains(e) && of_numbered_cards(
            since(after),
        )(e));
    }
}

/// The chunked reader of the searched cards lists, by card and by time within a card, every entry
/// of a searched card from 1 on whose id is no less than the milliseconds of the stamp, and leaves
/// the collection as it is. Nothing else of an entry matters.
pub proof fn law_searched_entries_are_read(
    col: Collection,
    left: Collection,
    after: TimestampSecs,
    res: Result<Vec<RevlogEntry>, AnkiError>,
)
    requires
        exists|c: &mut Collection|
            *c == col && *final(c) == left && #[trigger] call_ensures(
                Collection::searched_revlog_entries_in_card_order_chunked,
                (c, after),
                res,
            ),
    ensures
        left == col,
        res is Ok,
        forall|e: RevlogEntry| #[trigger]
            (res->Ok_0)@.contains(e) <==> col.storage.revlog().contains(e) && e.cid.0 >= 1
                && e.id.0 >= after.0 * 1000 && col.storage.searched().contains(e.cid),
        forall|i: int, j: int|
            0 <= i < j < (res->Ok_0)@.len() ==> {
                let earlier = #[trigger] (res->Ok_0)@[i];
                let later = #[trigger] (res->Ok_0)@[j];
                earlier.cid.0 < later.cid.0 || earlier.cid.0 == later.cid.0 && earlier.id.0
                    < later.id.0
            },
{
    let list = (res->Ok_0)@;
    assert forall|e: RevlogEntry| #[trigger]
        list.contains(e) <==> col.storage.revlog().contains(e) && e.cid.0 >= 1 && e.id.0 >= after.0
            * 1000 && col.storage.searched().contains(e.cid) by {
        assert(list.contains(e) <==> col.storage.revlog().contains(e) && of_numbered_cards(
            of_cards_since(col.storage.searched(), after),
        )(e));
    }
}

/// Read from the start of 1970 on, the list is as long as the log, where all entries are of cards
/// from 1 on and were made since.
pub proof fn law_read_is_as_long_as_the_log(
    col: Collection,
    left: Collection,
    res: Result<Vec<RevlogEntry>, AnkiError>,
)
    requires
        exists|c: &mut Collection|
            *c == col && *final(c) == left && #[trigger] call_ensures(
                Collection::all_revlog_entries_in_card_order_chunked,
                (c, TimestampSecs(0)),
                res,
            ),
        col.storage.wf(),
        forall|i: int|
            0 <= i < col.storage.revlog().len() ==> (#[trigger] col.storage.revlog()[i]).cid.0 >= 1
                && col.storage.revlog()[i].id.0 >= 0,
    ensures
        res is Ok,
        (res->Ok_0)@.len() == col.storage.revlog().len(),
{
    law_all_entries_are_read(col, left, TimestampSecs(0), res);
    let list = (res->Ok_0)@;
    let table = col.storage.revlog();
    assert(list.no_duplicates());
    assert(table.no_duplicates()) by {
        assert forall|i: int, j: int| 0 <= i < j < table.len() implies table[i] != table[j] by {
            assert(table[i].id.0 < table[j].id.0);
        }
    }
    list.unique_seq_to_set();
    table.unique_seq_to_set();
    assert forall|e: RevlogEntry| #[trigger] list.to_set().contains(e) <==> table.to_set().contains(
        e,
    ) by {
        assert(list.contains(e) <==> table.contains(e) && e.cid.0 >= 1 && e.id.0 >= 0);
        if table.contains(e) {
            let i: int = choose|i: int| 0 <= i < table.len() && table[i] == e;
            assert(table[i].cid.0 >= 1);
        }
    }
    assert(list.to_set() =~= table.to_set());
}

/// Whether an entry is read depends on nothing but its id, its card and the stamp.
pub proof fn law_same_id_and_card_are_read_alike(
    a: Collection,
    a_left: Collection,
    b: Collection,
    b_left: Collection,
    after: TimestampSecs,
    a_res: Result<Vec<RevlogEntry>, AnkiError>,
    b_res: Result<Vec<RevlogEntry>, AnkiError>,
    x: RevlogEntry,
    y: RevlogEntry,
)
    requires
        exists|c: &mut Collection|
            *c == a && *final(c) == a_left && #[trigger] call_ensures(
                Collection::all_revlog_entries_in_card_order_chunked,
                (c, after),
                a_res,
            ),
        exists|c: &mut Collection|
            *c == b && *final(c) == b_left && #[trigger] call_ensures(
                Collection::all_revlog_entries_in_card_order_chunked,
                (c, after),
                b_res,
            ),
        a.storage.revlog().contains(x),
        b.storage.revlog().contains(y),
        x.id == y.id,
        x.cid == y.cid,
    ensures
        (a_res->Ok_0)@.contains(x) <==> (b_res->Ok_0)@.contains(y),
{
    law_all_entries_are_read(a, a_left, after, a_res);
    law_all_entries_are_read(b, b_left, after, b_res);
    assert((a_res->Ok_0)@.contains(x) <==> a.storage.revlog().contains(x) && x.cid.0 >= 1 && x.id.0
        >= after.0 * 1000);
    assert((b_res->Ok_0)@.contains(y) <==> b.storage.revlog().contains(y) && y.cid.0 >= 1 && y.id.0
        >= after.0 * 1000);
}

/// A read of all entries in the order of their ids gives every entry whose id is no less than the
/// milliseconds of the stamp, of whatever card.
pub proof fn law_entries_since(
    storage: Storage,
    after: TimestampSecs,
    res: Result<Vec<RevlogEntry>, AnkiError>,
)
    requires
        storage.wf(),
        call_ensures(Storage::get_all_revlog_entries, (&storage, after), res),
    ensures
        res is Ok,
        forall|e: RevlogEntry| #[trigger]
            (res->Ok_0)@.contains(e) <==> storage.revlog().contains(e) && e.id.0 >= after.0 * 1000,
        forall|i: int, j: int|
            0 <= i < j < (res->Ok_0)@.len() ==> (#[trigger] (res->Ok_0)@[i]).id.0 < (
            #[trigger] (res->Ok_0)@[j]).id.0,
{
    lemma_filter_ascending(storage.revlog(), since(after));
    assert forall|e: RevlogEntry| #[trigger]
        (res->Ok_0)@.contains(e) <==> storage.revlog().contains(e) && e.id.0 >= after.0 * 1000 by {
        lemma_filter_contains(storage.revlog(), since(after), e);
    }
}

/// A read of the searched cards in the order of the ids gives every entry of a searched card whose
/// id is no less than the milliseconds of the stamp.
pub proof fn law_searched_entries_since(
    storage: Storage,
    after: TimestampSecs,
    res: Result<Vec<RevlogEntry>, AnkiError>,
)
    requires
        storage.wf(),
        call_ensures(
            Storage::get_revlog_entries_for_searched_cards_after_stamp,
            (&storage, after),
            res,
        ),
    ensures
        res is Ok,
        forall|e: RevlogEntry| #[trigger]
            (res->Ok_0)@.contains(e) <==> storage.revlog().contains(e) && e.id.0 >= after.0 * 1000
                && storage.searched().contains(e.cid),
        forall|i: int, j: int|
            0 <= i < j < (res->Ok_0)@.len() ==> (#[trigger] (res->Ok_0)@[i]).id.0 < (
            #[trigger] (res->Ok_0)@[j]).id.0,
{
    let wanted = of_cards_since(storage.searched(), after);
    lemma_filter_ascending(storage.revlog(), wanted);
    assert forall|e: RevlogEntry| #[trigger]
        (res->Ok_0)@.contains(e) <==> storage.revlog().contains(e) && e.id.0 >= after.0 * 1000
            && storage.searched().contains(e.cid) by {
        lemma_filter_contains(storage.revlog(), wanted, e);
    }
}

/// Read in one go, the log comes by card and by time within a card, with every entry whose id is
/// no less than the milliseconds of the stamp, of whatever card.
pub proof fn law_single_pass(
    storage: Storage,
    after: TimestampSecs,
    res: Result<Vec<RevlogEntry>, AnkiError>,
)
    requires
        call_ensures(
            Storage::get_all_revlog_entries_in_card_order_after_stamp,
            (&storage, after),
            res,
        ),
    ensures
        res is Ok,
        forall|e: RevlogEntry| #[trigger]
            (res->Ok_0)@.contains(e) <==> storage.revlog().contains(e) && e.id.0 >= after.0 * 1000,
        forall|i: int, j: int|
            0 <= i < j < (res->Ok_0)@.len() ==> {
                let earlier = #[trigger] (res->Ok_0)@[i];
                let later = #[trigger] (res->Ok_0)@[j];
                earlier.cid.0 < later.cid.0 || earlier.cid.0 == later.cid.0 && earlier.id.0
                    < later.id.0
            },
{
    assert forall|e: RevlogEntry| #[trigger]
        (res->Ok_0)@.contains(e) <==> storage.revlog().contains(e) && e.id.0 >= after.0 * 1000 by {
        assert((res->Ok_0)@.contains(e) <==> storage.revlog().contains(e) && since(after)(e));
    }
}

/// Read in one go, the log of given cards comes by card and by time within a card, with every
/// entry of these cards whose id is no less than the milliseconds of the stamp.
pub proof fn law_single_pass_of_cards(
    storage: Storage,
    cards: &[CardId],
    after: TimestampSecs,
    res: Result<Vec<RevlogEntry>, AnkiError>,
)
    requires
        call_ensures(
            Storage::get_revlog_entries_for_card_ids_in_card_order_after_stamp,
            (&storage, cards, after),
            res,
        ),
    ensures
        res is Ok,
        forall|e: RevlogEntry| #[trigger]
            (res->Ok_0)@.contains(e) <==> storage.revlog().contains(e) && e.id.0 >= after.0 * 1000
                && cards@.contains(e.cid),
        forall|i: int, j: int|
            0 <= i < j < (res->Ok_0)@.len() ==> {
                let earlier = #[trigger] (res->Ok_0)@[i];
                let later = #[trigger] (res->Ok_0)@[j];
                earlier.cid.0 < later.cid.0 || earlier.cid.0 == later.cid.0 && earlier.id.0
                    < later.id.0
            },
{
    assert forall|e: RevlogEntry| #[trigger]
        (res->Ok_0)@.contains(e) <==> storage.revlog().contains(e) && e.id.0 >= after.0 * 1000
            && cards@.contains(e.cid) by {
        assert((res->Ok_0)@.contains(e) <==> storage.revlog().contains(e) && of_cards_since(
            cards@,
            after,
        )(e));
    }
}

/// Read in one go, the log of the searched cards is that of the cards that were found.
pub proof fn law_single_pass_of_search(
    storage: Storage,
    after: TimestampSecs,
    res: Result<Vec<RevlogEntry>, AnkiError>,
)
    requires
        call_ensures(
            Storage::get_revlog_entries_for_searched_cards_in_card_order_after_stamp,
            (&storage, after),
            res,
        ),
    ensures
        res is Ok,
        forall|e: RevlogEntry| #[trigger]
            (res->Ok_0)@.contains(e) <==> storage.revlog().contains(e) && e.id.0 >= after.0 * 1000
                && storage.searched().contains(e.cid),
        forall|i: int, j: int|
            0 <= i < j < (res->Ok_0)@.len() ==> {
                let earlier = #[trigger] (res->Ok_0)@[i];
                let later = #[trigger] (res->Ok_0)@[j];
                earlier.cid.0 < later.cid.0 || earlier.cid.0 == later.cid.0 && earlier.id.0
                    < later.id.0
            },
{
    assert forall|e: RevlogEntry| #[trigger]
        (res->Ok_0)@.contains(e) <==> storage.revlog().contains(e) && e.id.0 >= after.0 * 1000
            && storage.searched().contains(e.cid) by {
        assert((res->Ok_0)@.contains(e) <==> storage.revlog().contains(e) && of_cards_since(
            storage.searched(),
            after,
        )(e));
    }
}

/// The next cards are, in ascending order, those past the given card that have an entry since the
/// stamp: none is left out before the last that is given, and none at all where fewer come than
/// were asked for.
pub proof fn law_next_cards(
    storage: Storage,
    after: TimestampSecs,
    after_cid: CardId,
    limit: usize,
    res: Result<Vec<CardId>, AnkiError>,
)
    requires
        call_ensures(
            Storage::get_all_revlog_card_ids_after_stamp_chunk,
            (&storage, after, after_cid, limit),
            res,
        ),
    ensures
        res is Ok,
        (res->Ok_0)@.len() <= limit,
        forall|i: int, j: int|
            0 <= i < j < (res->Ok_0)@.len() ==> (#[trigger] (res->Ok_0)@[i]).0 < (
            #[trigger] (res->Ok_0)@[j]).0,
        forall|i: int| 0 <= i < (res->Ok_0)@.len() ==> (#[trigger] (res->Ok_0)@[i]).0 > after_cid.0,
        forall|i: int|
            0 <= i < (res->Ok_0)@.len() ==> exists|e: RevlogEntry|
                #[trigger] storage.revlog().contains(e) && e.id.0 >= after.0 * 1000 && e.cid
                    == #[trigger] (res->Ok_0)@[i],
        forall|e: RevlogEntry| #[trigger]
            storage.revlog().contains(e) && e.id.0 >= after.0 * 1000 && e.cid.0 > after_cid.0 && (
            (res->Ok_0)@.len() < limit || limit > 0 && e.cid.0 <= (res->Ok_0)@.last().0)
                ==> (res->Ok_0)@.contains(e.cid),
{
    let ids = (res->Ok_0)@;
    assert forall|i: int| 0 <= i < ids.len() implies exists|e: RevlogEntry|
        #[trigger] storage.revlog().contains(e) && e.id.0 >= after.0 * 1000 && e.cid
            == #[trigger] ids[i] by {
        let e = choose|e: RevlogEntry|
            #[trigger] storage.revlog().contains(e) && since(after)(e) && e.cid == ids[i];
        assert(storage.revlog().contains(e));
    }
    assert forall|e: RevlogEntry| #[trigger]
        storage.revlog().contains(e) && e.id.0 >= after.0 * 1000 && e.cid.0 > after_cid.0 && (
        ids.len() < limit || limit > 0 && e.cid.0 <= ids.last().0) implies ids.contains(e.cid) by {
        assert(since(after)(e));
    }
}

/// The next searched cards are those of the next cards that were found.
pub proof fn law_next_searched_cards(
    storage: Storage,
    after: TimestampSecs,
    after_cid: CardId,
    limit: usize,
    res: Result<Vec<CardId>, AnkiError>,
)
    requires
        call_ensures(
            Storage::get_searched_revlog_card_ids_after_stamp_chunk,
            (&storage, after, after_cid, limit),
            res,
        ),
    ensures
        res is Ok,
        (res->Ok_0)@.len() <= limit,
        forall|i: int, j: int|
            0 <= i < j < (res->Ok_0)@.len() ==> (#[trigger] (res->Ok_0)@[i]).0 < (
            #[trigger] (res->Ok_0)@[j]).0,
        forall|i: int|
            0 <= i < (res->Ok_0)@.len() ==> (#[trigger] (res->Ok_0)@[i]).0 > after_cid.0
                && storage.searched().contains((res->Ok_0)@[i]),
        forall|e: RevlogEntry| #[trigger]
            storage.revlog().contains(e) && e.id.0 >= after.0 * 1000 && e.cid.0 > after_cid.0
                && storage.searched().contains(e.cid) && ((res->Ok_0)@.len() < limit || limit > 0
                && e.cid.0 <= (res->Ok_0)@.last().0) ==> (res->Ok_0)@.contains(e.cid),
{
    let ids = (res->Ok_0)@;
    let wanted = of_cards_since(storage.searched(), after);
    assert forall|i: int| 0 <= i < ids.len() implies (#[trigger] ids[i]).0 > after_cid.0
        && storage.searched().contains(ids[i]) by {
        let e = choose|e: RevlogEntry|
            #[trigger] storage.revlog().contains(e) && wanted(e) && e.cid == ids[i];
        assert(storage.searched().contains(e.cid));
    }
    assert forall|e: RevlogEntry| #[trigger]
        storage.revlog().contains(e) && e.id.0 >= after.0 * 1000 && e.cid.0 > after_cid.0
            && storage.searched().contains(e.cid) && (ids.len() < limit || limit > 0 && e.cid.0
            <= ids.last().0) implies ids.contains(e.cid) by {
        assert(wanted(e));
    }
}

/// The searched cards that are read are the rows whose id was found.
pub proof fn law_searched_rows(storage: Storage, res: Result<Vec<Card>, AnkiError>)
    requires
        call_ensures(Storage::all_searched_cards, (&storage,), res),
    ensures
        res is Ok,
        forall|card: Card| #[trigger]
            (res->Ok_0)@.contains(card) <==> storage.cards().contains(card)
                && storage.searched().contains(card.id),
{
    assert forall|card: Card| #[trigger]
        (res->Ok_0)@.contains(card) <==> storage.cards().contains(card)
            && storage.searched().contains(card.id) by {
        lemma_filter_contains(
            storage.cards(),
            |card: Card| storage.searched().contains(card.id),
            card,
        );
    }
}

/// A deck that was written is had back under its id, and the others are as they were.
pub proof fn law_written_deck_is_had_back(
    storage: Storage,
    written: Storage,
    deck: Deck,
    done: Result<(), AnkiError>,
    before: Result<&HashMap<i64, Deck>, AnkiError>,
    after: Result<&HashMap<i64, Deck>, AnkiError>,
)
    requires
        exists|s: &mut Storage|
            *s == storage && *final(s) == written && #[trigger] call_ensures(
                Storage::add_or_update_deck,
                (s, &deck),
                done,
            ),
        call_ensures(Storage::get_decks_map, (&storage,), before),
        call_ensures(Storage::get_decks_map, (&written,), after),
    ensures
        done is Ok && before is Ok && after is Ok,
        (after->Ok_0)@.contains_key(deck.id.0) && (after->Ok_0)@[deck.id.0] == deck,
        forall|id: i64|
            id != deck.id.0 ==> (#[trigger] (after->Ok_0)@.contains_key(id) <==> (
            before->Ok_0)@.contains_key(id)),
        forall|id: i64|
            id != deck.id.0 && (before->Ok_0)@.contains_key(id) ==> #[trigger] (after->Ok_0)@[id]
                == (before->Ok_0)@[id],
{
}

/// The size of a chunk and the number of retries.
pub proof fn law_chunk_limits()
    ensures
        REVLOG_CHUNK_CARD_COUNT == 4096,
        REVLOG_CHUNK_READ_RETRIES == 2,
{
}

/// Read through steps that read the storage, with anything in between that shows in the number of
/// changes where it touches the log or the search, the chunked reader lists the log as it is in
/// the end: every entry of a card from 1 on since the stamp, by card and by time within a card.
pub proof fn law_chunked_reader_keeps_up<FCardIds, FEntries, FFallback, FAfterChunk>(
    col: Collection,
    left: Collection,
    next_card_ids: FCardIds,
    entries_for_cards: FEntries,
    fallback: FFallback,
    after_chunk: FAfterChunk,
    after: TimestampSecs,
    res: Result<Vec<RevlogEntry>, AnkiError>,
) where
    FCardIds: FnMut(&mut Collection, CardId, usize) -> Result<Vec<CardId>, AnkiError>,
    FEntries: FnMut(&mut Collection, &[CardId]) -> Result<Vec<RevlogEntry>, AnkiError>,
    FFallback: FnMut(&mut Collection) -> Result<Vec<RevlogEntry>, AnkiError>,
    FAfterChunk: FnMut(&mut Collection) -> Result<(), AnkiError>,

    requires
        exists|c: &mut Collection|
            *c == col && *final(c) == left && #[trigger] call_ensures(
                Collection::revlog_entries_in_card_order_chunked::<
                    FCardIds,
                    FEntries,
                    FFallback,
                    FAfterChunk,
                >,
                (c, next_card_ids, entries_for_cards, fallback, after_chunk),
                res,
            ),
        forall|c: &mut Collection, cid: CardId, ids: Result<Vec<CardId>, AnkiError>| #[trigger]
            call_ensures(next_card_ids, (c, cid, 4096usize), ids) ==> *final(c) == *c
                && call_ensures(
                Storage::get_all_revlog_card_ids_after_stamp_chunk,
                (&c.storage, after, cid, 4096usize),
                ids,
            ),
        forall|c: &mut Collection, ids: &[CardId], entries: Result<Vec<RevlogEntry>, AnkiError>| #[trigger]
            call_ensures(entries_for_cards, (c, ids), entries) ==> *final(c) == *c && call_ensures(
                Storage::get_revlog_entries_for_card_ids_in_card_order_after_stamp,
                (&c.storage, ids, after),
                entries,
            ),
        forall|c: &mut Collection, entries: Result<Vec<RevlogEntry>, AnkiError>| #[trigger]
            call_ensures(fallback, (c,), entries) ==> *final(c) == *c && call_ensures(
                Storage::get_all_revlog_entries_in_card_order_after_stamp,
                (&c.storage, after),
                entries,
            ),
        forall|c: &mut Collection, done: Result<(), AnkiError>| #[trigger]
            call_ensures(after_chunk, (c,), done) && final(c).storage.changes()
                == c.storage.changes() ==> {
                &&& final(c).storage.revlog() == c.storage.revlog()
                &&& final(c).storage.searched() == c.storage.searched()
            },
        res is Ok,
    ensures
        forall|e: RevlogEntry|
            e.cid.0 >= 1 ==> (#[trigger] (res->Ok_0)@.contains(e) <==> left.storage.revlog().contains(
                e,
            ) && e.id.0 >= after.0 * 1000),
        forall|i: int, j: int|
            0 <= i < j < (res->Ok_0)@.len() ==> {
                let earlier = #[trigger] (res->Ok_0)@[i];
                let later = #[trigger] (res->Ok_0)@[j];
                earlier.cid.0 < later.cid.0 || earlier.cid.0 == later.cid.0 && earlier.id.0
                    < later.id.0
            },
{
    let wanted = since(after);
    assert forall|rounds: Seq<ChunkRound>| #[trigger]
        follow_on(col, rounds) && all_faithful(rounds, false, after) implies {
        let s = after_rounds(col, rounds);
        forall|none: Seq<CardId>|
            none.len() == 0 && #[trigger] next_cards(
                none,
                s.col.storage.revlog(),
                wanted,
                s.after_cid,
                REVLOG_CHUNK_CARD_COUNT as nat,
            ) ==> lists_in_card_order(s.out, s.col.storage.revlog(), of_numbered_cards(wanted))
    } by {
        let s = after_rounds(col, rounds);
        assert forall|none: Seq<CardId>|
            none.len() == 0 && #[trigger] next_cards(
                none,
                s.col.storage.revlog(),
                wanted,
                s.after_cid,
                REVLOG_CHUNK_CARD_COUNT as nat,
            ) implies lists_in_card_order(
            s.out,
            s.col.storage.revlog(),
            of_numbered_cards(wanted),
        ) by {
            law_read_is_up_to_date(col, rounds, false, after, none);
        }
    }
    let list = (res->Ok_0)@;
    let table = left.storage.revlog();
    assert(lists_in_card_order(list, table, of_numbered_cards(wanted)) || lists_in_card_order(
        list,
        table,
        wanted,
    ));
    assert forall|e: RevlogEntry| e.cid.0 >= 1 implies (#[trigger] list.contains(e) <==> table.contains(
        e,
    ) && e.id.0 >= after.0 * 1000) by {
        if lists_in_card_order(list, table, wanted) {
            assert(list.contains(e) <==> table.contains(e) && wanted(e));
        } else {
            assert(list.contains(e) <==> table.contains(e) && of_numbered_cards(wanted)(e));
        }
    }
}

} // verus!
