//! What is written to the tables.

use crate::card::Card;
use crate::card::CardId;
use crate::card::Deck;
use crate::card::DeckConfigId;
use crate::collection::Collection;
use crate::error::AnkiError;
use crate::order::sort_by_card;
use crate::revlog::RevlogEntry;
use crate::revlog::RevlogId;
use crate::storage::Storage;
use vstd::prelude::*;

verus! {

/// One row more was written.
pub open spec fn one_row_written(before: Storage, after: Storage) -> bool {
    &&& before.changes() < u64::MAX ==> after.changes() == before.changes() + 1
    &&& before.changes() == u64::MAX ==> after.changes() == 0
}

/// The row of a card stands in place of the one with its id, or after all others, which are as
/// they were.
pub proof fn law_card_is_written(
    storage: Storage,
    written: Storage,
    card: Card,
    r: Result<(), AnkiError>,
)
    requires
        exists|s: &mut Storage|
            *s == storage && *final(s) == written && #[trigger] call_ensures(
                Storage::add_or_update_card,
                (s, &card),
                r,
            ),
    ensures
        r is Ok,
        forall|i: int|
            0 <= i < storage.cards().len() && (#[trigger] storage.cards()[i]).id != card.id
                ==> written.cards()[i] == storage.cards()[i],
        forall|i: int|
            0 <= i < storage.cards().len() && (#[trigger] storage.cards()[i]).id == card.id
                ==> written.cards()[i] == card && written.cards().len() == storage.cards().len(),
        (forall|i: int|
            0 <= i < storage.cards().len() ==> (#[trigger] storage.cards()[i]).id != card.id) ==> {
            &&& written.cards().len() == storage.cards().len() + 1
            &&& written.cards()[storage.cards().len() as int] == card
        },
        one_row_written(storage, written),
        written.revlog() == storage.revlog(),
        written.decks() == storage.decks(),
        written.searched() == storage.searched(),
{
    let before = storage.cards();
    if exists|i: int| 0 <= i < before.len() && (#[trigger] before[i]).id == card.id {
        let at: int = choose|at: int| 0 <= at < before.len() && (#[trigger] before[at]).id == card.id;
        assert(written.cards() == before.update(at, card));
        assert forall|i: int| 0 <= i < before.len() && (
        #[trigger] before[i]).id == card.id implies written.cards()[i] == card by {
            assert(written.cards() == before.update(i, card));
        }
    } else {
        assert(written.cards() == before.push(card));
    }
}

/// A deck is written under its id, and nothing else is touched.
pub proof fn law_deck_is_written(
    storage: Storage,
    written: Storage,
    deck: Deck,
    r: Result<(), AnkiError>,
)
    requires
        exists|s: &mut Storage|
            *s == storage && *final(s) == written && #[trigger] call_ensures(
                Storage::add_or_update_deck,
                (s, &deck),
                r,
            ),
    ensures
        r is Ok,
        forall|id: i64| #[trigger]
            written.decks().contains_key(id) <==> storage.decks().contains_key(id) || id
                == deck.id.0,
        written.decks()[deck.id.0] == deck,
        forall|id: i64|
            storage.decks().contains_key(id) && id != deck.id.0 ==> #[trigger] written.decks()[id]
                == storage.decks()[id],
        one_row_written(storage, written),
        written.revlog() == storage.revlog(),
        written.cards() == storage.cards(),
        written.searched() == storage.searched(),
{
}

/// A deck tells the preset that it has.
pub proof fn law_preset_of_deck(deck: Deck, config_id: Option<DeckConfigId>)
    requires
        call_ensures(Deck::config_id, (&deck,), config_id),
    ensures
        config_id == deck.config_id,
{
}

/// An entry that is added is a row written, and one that is not is none.
pub proof fn law_entry_is_a_row(
    storage: Storage,
    left: Storage,
    entry: RevlogEntry,
    uniquify: bool,
    r: Result<Option<RevlogId>, AnkiError>,
)
    requires
        exists|s: &mut Storage|
            *s == storage && *final(s) == left && #[trigger] call_ensures(
                Storage::add_revlog_entry,
                (s, &entry, uniquify),
                r,
            ),
    ensures
        r is Ok && r->Ok_0 is Some ==> one_row_written(storage, left),
        !(r is Ok && r->Ok_0 is Some) ==> left == storage,
        left.cards() == storage.cards(),
        left.decks() == storage.decks(),
        left.searched() == storage.searched(),
{
}

/// The number of rows written is told as it is, both of the collection and of its tables.
pub proof fn law_rows_written_are_told(
    col: Collection,
    told: Result<u64, AnkiError>,
    told_too: Result<u64, AnkiError>,
)
    requires
        call_ensures(Collection::changes_since_open, (&col,), told),
        call_ensures(Storage::changes_since_open, (&col.storage,), told_too),
    ensures
        told is Ok && told->Ok_0 == col.storage.changes(),
        told_too == told,
{
}

/// A search holds the cards that it is set to, and nothing once it is ended; no row is written.
pub proof fn law_search_is_set_and_ended(
    storage: Storage,
    searching: Storage,
    ended: Storage,
    cards: &[CardId],
    set: Result<(), AnkiError>,
    cleared: Result<(), AnkiError>,
    rows: Result<Vec<Card>, AnkiError>,
)
    requires
        exists|s: &mut Storage|
            *s == storage && *final(s) == searching && #[trigger] call_ensures(
                Storage::set_search_table_to_card_ids,
                (s, cards),
                set,
            ),
        exists|s: &mut Storage|
            *s == searching && *final(s) == ended && #[trigger] call_ensures(
                Storage::clear_searched_cards_table,
                (s,),
                cleared,
            ),
        call_ensures(Storage::all_searched_cards, (&searching,), rows),
    ensures
        set is Ok && cleared is Ok && rows is Ok,
        forall|card: Card| #[trigger]
            (rows->Ok_0)@.contains(card) <==> storage.cards().contains(card) && cards@.contains(
                card.id,
            ),
        ended.searched().len() == 0,
        searching.searched() == cards@,
        searching.changes() == storage.changes() && ended.changes() == storage.changes(),
        searching.revlog() == storage.revlog() && ended.revlog() == storage.revlog(),
        searching.cards() == storage.cards() && ended.cards() == storage.cards(),
        searching.decks() == storage.decks() && ended.decks() == storage.decks(),
{
    crate::calls::reading::law_searched_rows(searching, rows);
}

/// Entries with ids of their own are put in order by card, and by time within a card; none is lost
/// and none is added.
pub proof fn law_sorted_by_card(v: Vec<RevlogEntry>, out: Vec<RevlogEntry>)
    requires
        call_ensures(sort_by_card, (&v,), out),
    ensures
        forall|e: RevlogEntry| #[trigger] out@.contains(e) <==> v@.contains(e),
        forall|i: int, j: int|
            0 <= i < j < out@.len() ==> {
                let a = #[trigger] out@[i];
                let b = #[trigger] out@[j];
                a.cid.0 < b.cid.0 || a.cid.0 == b.cid.0 && a.id.0 < b.id.0
            },
{
}

/// New tables are empty.
pub proof fn law_new_tables_are_empty(storage: Storage)
    requires
        call_ensures(Storage::new, (), storage),
    ensures
        storage.revlog().len() == 0,
        storage.cards().len() == 0,
        forall|id: i64| !#[trigger] storage.decks().contains_key(id),
        storage.searched().len() == 0,
        storage.changes() == 0,
{
}

} // verus!
