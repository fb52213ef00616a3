//! What is written to the review log.

use crate::card::Card;
use crate::card::Usn;
use crate::calls::reading::law_all_entries_are_read;
use crate::calls::reading::law_entries_since;
use crate::collection::scheduled_review_entry;
use crate::collection::Collection;
use crate::collection::UndoableRevlogChange;
use crate::error::AnkiError;
use crate::revlog::RevlogEntry;
use crate::revlog::RevlogId;
use crate::revlog::RevlogReviewKind;
use crate::storage::Storage;
use crate::timestamp::is_clock_reading;
use crate::timestamp::TimestampSecs;
use vstd::prelude::*;

verus! {

/// The entry records the card: its id and its new interval, the interval it had, the number of
/// the change, and the kind. It has neither a button nor a time taken. Intervals that do not fit
/// are the longest that do. The ease is that of the memory state where there is one, else that of
/// the card.
pub open spec fn records(
    entry: RevlogEntry,
    card: Card,
    original_interval: u32,
    usn: Usn,
    review_kind: RevlogReviewKind,
) -> bool {
    &&& entry.cid == card.id
    &&& entry.usn == usn
    &&& entry.button_chosen == 0
    &&& entry.taken_millis == 0
    &&& entry.review_kind == review_kind
    &&& card.interval <= 2147483647 ==> entry.interval == card.interval
    &&& card.interval > 2147483647 ==> entry.interval == 2147483647
    &&& original_interval <= 2147483647 ==> entry.last_interval == original_interval
    &&& original_interval > 2147483647 ==> entry.last_interval == 2147483647
    &&& card.memory_state is Some ==> entry.ease_factor == (card.memory_state->0).difficulty_shifted
    &&& card.memory_state is None ==> entry.ease_factor == card.ease_factor
}

/// The log has the entry besides what it had, under an id that was free.
pub open spec fn one_more(
    before: Seq<RevlogEntry>,
    after: Seq<RevlogEntry>,
    entry: RevlogEntry,
) -> bool {
    &&& forall|i: int| 0 <= i < before.len() ==> (#[trigger] before[i]).id != entry.id
    &&& forall|e: RevlogEntry| #[trigger]
        after.contains(e) <==> before.contains(e) || e == entry
}

/// The id that was asked for is used where it is free, else the one after the greatest.
pub open spec fn is_id_for(table: Seq<RevlogEntry>, asked: RevlogId, used: RevlogId) -> bool {
    if exists|i: int| 0 <= i < table.len() && (#[trigger] table[i]).id == asked {
        &&& forall|i: int| 0 <= i < table.len() ==> (#[trigger] table[i]).id.0 < used.0
        &&& exists|i: int| 0 <= i < table.len() && (#[trigger] table[i]).id.0 + 1 == used.0
    } else {
        used == asked
    }
}

/// Nothing but the log, what can be undone and the number of changes differs.
pub open spec fn same_but_log(a: Collection, b: Collection) -> bool {
    &&& a.storage.cards() == b.storage.cards()
    &&& a.storage.decks() == b.storage.decks()
    &&& a.storage.searched() == b.storage.searched()
    &&& a.config == b.config
}

/// The entry was added to the log, and can be undone.
pub open spec fn was_added(col: Collection, left: Collection, entry: RevlogEntry) -> bool {
    &&& one_more(col.storage.revlog(), left.storage.revlog(), entry)
    &&& same_but_log(col, left)
    &&& left.storage.changes() != col.storage.changes()
    &&& left.undo@.len() == col.undo@.len() + 1
    &&& left.undo@.last() == UndoableRevlogChange::Added(entry)
    &&& forall|i: int| 0 <= i < col.undo@.len() ==> left.undo@[i] == #[trigger] col.undo@[i]
}

/// No id is free for an entry that asks for one that is taken.
pub open spec fn is_full(table: Seq<RevlogEntry>, asked: RevlogId) -> bool {
    &&& exists|i: int| 0 <= i < table.len() && (#[trigger] table[i]).id == asked
    &&& exists|i: int| 0 <= i < table.len() && (#[trigger] table[i]).id.0 == 9223372036854775807
}

/// What is made to record that a card was scheduled records it, whatever the memory state and the
/// kind are.
pub proof fn law_made_entry_records(
    id: RevlogId,
    card: Card,
    original_interval: u32,
    usn: Usn,
    review_kind: RevlogReviewKind,
    entry: RevlogEntry,
)
    requires
        call_ensures(
            scheduled_review_entry,
            (id, &card, original_interval, usn, review_kind),
            entry,
        ),
    ensures
        entry.id == id,
        records(entry, card, original_interval, usn, review_kind),
{
}

/// An entry is added as it is, but for its id where that is taken; where none is free, nothing
/// happens.
pub proof fn law_entry_is_added(
    col: Collection,
    left: Collection,
    entry: RevlogEntry,
    r: Result<RevlogId, AnkiError>,
)
    requires
        col.storage.wf(),
        exists|c: &mut Collection|
            *c == col && *final(c) == left && #[trigger] call_ensures(
                Collection::add_revlog_entry_undoable,
                (c, entry),
                r,
            ),
    ensures
        r matches Ok(id) ==> {
            &&& is_id_for(col.storage.revlog(), entry.id, id)
            &&& was_added(col, left, (RevlogEntry { id, ..entry }))
        },
        r is Err <==> is_full(col.storage.revlog(), entry.id),
        r is Err ==> left == col && r->Err_0 is DbError,
{
    let table = col.storage.revlog();
    if let Ok(id) = r {
        let added = RevlogEntry { id, ..entry };
        lemma_one_more(table, left.storage.revlog(), added);
        if exists|i: int| 0 <= i < table.len() && (#[trigger] table[i]).id == entry.id {
            assert(table[table.len() - 1].id.0 + 1 == id.0);
        }
        assert(left.undo@ == col.undo@.push(UndoableRevlogChange::Added(added)));
        if is_full(table, entry.id) {
            let i: int = choose|i: int|
                0 <= i < table.len() && (#[trigger] table[i]).id.0 == 9223372036854775807;
            assert(table[table.len() - 1].id.0 >= table[i].id.0);
        }
    } else {
        assert(table.len() > 0);
        assert(table[table.len() - 1].id.0 == 9223372036854775807);
    }
}

proof fn lemma_one_more(before: Seq<RevlogEntry>, after: Seq<RevlogEntry>, entry: RevlogEntry)
    requires
        !(exists|i: int| 0 <= i < before.len() && (#[trigger] before[i]).id == entry.id),
        forall|e: RevlogEntry| #[trigger] after.contains(e) <==> before.push(entry).contains(e),
    ensures
        one_more(before, after, entry),
{
    let pushed = before.push(entry);
    assert forall|e: RevlogEntry| #[trigger] after.contains(e) <==> before.contains(e) || e
        == entry by {
        if before.contains(e) {
            let k: int = choose|k: int| 0 <= k < before.len() && before[k] == e;
            assert(pushed[k] == e);
        }
        assert(pushed[before.len() as int] == entry);
        if pushed.contains(e) && e != entry {
            let k: int = choose|k: int| 0 <= k < pushed.len() && pushed[k] == e;
            assert(before[k] == e);
        }
    }
}

/// To log at a given time that a card was scheduled adds one entry that records it, under that
/// time where it is free; where no id is free, nothing happens.
pub proof fn law_logged_at_time(
    col: Collection,
    left: Collection,
    id: RevlogId,
    card: Card,
    original_interval: u32,
    usn: Usn,
    review_kind: RevlogReviewKind,
    r: Result<(), AnkiError>,
)
    requires
        col.storage.wf(),
        exists|c: &mut Collection|
            *c == col && *final(c) == left && #[trigger] call_ensures(
                Collection::log_scheduled_review_at,
                (c, id, &card, original_interval, usn, review_kind),
                r,
            ),
    ensures
        r is Ok ==> exists|entry: RevlogEntry|
            #[trigger] records(entry, card, original_interval, usn, review_kind) && is_id_for(
                col.storage.revlog(),
                id,
                entry.id,
            ) && was_added(col, left, entry),
        r is Err <==> is_full(col.storage.revlog(), id),
        r is Err ==> left == col && r->Err_0 is DbError,
{
    lemma_logged(col, left, id, card, original_interval, usn, review_kind, r);
}

proof fn lemma_logged(
    col: Collection,
    left: Collection,
    id: RevlogId,
    card: Card,
    original_interval: u32,
    usn: Usn,
    review_kind: RevlogReviewKind,
    r: Result<(), AnkiError>,
)
    requires
        col.storage.wf(),
        crate::collection::is_logged(
            col,
            left,
            crate::collection::scheduled_review(id, card, original_interval, usn, review_kind),
            r,
        ),
    ensures
        r is Ok ==> exists|entry: RevlogEntry|
            #[trigger] records(entry, card, original_interval, usn, review_kind) && is_id_for(
                col.storage.revlog(),
                id,
                entry.id,
            ) && was_added(col, left, entry),
        r is Err <==> is_full(col.storage.revlog(), id),
        r is Err ==> left == col && r->Err_0 is DbError,
{
    let table = col.storage.revlog();
    let asked = crate::collection::scheduled_review(
        id,
        card,
        original_interval,
        usn,
        review_kind,
    );
    if r is Ok {
        let entry = RevlogEntry { id: crate::collection::used_id(col, asked), ..asked };
        lemma_one_more(table, left.storage.revlog(), entry);
        if exists|i: int| 0 <= i < table.len() && (#[trigger] table[i]).id == id {
            assert(table[table.len() - 1].id.0 + 1 == entry.id.0);
        }
        assert(records(entry, card, original_interval, usn, review_kind));
        if is_full(table, id) {
            let i: int = choose|i: int|
                0 <= i < table.len() && (#[trigger] table[i]).id.0 == 9223372036854775807;
            assert(table[table.len() - 1].id.0 >= table[i].id.0);
        }
    } else {
        assert(table[table.len() - 1].id.0 == 9223372036854775807);
    }
}

/// The number of milliseconds is that of a reading of the clock.
pub open spec fn is_now(millis: int) -> bool {
    exists|reading: Result<u128, u128>| #[trigger]
        is_clock_reading(reading) && match reading {
            Ok(since) => since <= i64::MAX ==> millis == since,
            Err(before) => before <= i64::MAX ==> millis == -before,
        }
}

/// To log that a due date was set or a card was reset adds one entry made by hand that records it,
/// dated now.
pub proof fn law_manual_review_is_logged(
    col: Collection,
    left: Collection,
    card: Card,
    original_interval: u32,
    usn: Usn,
    r: Result<(), AnkiError>,
)
    requires
        col.storage.wf(),
        exists|c: &mut Collection|
            *c == col && *final(c) == left && #[trigger] call_ensures(
                Collection::log_manually_scheduled_review,
                (c, &card, original_interval, usn),
                r,
            ),
    ensures
        exists|id: RevlogId|
            {
                &&& #[trigger] is_now(id.0 as int)
                &&& r is Ok ==> exists|entry: RevlogEntry|
                    #[trigger] records(entry, card, original_interval, usn, RevlogReviewKind::Manual)
                        && is_id_for(col.storage.revlog(), id, entry.id) && was_added(
                        col,
                        left,
                        entry,
                    )
                &&& r is Err <==> is_full(col.storage.revlog(), id)
                &&& r is Err ==> left == col && r->Err_0 is DbError
            },
{
    let (id, reading): (RevlogId, Result<u128, u128>) = choose|
        id: RevlogId,
        reading: Result<u128, u128>,
    | #[trigger]
        is_clock_reading(reading) && id.0 == crate::timestamp::reading_millis(reading)
            && crate::collection::is_logged(
            col,
            left,
            #[trigger] crate::collection::scheduled_review(
                id,
                card,
                original_interval,
                usn,
                RevlogReviewKind::Manual,
            ),
            r,
        );
    lemma_logged(col, left, id, card, original_interval, usn, RevlogReviewKind::Manual, r);
    assert(is_now(id.0 as int));
}

/// To log that a card was rescheduled adds one entry of that kind that records it, dated now.
pub proof fn law_rescheduled_review_is_logged(
    col: Collection,
    left: Collection,
    card: Card,
    original_interval: u32,
    usn: Usn,
    r: Result<(), AnkiError>,
)
    requires
        col.storage.wf(),
        exists|c: &mut Collection|
            *c == col && *final(c) == left && #[trigger] call_ensures(
                Collection::log_rescheduled_review,
                (c, &card, original_interval, usn),
                r,
            ),
    ensures
        exists|id: RevlogId|
            {
                &&& #[trigger] is_now(id.0 as int)
                &&& r is Ok ==> exists|entry: RevlogEntry|
                    #[trigger] records(entry, card, original_interval, usn, RevlogReviewKind::Rescheduled)
                        && is_id_for(col.storage.revlog(), id, entry.id) && was_added(
                        col,
                        left,
                        entry,
                    )
                &&& r is Err <==> is_full(col.storage.revlog(), id)
                &&& r is Err ==> left == col && r->Err_0 is DbError
            },
{
    let (id, reading): (RevlogId, Result<u128, u128>) = choose|
        id: RevlogId,
        reading: Result<u128, u128>,
    | #[trigger]
        is_clock_reading(reading) && id.0 == crate::timestamp::reading_millis(reading)
            && crate::collection::is_logged(
            col,
            left,
            #[trigger] crate::collection::scheduled_review(
                id,
                card,
                original_interval,
                usn,
                RevlogReviewKind::Rescheduled,
            ),
            r,
        );
    lemma_logged(col, left, id, card, original_interval, usn, RevlogReviewKind::Rescheduled, r);
    assert(is_now(id.0 as int));
}

/// To log that a card was scheduled adds one entry of the given kind that records it, dated now.
pub proof fn law_scheduled_review_is_logged(
    col: Collection,
    left: Collection,
    card: Card,
    original_interval: u32,
    usn: Usn,
    review_kind: RevlogReviewKind,
    r: Result<(), AnkiError>,
)
    requires
        col.storage.wf(),
        exists|c: &mut Collection|
            *c == col && *final(c) == left && #[trigger] call_ensures(
                Collection::log_scheduled_review,
                (c, &card, original_interval, usn, review_kind),
                r,
            ),
    ensures
        exists|id: RevlogId|
            {
                &&& #[trigger] is_now(id.0 as int)
                &&& r is Ok ==> exists|entry: RevlogEntry|
                    #[trigger] records(entry, card, original_interval, usn, review_kind)
                        && is_id_for(col.storage.revlog(), id, entry.id) && was_added(
                        col,
                        left,
                        entry,
                    )
                &&& r is Err <==> is_full(col.storage.revlog(), id)
                &&& r is Err ==> left == col && r->Err_0 is DbError
            },
{
    let (id, reading): (RevlogId, Result<u128, u128>) = choose|
        id: RevlogId,
        reading: Result<u128, u128>,
    | #[trigger]
        is_clock_reading(reading) && id.0 == crate::timestamp::reading_millis(reading)
            && crate::collection::is_logged(
            col,
            left,
            #[trigger] crate::collection::scheduled_review(
                id,
                card,
                original_interval,
                usn,
                review_kind,
            ),
            r,
        );
    lemma_logged(col, left, id, card, original_interval, usn, review_kind, r);
    assert(is_now(id.0 as int));
}

/// An id that is made now is the time that the clock reads.
pub proof fn law_new_id_is_now(id: RevlogId)
    requires
        call_ensures(RevlogId::new, (), id),
    ensures
        is_now(id.0 as int),
{
}

/// Without leave to change its id, an entry is added under it if and only if it is free, and
/// nothing happens otherwise.
pub proof fn law_entry_keeps_its_id(
    storage: Storage,
    left: Storage,
    entry: RevlogEntry,
    r: Result<Option<RevlogId>, AnkiError>,
)
    requires
        exists|s: &mut Storage|
            *s == storage && *final(s) == left && #[trigger] call_ensures(
                Storage::add_revlog_entry,
                (s, &entry, false),
                r,
            ),
    ensures
        r is Ok,
        r->Ok_0 is None <==> exists|i: int|
            0 <= i < storage.revlog().len() && (#[trigger] storage.revlog()[i]).id == entry.id,
        r->Ok_0 is None ==> left == storage,
        r->Ok_0 matches Some(id) ==> {
            &&& id == entry.id
            &&& one_more(storage.revlog(), left.revlog(), entry)
            &&& left.changes() != storage.changes()
            &&& left.cards() == storage.cards()
            &&& left.decks() == storage.decks()
            &&& left.searched() == storage.searched()
        },
{
    if let Ok(Some(id)) = r {
        assert((RevlogEntry { id, ..entry }) == entry);
        lemma_one_more(storage.revlog(), left.revlog(), entry);
    }
}

/// With leave to change its id, an entry is added under the next id past the greatest where its
/// own is taken.
pub proof fn law_entry_finds_an_id(
    storage: Storage,
    left: Storage,
    entry: RevlogEntry,
    r: Result<Option<RevlogId>, AnkiError>,
)
    requires
        storage.wf(),
        exists|s: &mut Storage|
            *s == storage && *final(s) == left && #[trigger] call_ensures(
                Storage::add_revlog_entry,
                (s, &entry, true),
                r,
            ),
    ensures
        r is Err <==> is_full(storage.revlog(), entry.id),
        r is Err ==> left == storage && r->Err_0 is DbError,
        r matches Ok(found) ==> {
            &&& found is Some
            &&& is_id_for(storage.revlog(), entry.id, found->0)
            &&& one_more(storage.revlog(), left.revlog(), (RevlogEntry { id: found->0, ..entry }))
        },
{
    let table = storage.revlog();
    if let Ok(Some(id)) = r {
        let added = RevlogEntry { id, ..entry };
        lemma_one_more(table, left.revlog(), added);
        if exists|i: int| 0 <= i < table.len() && (#[trigger] table[i]).id == entry.id {
            assert(table[table.len() - 1].id.0 + 1 == id.0);
        }
        if is_full(table, entry.id) {
            let i: int = choose|i: int|
                0 <= i < table.len() && (#[trigger] table[i]).id.0 == 9223372036854775807;
            assert(table[table.len() - 1].id.0 >= table[i].id.0);
        }
    } else if r is Err {
        assert(table[table.len() - 1].id.0 == 9223372036854775807);
    }
}

/// What is added is read, next to what was read before, and nothing else is.
pub proof fn law_added_entry_is_read(
    col: Collection,
    left: Collection,
    entry: RevlogEntry,
    id: RevlogId,
    after: TimestampSecs,
    col_read: Collection,
    left_read: Collection,
    before_list: Result<Vec<RevlogEntry>, AnkiError>,
    after_list: Result<Vec<RevlogEntry>, AnkiError>,
)
    requires
        col.storage.wf(),
        exists|c: &mut Collection|
            *c == col && *final(c) == left && #[trigger] call_ensures(
                Collection::add_revlog_entry_undoable,
                (c, entry),
                Ok(id),
            ),
        exists|c: &mut Collection|
            *c == col && *final(c) == col_read && #[trigger] call_ensures(
                Collection::all_revlog_entries_in_card_order_chunked,
                (c, after),
                before_list,
            ),
        exists|c: &mut Collection|
            *c == left && *final(c) == left_read && #[trigger] call_ensures(
                Collection::all_revlog_entries_in_card_order_chunked,
                (c, after),
                after_list,
            ),
        entry.cid.0 >= 1,
        id.0 >= after.0 * 1000,
    ensures
        forall|e: RevlogEntry| #[trigger]
            (after_list->Ok_0)@.contains(e) <==> (before_list->Ok_0)@.contains(e) || e == (
            RevlogEntry { id, ..entry }),
        !(before_list->Ok_0)@.contains((RevlogEntry { id, ..entry })),
{
    let added = RevlogEntry { id, ..entry };
    law_entry_is_added(col, left, entry, Ok(id));
    law_all_entries_are_read(col, col_read, after, before_list);
    law_all_entries_are_read(left, left_read, after, after_list);
    let table = col.storage.revlog();
    assert forall|e: RevlogEntry| #[trigger]
        (after_list->Ok_0)@.contains(e) <==> (before_list->Ok_0)@.contains(e) || e == added by {
        assert((before_list->Ok_0)@.contains(e) <==> table.contains(e) && e.cid.0 >= 1 && e.id.0
            >= after.0 * 1000);
        assert(left.storage.revlog().contains(e) <==> table.contains(e) || e == added);
    }
    if (before_list->Ok_0)@.contains(added) {
        assert(table.contains(added));
        let i: int = choose|i: int| 0 <= i < table.len() && table[i] == added;
        assert(table[i].id == added.id);
    }
}

/// Nothing is read of a new collection.
pub proof fn law_new_collection_is_empty(
    col: Collection,
    after: TimestampSecs,
    list: Result<Vec<RevlogEntry>, AnkiError>,
)
    requires
        call_ensures(Collection::new, (), col),
        col.storage.wf(),
        call_ensures(Storage::get_all_revlog_entries, (&col.storage, after), list),
    ensures
        list is Ok,
        (list->Ok_0)@.len() == 0,
        col.undo@.len() == 0,
        col.storage.changes() == 0,
        col.storage.cards().len() == 0,
        col.storage.searched().len() == 0,
        forall|id: i64| !#[trigger] col.storage.decks().contains_key(id),
{
    law_entries_since(col.storage, after, list);
    if (list->Ok_0)@.len() > 0 {
        assert((list->Ok_0)@.contains((list->Ok_0)@[0]));
    }
}

} // verus!
