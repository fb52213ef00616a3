//! A collection: its tables, its settings and what can be undone.

use crate::card::Card;
use crate::card::Usn;
use crate::config::Config;
use crate::error::AnkiError;
use crate::order::same_entries;
use crate::revlog::RevlogEntry;
use crate::revlog::RevlogId;
use crate::revlog::RevlogReviewKind;
use crate::storage::has_id;
use crate::storage::Storage;
use crate::timestamp::is_clock_reading;
use crate::timestamp::reading_millis;
use vstd::prelude::*;

verus! {

/// A change of the review log that can be undone.
#[derive(Debug, Clone, Copy, PartialEq, Eq, Structural)]
pub enum UndoableRevlogChange {
    Added(RevlogEntry),
}

pub struct Collection {
    pub storage: Storage,
    pub config: Config,
    /// The changes that can be undone, the latest last.
    pub undo: Vec<UndoableRevlogChange>,
}

/// An id can be found for the entry: its own, or the one past the last.
pub open spec fn can_add(col: Collection, entry: RevlogEntry) -> bool {
    let table = col.storage.revlog();
    has_id(table, entry.id) ==> table.last().id.0 < i64::MAX
}

/// The id under which the entry is added.
pub open spec fn used_id(col: Collection, entry: RevlogEntry) -> RevlogId {
    let table = col.storage.revlog();
    if has_id(table, entry.id) {
        RevlogId((table.last().id.0 + 1) as i64)
    } else {
        entry.id
    }
}

/// `after` is `before` with the entry added under the id `id`, so that it can be undone.
pub open spec fn is_added(
    before: Collection,
    after: Collection,
    entry: RevlogEntry,
    id: RevlogId,
) -> bool {
    let added = RevlogEntry { id, ..entry };
    &&& !has_id(before.storage.revlog(), id)
    &&& after.storage.wf()
    &&& same_entries(after.storage.revlog(), before.storage.revlog().push(added))
    &&& after.storage.changes() == before.storage.changes().wrapping_add(1)
    &&& after.undo@ == before.undo@.push(UndoableRevlogChange::Added(added))
    &&& after.storage.cards() == before.storage.cards()
    &&& after.storage.decks() == before.storage.decks()
    &&& after.storage.searched() == before.storage.searched()
    &&& after.config == before.config
}

/// The number of days as the log stores it.
pub open spec fn stored_interval(days: u32) -> i32 {
    if days > i32::MAX {
        i32::MAX
    } else {
        days as i32
    }
}

/// The entry that records that `card` was scheduled without an answer.
pub open spec fn scheduled_review(
    id: RevlogId,
    card: Card,
    original_interval: u32,
    usn: Usn,
    review_kind: RevlogReviewKind,
) -> RevlogEntry {
    RevlogEntry {
        id,
        cid: card.id,
        usn,
        button_chosen: 0,
        interval: stored_interval(card.interval),
        last_interval: stored_interval(original_interval),
        ease_factor: match card.memory_state {
            Some(state) => state.difficulty_shifted as u32,
            None => card.ease_factor as u32,
        },
        taken_millis: 0,
        review_kind,
    }
}

/// The outcome of logging `entry`: it is added, or the collection is left as it was.
pub open spec fn is_logged(
    before: Collection,
    after: Collection,
    entry: RevlogEntry,
    r: Result<(), AnkiError>,
) -> bool {
    if can_add(before, entry) {
        r is Ok && is_added(before, after, entry, used_id(before, entry))
    } else {
        r == Err::<(), AnkiError>(AnkiError::DbError) && after == before
    }
}

fn to_stored_interval(days: u32) -> (interval: i32)
    ensures
        interval == stored_interval(days),
{
    if days > i32::MAX as u32 {
        i32::MAX
    } else {
        days as i32
    }
}

/// The entry that records that `card` was scheduled without an answer.
pub fn scheduled_review_entry(
    id: RevlogId,
    card: &Card,
    original_interval: u32,
    usn: Usn,
    review_kind: RevlogReviewKind,
) -> (entry: RevlogEntry)
    ensures
        entry == scheduled_review(id, *card, original_interval, usn, review_kind),
{
    let ease_factor: u32 = match card.memory_state {
        Some(state) => state.difficulty_shifted as u32,
        None => card.ease_factor as u32,
    };
    RevlogEntry {
        id,
        cid: card.id,
        usn,
        button_chosen: 0,
        interval: to_stored_interval(card.interval),
        last_interval: to_stored_interval(original_interval),
        ease_factor,
        taken_millis: 0,
        review_kind,
    }
}

/// What is logged without an answer neither counts for scheduling nor as cramming, and is a
/// reset where it was made by hand for a card without ease. With a memory state in the range of
/// shifted difficulties it is no reset.
pub proof fn law_scheduled_review_does_not_count(
    id: RevlogId,
    card: Card,
    original_interval: u32,
    usn: Usn,
    review_kind: RevlogReviewKind,
)
    requires
        review_kind == RevlogReviewKind::Manual || review_kind == RevlogReviewKind::Rescheduled,
    ensures
        ({
            let entry = scheduled_review(id, card, original_interval, usn, review_kind);
            &&& !entry.rated()
            &&& !entry.counts()
            &&& !entry.crams()
            &&& entry.resets() <==> review_kind == RevlogReviewKind::Manual && match card.memory_state {
                Some(state) => state.difficulty_shifted == 0,
                None => card.ease_factor == 0,
            }
            &&& card.memory_state matches Some(state) ==> state.difficulty_shifted >= 100
                ==> !entry.resets()
            &&& entry.interval >= 0 && entry.last_interval >= 0
        }),
{
}

impl Collection {
    /// An empty collection.
    pub fn new() -> (col: Collection)
        ensures
            col.storage.revlog() == Seq::<RevlogEntry>::empty(),
            col.storage.cards().len() == 0,
            col.storage.decks() == Map::<i64, crate::card::Deck>::empty(),
            col.storage.searched().len() == 0,
            col.storage.changes() == 0,
            col.config == crate::config::initial_config(),
            col.undo@.len() == 0,
    {
        Collection { storage: Storage::new(), config: Config::new(), undo: Vec::new() }
    }

    /// The rows written since the collection was opened.
    pub fn changes_since_open(&self) -> (r: Result<u64, AnkiError>)
        ensures
            r == Ok::<u64, AnkiError>(self.storage.changes()),
    {
        self.storage.changes_since_open()
    }

    /// Adds the entry, under another id if its own is taken, and returns the id in use.
    pub fn add_revlog_entry_undoable(&mut self, entry: RevlogEntry) -> (r: Result<
        RevlogId,
        AnkiError,
    >)
        ensures
            if can_add(*old(self), entry) {
                r == Ok::<RevlogId, AnkiError>(used_id(*old(self), entry)) && is_added(
                    *old(self),
                    *final(self),
                    entry,
                    used_id(*old(self), entry),
                )
            } else {
                r == Err::<RevlogId, AnkiError>(AnkiError::DbError) && *final(self) == *old(self)
            },
    {
        match self.storage.add_revlog_entry(&entry, true) {
            Ok(Some(id)) => {
                let added = RevlogEntry { id, ..entry };
                self.undo.push(UndoableRevlogChange::Added(added));
                Ok(id)
            },
            Ok(None) => Err(AnkiError::DbError),
            Err(e) => Err(e),
        }
    }

    /// Records that the due date of a card was set, or that it was reset.
    pub fn log_manually_scheduled_review(
        &mut self,
        card: &Card,
        original_interval: u32,
        usn: Usn,
    ) -> (r: Result<(), AnkiError>)
        ensures
            exists|id: RevlogId, reading: Result<u128, u128>| #[trigger]
                is_clock_reading(reading) && id.0 == reading_millis(reading) && is_logged(
                    *old(self),
                    *final(self),
                    #[trigger] scheduled_review(
                        id,
                        *card,
                        original_interval,
                        usn,
                        RevlogReviewKind::Manual,
                    ),
                    r,
                ),
    {
        self.log_scheduled_review(card, original_interval, usn, RevlogReviewKind::Manual)
    }

    /// Records that a card was rescheduled because of a change of the settings.
    pub fn log_rescheduled_review(
        &mut self,
        card: &Card,
        original_interval: u32,
        usn: Usn,
    ) -> (r: Result<(), AnkiError>)
        ensures
            exists|id: RevlogId, reading: Result<u128, u128>| #[trigger]
                is_clock_reading(reading) && id.0 == reading_millis(reading) && is_logged(
                    *old(self),
                    *final(self),
                    #[trigger] scheduled_review(
                        id,
                        *card,
                        original_interval,
                        usn,
                        RevlogReviewKind::Rescheduled,
                    ),
                    r,
                ),
    {
        self.log_scheduled_review(card, original_interval, usn, RevlogReviewKind::Rescheduled)
    }

    /// Records that a card was scheduled now, without an answer.
    pub fn log_scheduled_review(
        &mut self,
        card: &Card,
        original_interval: u32,
        usn: Usn,
        review_kind: RevlogReviewKind,
    ) -> (r: Result<(), AnkiError>)
        ensures
            exists|id: RevlogId, reading: Result<u128, u128>| #[trigger]
                is_clock_reading(reading) && id.0 == reading_millis(reading) && is_logged(
                    *old(self),
                    *final(self),
                    #[trigger] scheduled_review(id, *card, original_interval, usn, review_kind),
                    r,
                ),
    {
        let id = RevlogId::new();
        self.log_scheduled_review_at(id, card, original_interval, usn, review_kind)
    }

    /// Records that a card was scheduled at the time that `id` gives, without an answer.
    pub fn log_scheduled_review_at(
        &mut self,
        id: RevlogId,
        card: &Card,
        original_interval: u32,
        usn: Usn,
        review_kind: RevlogReviewKind,
    ) -> (r: Result<(), AnkiError>)
        ensures
            is_logged(
                *old(self),
                *final(self),
                scheduled_review(id, *card, original_interval, usn, review_kind),
                r,
            ),
    {
        let entry = scheduled_review_entry(id, card, original_interval, usn, review_kind);
        match self.add_revlog_entry_undoable(entry) {
            Ok(_) => Ok(()),
            Err(e) => Err(e),
        }
    }
}

} // verus!
