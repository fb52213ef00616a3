//! The tables of a collection, held as plain rows.

use crate::card::Card;
use crate::card::CardId;
use crate::card::Deck;
use crate::error::AnkiError;
use crate::order::card_before;
use crate::order::in_card_order;
use crate::order::lists_in_card_order;
use crate::order::same_entries;
use crate::order::sort_by_card;
use crate::revlog::RevlogEntry;
use crate::revlog::RevlogId;
use crate::timestamp::TimestampSecs;
use std::collections::HashMap;
use std::collections::HashSet;
use vstd::prelude::*;

verus! {

broadcast use vstd::std_specs::hash::group_hash_axioms;

/// The rows stand in the order of their ids, each id once.
pub open spec fn ids_ascending(table: Seq<RevlogEntry>) -> bool {
    forall|i: int, j: int|
        0 <= i < j < table.len() ==> (#[trigger] table[i]).id.0 < (#[trigger] table[j]).id.0
}

pub open spec fn has_id(table: Seq<RevlogEntry>, id: RevlogId) -> bool {
    exists|i: int| 0 <= i < table.len() && (#[trigger] table[i]).id == id
}

/// No two cards have the same id.
pub open spec fn card_ids_distinct(cards: Seq<Card>) -> bool {
    forall|i: int, j: int|
        0 <= i < j < cards.len() ==> (#[trigger] cards[i]).id != (#[trigger] cards[j]).id
}

/// The entry was made at `after` or later.
pub open spec fn made_since(e: RevlogEntry, after: TimestampSecs) -> bool {
    e.id.0 >= after.0 * 1000
}

/// Accepts the entries made since `after`.
pub open spec fn since(after: TimestampSecs) -> spec_fn(RevlogEntry) -> bool {
    |e: RevlogEntry| made_since(e, after)
}

/// Accepts the entries of `cards` made since `after`.
pub open spec fn of_cards_since(cards: Seq<CardId>, after: TimestampSecs) -> spec_fn(
    RevlogEntry,
) -> bool {
    |e: RevlogEntry| made_since(e, after) && cards.contains(e.cid)
}

/// `ids` are the first `limit` cards past `after_cid`, in ascending order, that have an entry
/// in `table` that `wanted` accepts: all of them, where there are no more than `limit`.
pub open spec fn next_cards(
    ids: Seq<CardId>,
    table: Seq<RevlogEntry>,
    wanted: spec_fn(RevlogEntry) -> bool,
    after_cid: CardId,
    limit: nat,
) -> bool {
    &&& ids.len() <= limit
    &&& forall|i: int, j: int| 0 <= i < j < ids.len() ==> (#[trigger] ids[i]).0 < (#[trigger] ids[j]).0
    &&& forall|i: int| 0 <= i < ids.len() ==> (#[trigger] ids[i]).0 > after_cid.0
    &&& forall|i: int|
        0 <= i < ids.len() ==> exists|e: RevlogEntry|
            #[trigger] table.contains(e) && wanted(e) && e.cid == #[trigger] ids[i]
    &&& forall|e: RevlogEntry| #[trigger]
        table.contains(e) && wanted(e) && e.cid.0 > after_cid.0 && !ids.contains(e.cid) ==> {
            &&& ids.len() == limit
            &&& limit > 0 ==> e.cid.0 > ids.last().0
        }
}

/// A written row shows in the number of changes.
pub proof fn law_write_shows(changes: u64)
    ensures
        changes.wrapping_add(1) != changes,
{
}

/// What a filter keeps of rows in the order of their ids is in that order.
pub proof fn lemma_filter_ascending(table: Seq<RevlogEntry>, wanted: spec_fn(RevlogEntry) -> bool)
    requires
        ids_ascending(table),
    ensures
        ids_ascending(table.filter(wanted)),
        forall|e: RevlogEntry| #[trigger]
            table.filter(wanted).contains(e) <==> table.contains(e) && wanted(e),
    decreases table.len(),
{
    reveal(Seq::filter);
    if table.len() > 0 {
        let rest = table.drop_last();
        let kept = rest.filter(wanted);
        lemma_filter_ascending(rest, wanted);
        let all = table.filter(wanted);
        assert forall|i: int| 0 <= i < kept.len() implies (#[trigger] kept[i]).id.0
            < table.last().id.0 by {
            assert(kept.contains(kept[i]));
            let k: int = choose|k: int| 0 <= k < rest.len() && rest[k] == kept[i];
            assert(table[k].id.0 < table[table.len() - 1].id.0);
        }
        assert forall|e: RevlogEntry| #[trigger]
            all.contains(e) <==> table.contains(e) && wanted(e) by {
            assert(kept.contains(e) <==> rest.contains(e) && wanted(e));
            if kept.contains(e) {
                let k: int = choose|k: int| 0 <= k < kept.len() && kept[k] == e;
                assert(all[k] == e);
                let m: int = choose|m: int| 0 <= m < rest.len() && rest[m] == e;
                assert(table[m] == e);
            }
            if all.contains(e) {
                let k: int = choose|k: int| 0 <= k < all.len() && all[k] == e;
                if k < kept.len() {
                    assert(kept[k] == e);
                } else {
                    assert(table[table.len() - 1] == e);
                }
            }
            if table.contains(e) && wanted(e) {
                let m: int = choose|m: int| 0 <= m < table.len() && table[m] == e;
                if m < rest.len() {
                    assert(rest[m] == e);
                } else {
                    assert(all[all.len() - 1] == e);
                }
            }
        }
    }
}

fn is_since(e: &RevlogEntry, after: TimestampSecs) -> (r: bool)
    ensures
        r == made_since(*e, after),
{
    e.id.0 as i128 >= after.0 as i128 * 1000
}

/// The numbers of the cards.
fn card_numbers(cards: &[CardId]) -> (set: HashSet<i64>)
    ensures
        forall|n: i64| #[trigger] set@.contains(n) <==> cards@.contains(CardId(n)),
{
    let mut set: HashSet<i64> = HashSet::new();
    let mut i: usize = 0;
    while i < cards.len()
        invariant
            i <= cards@.len(),
            forall|n: i64| #[trigger] set@.contains(n) <==> cards@.take(i as int).contains(CardId(n)),
        decreases cards@.len() - i,
    {
        let ghost before = set@;
        let next: i64 = cards[i].0;
        set.insert(next);
        proof {
            assert forall|n: i64| #[trigger] set@.contains(n) <==> cards@.take(i + 1).contains(
                CardId(n),
            ) by {
                let now = cards@.take(i + 1);
                assert(before.contains(n) <==> cards@.take(i as int).contains(CardId(n)));
                if cards@.take(i as int).contains(CardId(n)) {
                    let k: int = choose|k: int| 0 <= k < i && cards@.take(i as int)[k] == CardId(n);
                    assert(now[k] == CardId(n));
                }
                if n == next {
                    assert(now[i as int] == CardId(n));
                }
                if now.contains(CardId(n)) {
                    let k: int = choose|k: int| 0 <= k < now.len() && now[k] == CardId(n);
                    if k < i {
                        assert(cards@.take(i as int)[k] == CardId(n));
                    }
                }
            }
        }
        i = i + 1;
    }
    assert(cards@.take(i as int) =~= cards@);
    set
}

/// The first `limit` cards past `after_cid` of rows in card order.
fn first_cards(rows: &Vec<RevlogEntry>, after_cid: CardId, limit: usize) -> (ids: Vec<CardId>)
    requires
        in_card_order(rows@),
    ensures
        forall|table: Seq<RevlogEntry>, wanted: spec_fn(RevlogEntry) -> bool| #[trigger]
            lists_in_card_order(rows@, table, wanted) ==> next_cards(
                ids@,
                table,
                wanted,
                after_cid,
                limit as nat,
            ),
{
    let mut ids: Vec<CardId> = Vec::new();
    let mut last: CardId = after_cid;
    let mut i: usize = 0;
    while i < rows.len() && ids.len() < limit
        invariant
            i <= rows@.len(),
            in_card_order(rows@),
            ids@.len() <= limit,
            forall|a: int, b: int|
                0 <= a < b < ids@.len() ==> (#[trigger] ids@[a]).0 < (#[trigger] ids@[b]).0,
            forall|a: int| 0 <= a < ids@.len() ==> (#[trigger] ids@[a]).0 > after_cid.0,
            forall|a: int|
                0 <= a < ids@.len() ==> exists|k: int|
                    0 <= k < i && (#[trigger] rows@[k]).cid == #[trigger] ids@[a],
            forall|k: int|
                0 <= k < i && (#[trigger] rows@[k]).cid.0 > after_cid.0 ==> ids@.contains(
                    rows@[k].cid,
                ),
            last == if ids@.len() == 0 {
                after_cid
            } else {
                ids@.last()
            },
            forall|k: int|
                i <= k < rows@.len() && ids@.len() > 0 ==> (#[trigger] rows@[k]).cid.0 >= last.0,
        decreases rows@.len() - i,
    {
        let cid = rows[i].cid;
        let ghost before = ids@;
        if cid.0 > last.0 {
            ids.push(cid);
            last = cid;
        }
        proof {
            if ids@.len() > before.len() {
                assert(ids@[before.len() as int] == cid);
            } else if before.len() > 0 {
                assert(cid == last);
                assert(before[before.len() - 1] == cid);
            }
            assert forall|c: CardId| before.contains(c) implies #[trigger] ids@.contains(c) by {
                let k: int = choose|k: int| 0 <= k < before.len() && before[k] == c;
                assert(ids@[k] == c);
            }
            assert forall|k: int| i + 1 <= k < rows@.len() implies (#[trigger] rows@[k]).cid.0 >= cid.0 by {
                assert(card_before(rows@[i as int], rows@[k]));
            }
        }
        i = i + 1;
    }
    proof {
        assert forall|table: Seq<RevlogEntry>, wanted: spec_fn(RevlogEntry) -> bool| #[trigger]
            lists_in_card_order(rows@, table, wanted) implies next_cards(
            ids@,
            table,
            wanted,
            after_cid,
            limit as nat,
        ) by {
            assert forall|a: int| 0 <= a < ids@.len() implies exists|e: RevlogEntry|
                #[trigger] table.contains(e) && wanted(e) && e.cid == #[trigger] ids@[a] by {
                let k: int = choose|k: int|
                    0 <= k < i && (#[trigger] rows@[k]).cid == ids@[a];
                assert(rows@.contains(rows@[k]));
                assert(table.contains(rows@[k]));
            }
            assert forall|e: RevlogEntry| #[trigger]
                table.contains(e) && wanted(e) && e.cid.0 > after_cid.0 && !ids@.contains(
                    e.cid,
                ) implies {
                &&& ids@.len() == limit
                &&& limit > 0 ==> e.cid.0 > ids@.last().0
            } by {
                assert(rows@.contains(e));
                let k: int = choose|k: int| 0 <= k < rows@.len() && rows@[k] == e;
                assert(k >= i);
                if limit > 0 {
                    assert(ids@[ids@.len() - 1] == last);
                    assert(ids@.contains(last));
                }
            }
        }
    }
    ids
}

/// The review log, the cards, the decks and the scratch table of a search.
pub struct Storage {
    revlog: Vec<RevlogEntry>,
    cards: Vec<Card>,
    decks: HashMap<i64, Deck>,
    searched: Vec<CardId>,
    changes: u64,
}

impl Storage {
    /// The review log, in the order of the ids.
    pub closed spec fn revlog(&self) -> Seq<RevlogEntry> {
        self.revlog@
    }

    pub closed spec fn cards(&self) -> Seq<Card> {
        self.cards@
    }

    /// The decks by their ids.
    pub closed spec fn decks(&self) -> Map<i64, Deck> {
        self.decks@
    }

    /// The cards that the last search found.
    pub closed spec fn searched(&self) -> Seq<CardId> {
        self.searched@
    }

    /// The rows written since the storage was opened.
    pub closed spec fn changes(&self) -> u64 {
        self.changes
    }

    #[verifier::type_invariant]
    pub open spec fn wf(&self) -> bool {
        &&& ids_ascending(self.revlog())
        &&& card_ids_distinct(self.cards())
    }

    /// Empty tables.
    pub fn new() -> (storage: Storage)
        ensures
            storage.wf(),
            storage.revlog() == Seq::<RevlogEntry>::empty(),
            storage.cards() == Seq::<Card>::empty(),
            storage.decks() == Map::<i64, Deck>::empty(),
            storage.searched() == Seq::<CardId>::empty(),
            storage.changes() == 0,
    {
        Storage {
            revlog: Vec::new(),
            cards: Vec::new(),
            decks: HashMap::new(),
            searched: Vec::new(),
            changes: 0,
        }
    }

    pub fn changes_since_open(&self) -> (r: Result<u64, AnkiError>)
        ensures
            r == Ok::<u64, AnkiError>(self.changes()),
    {
        Ok(self.changes)
    }

    /// Adds the entry, if its id is not taken. If it is, and `uniquify` is true, adds it under
    /// the id past the last. Returns the id of the added entry.
    pub fn add_revlog_entry(&mut self, entry: &RevlogEntry, uniquify: bool) -> (r: Result<
        Option<RevlogId>,
        AnkiError,
    >)
        ensures
            match r {
                Ok(Some(id)) => {
                    &&& if has_id(old(self).revlog(), entry.id) {
                        uniquify && id.0 == old(self).revlog().last().id.0 + 1
                    } else {
                        id == entry.id
                    }
                    &&& !has_id(old(self).revlog(), id)
                    &&& same_entries(
                        final(self).revlog(),
                        old(self).revlog().push((RevlogEntry { id, ..*entry })),
                    )
                    &&& final(self).changes() == old(self).changes().wrapping_add(1)
                },
                Ok(None) => {
                    &&& has_id(old(self).revlog(), entry.id) && !uniquify
                    &&& *final(self) == *old(self)
                },
                Err(e) => {
                    &&& has_id(old(self).revlog(), entry.id) && uniquify
                    &&& old(self).revlog().last().id.0 == i64::MAX
                    &&& e == AnkiError::DbError
                    &&& *final(self) == *old(self)
                },
            },
            final(self).wf(),
            final(self).cards() == old(self).cards(),
            final(self).decks() == old(self).decks(),
            final(self).searched() == old(self).searched(),
    {
        proof {
            use_type_invariant(&*self);
        }
        let ghost table = self.revlog@;
        let mut id: RevlogId = entry.id;
        let mut at: usize = self.position_of(id);
        if at < self.revlog.len() && self.revlog[at].id.0 == id.0 {
            assert(table[at as int].id == id);
            if !uniquify {
                return Ok(None);
            }
            let last: i64 = self.revlog[self.revlog.len() - 1].id.0;
            if last == i64::MAX {
                return Err(AnkiError::DbError);
            }
            id = RevlogId(last + 1);
            at = self.revlog.len();
        }
        let added = RevlogEntry { id, ..*entry };
        let mut rows: Vec<RevlogEntry> = Vec::new();
        std::mem::swap(&mut rows, &mut self.revlog);
        rows.insert(at, added);
        proof {
            assert forall|e: RevlogEntry| #[trigger] rows@.contains(e) <==> table.push(added).contains(e) by {
                let pushed = table.push(added);
                if rows@.contains(e) {
                    let k: int = choose|k: int| 0 <= k < rows@.len() && rows@[k] == e;
                    if k < at {
                        assert(pushed[k] == e);
                    } else if k == at {
                        assert(pushed[table.len() as int] == e);
                    } else {
                        assert(pushed[k - 1] == e);
                    }
                }
                if pushed.contains(e) {
                    let k: int = choose|k: int| 0 <= k < pushed.len() && pushed[k] == e;
                    if k == table.len() {
                        assert(rows@[at as int] == e);
                    } else if k < at {
                        assert(rows@[k] == e);
                    } else {
                        assert(rows@[k + 1] == e);
                    }
                }
            }
        }
        self.revlog = rows;
        self.changes = self.changes.wrapping_add(1);
        Ok(Some(id))
    }

    /// The number of rows whose id is less than `id`.
    fn position_of(&self, id: RevlogId) -> (at: usize)
        requires
            self.wf(),
        ensures
            at <= self.revlog().len(),
            forall|i: int| 0 <= i < at ==> (#[trigger] self.revlog()[i]).id.0 < id.0,
            forall|i: int| at <= i < self.revlog().len() ==> (#[trigger] self.revlog()[i]).id.0 >= id.0,
    {
        let mut lo: usize = 0;
        let mut hi: usize = self.revlog.len();
        while lo < hi
            invariant
                self.wf(),
                lo <= hi <= self.revlog@.len(),
                forall|i: int| 0 <= i < lo ==> (#[trigger] self.revlog@[i]).id.0 < id.0,
                forall|i: int| hi <= i < self.revlog@.len() ==> (#[trigger] self.revlog@[i]).id.0 >= id.0,
            decreases hi - lo,
        {
            let mid: usize = lo + (hi - lo) / 2;
            if self.revlog[mid].id.0 < id.0 {
                lo = mid + 1;
            } else {
                hi = mid;
            }
        }
        lo
    }

    /// The entries made since `after`, in the order of their ids.
    pub fn get_all_revlog_entries(&self, after: TimestampSecs) -> (r: Result<
        Vec<RevlogEntry>,
        AnkiError,
    >)
        ensures
            r matches Ok(entries) && entries@ == self.revlog().filter(since(after)),
    {
        let mut out: Vec<RevlogEntry> = Vec::new();
        let mut i: usize = 0;
        let ghost wanted = since(after);
        proof {
            reveal(Seq::filter);
            assert(self.revlog@.take(0).filter(wanted) =~= out@);
        }
        while i < self.revlog.len()
            invariant
                i <= self.revlog@.len(),
                wanted == since(after),
                out@ == self.revlog@.take(i as int).filter(wanted),
            decreases self.revlog@.len() - i,
        {
            proof {
                reveal(Seq::filter);
                assert(self.revlog@.take(i + 1).drop_last() =~= self.revlog@.take(i as int));
            }
            if is_since(&self.revlog[i], after) {
                out.push(self.revlog[i]);
            }
            i = i + 1;
        }
        assert(self.revlog@.take(i as int) =~= self.revlog@);
        Ok(out)
    }

    /// The entries of `cards` made since `after`, in the order of their ids.
    fn entries_of_cards(&self, cards: &[CardId], after: TimestampSecs) -> (out: Vec<RevlogEntry>)
        ensures
            out@ == self.revlog().filter(of_cards_since(cards@, after)),
    {
        let numbers = card_numbers(cards);
        let mut out: Vec<RevlogEntry> = Vec::new();
        let mut i: usize = 0;
        let ghost wanted = of_cards_since(cards@, after);
        proof {
            reveal(Seq::filter);
            assert(self.revlog@.take(0).filter(wanted) =~= out@);
        }
        while i < self.revlog.len()
            invariant
                i <= self.revlog@.len(),
                wanted == of_cards_since(cards@, after),
                forall|n: i64| #[trigger] numbers@.contains(n) <==> cards@.contains(CardId(n)),
                out@ == self.revlog@.take(i as int).filter(wanted),
            decreases self.revlog@.len() - i,
        {
            proof {
                reveal(Seq::filter);
                assert(self.revlog@.take(i + 1).drop_last() =~= self.revlog@.take(i as int));
                let cid = self.revlog@[i as int].cid;
                assert(numbers@.contains(cid.0) <==> cards@.contains(CardId(cid.0)));
                assert(CardId(cid.0) == cid);
            }
            if is_since(&self.revlog[i], after) && numbers.contains(&self.revlog[i].cid.0) {
                out.push(self.revlog[i]);
            }
            i = i + 1;
        }
        assert(self.revlog@.take(i as int) =~= self.revlog@);
        out
    }

    /// The entries of the searched cards made since `after`, in the order of their ids.
    pub fn get_revlog_entries_for_searched_cards_after_stamp(&self, after: TimestampSecs) -> (r:
        Result<Vec<RevlogEntry>, AnkiError>)
        ensures
            r matches Ok(entries) && entries@ == self.revlog().filter(
                of_cards_since(self.searched(), after),
            ),
    {
        Ok(self.entries_of_cards(self.searched.as_slice(), after))
    }

    /// The entries made since `after`, in card order.
    pub fn get_all_revlog_entries_in_card_order_after_stamp(&self, after: TimestampSecs) -> (r:
        Result<Vec<RevlogEntry>, AnkiError>)
        ensures
            r matches Ok(entries) && lists_in_card_order(
                entries@,
                self.revlog(),
                since(after),
            ),
    {
        let rows = self.get_all_revlog_entries(after)?;
        proof {
            use_type_invariant(self);
            lemma_filter_ascending(self.revlog@, since(after));
        }
        Ok(sort_by_card(&rows))
    }

    /// The entries of `cards` made since `after`, in card order.
    pub fn get_revlog_entries_for_card_ids_in_card_order_after_stamp(
        &self,
        cards: &[CardId],
        after: TimestampSecs,
    ) -> (r: Result<Vec<RevlogEntry>, AnkiError>)
        ensures
            r matches Ok(entries) && lists_in_card_order(
                entries@,
                self.revlog(),
                of_cards_since(cards@, after),
            ),
    {
        let rows = self.entries_of_cards(cards, after);
        proof {
            use_type_invariant(self);
            lemma_filter_ascending(self.revlog@, of_cards_since(cards@, after));
        }
        Ok(sort_by_card(&rows))
    }

    /// The entries of the searched cards made since `after`, in card order.
    pub fn get_revlog_entries_for_searched_cards_in_card_order_after_stamp(
        &self,
        after: TimestampSecs,
    ) -> (r: Result<Vec<RevlogEntry>, AnkiError>)
        ensures
            r matches Ok(entries) && lists_in_card_order(
                entries@,
                self.revlog(),
                of_cards_since(self.searched(), after),
            ),
    {
        self.get_revlog_entries_for_card_ids_in_card_order_after_stamp(
            self.searched.as_slice(),
            after,
        )
    }

    /// The first `limit` cards past `after_cid` with an entry made since `after`.
    pub fn get_all_revlog_card_ids_after_stamp_chunk(
        &self,
        after: TimestampSecs,
        after_cid: CardId,
        limit: usize,
    ) -> (r: Result<Vec<CardId>, AnkiError>)
        ensures
            r matches Ok(ids) && next_cards(
                ids@,
                self.revlog(),
                since(after),
                after_cid,
                limit as nat,
            ),
    {
        let rows = self.get_all_revlog_entries_in_card_order_after_stamp(after)?;
        Ok(first_cards(&rows, after_cid, limit))
    }

    /// The first `limit` searched cards past `after_cid` with an entry made since `after`.
    pub fn get_searched_revlog_card_ids_after_stamp_chunk(
        &self,
        after: TimestampSecs,
        after_cid: CardId,
        limit: usize,
    ) -> (r: Result<Vec<CardId>, AnkiError>)
        ensures
            r matches Ok(ids) && next_cards(
                ids@,
                self.revlog(),
                of_cards_since(self.searched(), after),
                after_cid,
                limit as nat,
            ),
    {
        let rows = self.get_revlog_entries_for_searched_cards_in_card_order_after_stamp(after)?;
        Ok(first_cards(&rows, after_cid, limit))
    }

    /// Makes `cards` the cards of the current search.
    pub fn set_search_table_to_card_ids(&mut self, cards: &[CardId]) -> (r: Result<(), AnkiError>)
        ensures
            r is Ok,
            final(self).wf(),
            final(self).searched() == cards@,
            final(self).revlog() == old(self).revlog(),
            final(self).cards() == old(self).cards(),
            final(self).decks() == old(self).decks(),
            final(self).changes() == old(self).changes(),
    {
        proof {
            use_type_invariant(&*self);
        }
        let mut searched: Vec<CardId> = Vec::new();
        let mut i: usize = 0;
        while i < cards.len()
            invariant
                i <= cards@.len(),
                searched@ == cards@.take(i as int),
            decreases cards@.len() - i,
        {
            searched.push(cards[i]);
            i = i + 1;
            assert(cards@.take(i as int) =~= searched@);
        }
        assert(cards@.take(i as int) =~= cards@);
        self.searched = searched;
        Ok(())
    }

    /// Ends the current search.
    pub fn clear_searched_cards_table(&mut self) -> (r: Result<(), AnkiError>)
        ensures
            r is Ok,
            final(self).wf(),
            final(self).searched() == Seq::<CardId>::empty(),
            final(self).revlog() == old(self).revlog(),
            final(self).cards() == old(self).cards(),
            final(self).decks() == old(self).decks(),
            final(self).changes() == old(self).changes(),
    {
        proof {
            use_type_invariant(&*self);
        }
        self.searched = Vec::new();
        Ok(())
    }

    /// The rows of the searched cards.
    pub fn all_searched_cards(&self) -> (r: Result<Vec<Card>, AnkiError>)
        ensures
            r matches Ok(cards) && cards@ == self.cards().filter(
                |card: Card| self.searched().contains(card.id),
            ),
    {
        let numbers = card_numbers(self.searched.as_slice());
        let ghost wanted = |card: Card| self.searched().contains(card.id);
        let mut out: Vec<Card> = Vec::new();
        let mut i: usize = 0;
        proof {
            reveal(Seq::filter);
            assert(self.cards@.take(0).filter(wanted) =~= out@);
        }
        while i < self.cards.len()
            invariant
                i <= self.cards@.len(),
                wanted == |card: Card| self.searched().contains(card.id),
                forall|n: i64| #[trigger] numbers@.contains(n) <==> self.searched().contains(CardId(n)),
                out@ == self.cards@.take(i as int).filter(wanted),
            decreases self.cards@.len() - i,
        {
            proof {
                reveal(Seq::filter);
                assert(self.cards@.take(i + 1).drop_last() =~= self.cards@.take(i as int));
                let id = self.cards@[i as int].id;
                assert(numbers@.contains(id.0) <==> self.searched().contains(CardId(id.0)));
                assert(CardId(id.0) == id);
            }
            if numbers.contains(&self.cards[i].id.0) {
                out.push(self.cards[i]);
            }
            i = i + 1;
        }
        assert(self.cards@.take(i as int) =~= self.cards@);
        Ok(out)
    }

    /// Writes the row of a card, in place of the one with its id if there is one.
    pub fn add_or_update_card(&mut self, card: &Card) -> (r: Result<(), AnkiError>)
        ensures
            r is Ok,
            final(self).wf(),
            forall|i: int|
                0 <= i < old(self).cards().len() && (#[trigger] old(self).cards()[i]).id == card.id
                    ==> final(self).cards() == old(self).cards().update(i, *card),
            (forall|i: int|
                0 <= i < old(self).cards().len() ==> (#[trigger] old(self).cards()[i]).id
                    != card.id) ==> final(self).cards() == old(self).cards().push(*card),
            final(self).changes() == old(self).changes().wrapping_add(1),
            final(self).revlog() == old(self).revlog(),
            final(self).decks() == old(self).decks(),
            final(self).searched() == old(self).searched(),
    {
        proof {
            use_type_invariant(&*self);
        }
        let ghost before = self.cards@;
        let mut at: usize = 0;
        while at < self.cards.len() && self.cards[at].id.0 != card.id.0
            invariant
                self.cards@ == before,
                at <= before.len(),
                forall|i: int| 0 <= i < at ==> (#[trigger] before[i]).id != card.id,
            decreases before.len() - at,
        {
            at = at + 1;
        }
        let mut rows: Vec<Card> = Vec::new();
        std::mem::swap(&mut rows, &mut self.cards);
        if at < rows.len() {
            rows.set(at, *card);
        } else {
            rows.push(*card);
        }
        self.cards = rows;
        self.changes = self.changes.wrapping_add(1);
        Ok(())
    }

    /// Writes the row of a deck, in place of the one with its id if there is one.
    pub fn add_or_update_deck(&mut self, deck: &Deck) -> (r: Result<(), AnkiError>)
        ensures
            r is Ok,
            final(self).wf(),
            final(self).decks() == old(self).decks().insert(deck.id.0, *deck),
            final(self).changes() == old(self).changes().wrapping_add(1),
            final(self).revlog() == old(self).revlog(),
            final(self).cards() == old(self).cards(),
            final(self).searched() == old(self).searched(),
    {
        proof {
            use_type_invariant(&*self);
        }
        let mut rows: HashMap<i64, Deck> = HashMap::new();
        std::mem::swap(&mut rows, &mut self.decks);
        rows.insert(deck.id.0, *deck);
        self.decks = rows;
        self.changes = self.changes.wrapping_add(1);
        Ok(())
    }

    pub fn get_decks_map(&self) -> (r: Result<&HashMap<i64, Deck>, AnkiError>)
        ensures
            r matches Ok(decks) && decks@ == self.decks(),
    {
        Ok(&self.decks)
    }
}

} // verus!
