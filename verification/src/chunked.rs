//! Reading the review log in card order, a limited number of cards at a time.
//!
//! A pass asks for the next cards, reads their entries, and goes on past the last of them,
//! until no card is left. Between two chunks the collection may change. A pass that sees such
//! a change is given up, and what it read is dropped. After the last retry the log is read in
//! one go.

use crate::card::CardId;
use crate::collection::is_added;
use crate::collection::Collection;
use crate::error::AnkiError;
use crate::order::card_before;
use crate::order::lemma_card_order_unique;
use crate::order::lists_in_card_order;
use crate::revlog::RevlogEntry;
use crate::revlog::RevlogId;
use crate::storage::has_id;
use crate::storage::law_write_shows;
use crate::storage::made_since;
use crate::storage::next_cards;
use crate::storage::of_cards_since;
use crate::storage::since;
use crate::timestamp::TimestampSecs;
use vstd::prelude::*;

verus! {

/// The number of cards in a chunk.
pub const REVLOG_CHUNK_CARD_COUNT: usize = 4096;

/// How often a pass that saw a change is started anew.
pub const REVLOG_CHUNK_READ_RETRIES: usize = 2;

/// One chunk of a pass: the collection before and after each of its three steps, and what the
/// first two gave.
pub struct ChunkRound {
    pub start: Collection,
    pub after_cid: CardId,
    pub ids: Vec<CardId>,
    pub listed: Collection,
    pub entries: Vec<RevlogEntry>,
    pub fetched: Collection,
    pub end: Collection,
}

/// How far a read has come.
pub struct ReadState {
    pub col: Collection,
    /// How many passes have been given up.
    pub given_up: nat,
    /// The number of changes when the pass started.
    pub stamp: u64,
    /// The last card of the pass so far.
    pub after_cid: CardId,
    /// What the pass has read.
    pub out: Seq<RevlogEntry>,
}

/// The start of a pass.
pub open spec fn pass_start(col: Collection, given_up: nat) -> ReadState {
    ReadState {
        col,
        given_up,
        stamp: col.storage.changes(),
        after_cid: CardId(0),
        out: Seq::empty(),
    }
}

/// The read after one more chunk: further in its pass, or, where the chunk left the collection
/// changed, at the start of another pass.
pub open spec fn after_round(s: ReadState, r: ChunkRound) -> ReadState {
    if r.end.storage.changes() == s.stamp {
        ReadState {
            col: r.end,
            given_up: s.given_up,
            stamp: s.stamp,
            after_cid: r.ids@.last(),
            out: s.out + r.entries@,
        }
    } else {
        pass_start(r.end, s.given_up + 1)
    }
}

/// The read after the given chunks.
pub open spec fn after_rounds(start: Collection, rounds: Seq<ChunkRound>) -> ReadState
    decreases rounds.len(),
{
    if rounds.len() == 0 {
        pass_start(start, 0)
    } else {
        after_round(after_rounds(start, rounds.drop_last()), rounds.last())
    }
}

/// Each chunk starts where the ones before it led, in a pass that may still be made, and has
/// at least one card.
pub open spec fn follow_on(start: Collection, rounds: Seq<ChunkRound>) -> bool {
    forall|k: int|
        0 <= k < rounds.len() ==> {
            let s = after_rounds(start, rounds.take(k));
            let r = #[trigger] rounds[k];
            &&& s.given_up <= REVLOG_CHUNK_READ_RETRIES
            &&& r.start == s.col
            &&& r.after_cid == s.after_cid
            &&& r.ids@.len() > 0
        }
}

/// Accepts what `wanted` accepts of the cards with an id from 1 on. A pass starts past card 0.
pub open spec fn of_numbered_cards(wanted: spec_fn(RevlogEntry) -> bool) -> spec_fn(
    RevlogEntry,
) -> bool {
    |e: RevlogEntry| wanted(e) && e.cid.0 > 0
}

/// Accepts what `wanted` accepts of the cards from 1 to `last`.
pub open spec fn up_to(wanted: spec_fn(RevlogEntry) -> bool, last: CardId) -> spec_fn(
    RevlogEntry,
) -> bool {
    |e: RevlogEntry| wanted(e) && 0 < e.cid.0 <= last.0
}

/// Accepts the entries made since `after`: those of the searched cards, or all.
pub open spec fn wanted_in(col: Collection, searched_only: bool, after: TimestampSecs) -> spec_fn(
    RevlogEntry,
) -> bool {
    if searched_only {
        of_cards_since(col.storage.searched(), after)
    } else {
        since(after)
    }
}

/// Every chunk gave the next wanted cards of the collection and their entries, and wrote
/// nothing while it did. What came after it may have written, which then shows in the number
/// of changes.
pub open spec fn all_faithful(
    rounds: Seq<ChunkRound>,
    searched_only: bool,
    after: TimestampSecs,
) -> bool {
    forall|k: int|
        0 <= k < rounds.len() ==> {
            let r = #[trigger] rounds[k];
            let table = r.start.storage.revlog();
            &&& r.listed == r.start
            &&& r.fetched == r.start
            &&& r.end.storage.changes() == r.start.storage.changes() ==> {
                &&& r.end.storage.revlog() == r.start.storage.revlog()
                &&& r.end.storage.searched() == r.start.storage.searched()
            }
            &&& next_cards(
                r.ids@,
                table,
                wanted_in(r.start, searched_only, after),
                r.after_cid,
                REVLOG_CHUNK_CARD_COUNT as nat,
            )
            &&& lists_in_card_order(r.entries@, table, of_cards_since(r.ids@, after))
        }
}

/// What the cards up to `last` have, and what the next cards have, is what the cards up to the
/// last of these have.
proof fn lemma_faithful_step(
    col: Collection,
    searched_only: bool,
    after: TimestampSecs,
    out: Seq<RevlogEntry>,
    last: CardId,
    ids: Seq<CardId>,
    entries: Seq<RevlogEntry>,
)
    requires
        lists_in_card_order(
            out,
            col.storage.revlog(),
            up_to(wanted_in(col, searched_only, after), last),
        ),
        last.0 >= 0,
        next_cards(
            ids,
            col.storage.revlog(),
            wanted_in(col, searched_only, after),
            last,
            REVLOG_CHUNK_CARD_COUNT as nat,
        ),
        ids.len() > 0,
        lists_in_card_order(entries, col.storage.revlog(), of_cards_since(ids, after)),
    ensures
        ids.last().0 > last.0,
        lists_in_card_order(
            out + entries,
            col.storage.revlog(),
            up_to(wanted_in(col, searched_only, after), ids.last()),
        ),
{
    let table = col.storage.revlog();
    let wanted = wanted_in(col, searched_only, after);
    let longer = out + entries;
    let m: int = out.len() as int;
    assert(ids[ids.len() - 1] == ids.last());
    assert forall|e: RevlogEntry| #[trigger] entries.contains(e) implies e.cid.0 > last.0
        && e.cid.0 <= ids.last().0 by {
        assert(of_cards_since(ids, after)(e));
        let x: int = choose|x: int| 0 <= x < ids.len() && ids[x] == e.cid;
        assert(ids[x].0 > last.0);
    }
    assert forall|i: int, j: int| 0 <= i < j < longer.len() implies card_before(
        #[trigger] longer[i],
        #[trigger] longer[j],
    ) by {
        if j < m {
            assert(card_before(out[i], out[j]));
        } else if i >= m {
            assert(card_before(entries[i - m], entries[j - m]));
        } else {
            assert(out.contains(out[i]));
            assert(up_to(wanted, last)(out[i]));
            assert(entries.contains(entries[j - m]));
        }
    }
    assert forall|e: RevlogEntry| #[trigger]
        longer.contains(e) <==> table.contains(e) && up_to(wanted, ids.last())(e) by {
        assert(out.contains(e) <==> table.contains(e) && up_to(wanted, last)(e));
        assert(entries.contains(e) <==> table.contains(e) && of_cards_since(ids, after)(e));
        if longer.contains(e) {
            let k: int = choose|k: int| 0 <= k < longer.len() && longer[k] == e;
            if k < m {
                assert(out[k] == e);
            } else {
                assert(entries[k - m] == e);
                let x: int = choose|x: int| 0 <= x < ids.len() && ids[x] == e.cid;
                let d = choose|d: RevlogEntry| #[trigger]
                    table.contains(d) && wanted(d) && d.cid == ids[x];
                assert(wanted(e));
            }
        }
        if out.contains(e) {
            let k: int = choose|k: int| 0 <= k < m && out[k] == e;
            assert(longer[k] == e);
        }
        if entries.contains(e) {
            let k: int = choose|k: int| 0 <= k < entries.len() && entries[k] == e;
            assert(longer[m + k] == e);
        }
    }
}

/// The chunks but the last follow on too, and the last starts where they led.
proof fn lemma_follow_on_fewer(start: Collection, rounds: Seq<ChunkRound>)
    requires
        follow_on(start, rounds),
        rounds.len() > 0,
    ensures
        follow_on(start, rounds.drop_last()),
        ({
            let s = after_rounds(start, rounds.drop_last());
            let r = rounds.last();
            &&& s.given_up <= REVLOG_CHUNK_READ_RETRIES
            &&& r.start == s.col
            &&& r.after_cid == s.after_cid
            &&& r.ids@.len() > 0
        }),
{
    let fewer = rounds.drop_last();
    assert forall|k: int| 0 <= k < fewer.len() implies {
        let s = after_rounds(start, fewer.take(k));
        let r = #[trigger] fewer[k];
        &&& s.given_up <= REVLOG_CHUNK_READ_RETRIES
        &&& r.start == s.col
        &&& r.after_cid == s.after_cid
        &&& r.ids@.len() > 0
    } by {
        assert(fewer.take(k) =~= rounds.take(k));
        assert(fewer[k] == rounds[k]);
    }
    assert(fewer =~= rounds.take(rounds.len() - 1));
    assert(rounds[rounds.len() - 1] == rounds.last());
}

/// What a pass has read is what the cards it has passed have in the log as it is now.
pub proof fn law_pass_is_up_to_date(
    start: Collection,
    rounds: Seq<ChunkRound>,
    searched_only: bool,
    after: TimestampSecs,
)
    requires
        follow_on(start, rounds),
        all_faithful(rounds, searched_only, after),
    ensures
        ({
            let s = after_rounds(start, rounds);
            &&& s.stamp == s.col.storage.changes()
            &&& s.after_cid.0 >= 0
            &&& lists_in_card_order(
                s.out,
                s.col.storage.revlog(),
                up_to(wanted_in(s.col, searched_only, after), s.after_cid),
            )
        }),
    decreases rounds.len(),
{
    let now = after_rounds(start, rounds);
    if now.out.len() == 0 && now.after_cid == CardId(0) {
        assert forall|e: RevlogEntry| #[trigger]
            now.out.contains(e) <==> now.col.storage.revlog().contains(e) && up_to(
                wanted_in(now.col, searched_only, after),
                CardId(0),
            )(e) by {}
    }
    if rounds.len() > 0 {
        let fewer = rounds.drop_last();
        lemma_follow_on_fewer(start, rounds);
        assert forall|k: int| 0 <= k < fewer.len() implies #[trigger] fewer[k] == rounds[k] by {}
        assert(all_faithful(fewer, searched_only, after));
        assert(rounds[rounds.len() - 1] == rounds.last());
        law_pass_is_up_to_date(start, fewer, searched_only, after);
        let r = rounds.last();
        let s = after_rounds(start, fewer);
        lemma_faithful_step(s.col, searched_only, after, s.out, s.after_cid, r.ids@, r.entries@);
        assert(now == after_round(s, r));
    }
}

/// A pass that finds no further card has read the log as it is at the end, whatever was
/// written while earlier passes were made.
pub proof fn law_read_is_up_to_date(
    start: Collection,
    rounds: Seq<ChunkRound>,
    searched_only: bool,
    after: TimestampSecs,
    none: Seq<CardId>,
)
    requires
        follow_on(start, rounds),
        all_faithful(rounds, searched_only, after),
        none.len() == 0,
        ({
            let s = after_rounds(start, rounds);
            next_cards(
                none,
                s.col.storage.revlog(),
                wanted_in(s.col, searched_only, after),
                s.after_cid,
                REVLOG_CHUNK_CARD_COUNT as nat,
            )
        }),
    ensures
        ({
            let s = after_rounds(start, rounds);
            lists_in_card_order(
                s.out,
                s.col.storage.revlog(),
                of_numbered_cards(wanted_in(s.col, searched_only, after)),
            )
        }),
{
    law_pass_is_up_to_date(start, rounds, searched_only, after);
    let s = after_rounds(start, rounds);
    let table = s.col.storage.revlog();
    let wanted = wanted_in(s.col, searched_only, after);
    assert forall|e: RevlogEntry| #[trigger]
        s.out.contains(e) <==> table.contains(e) && of_numbered_cards(wanted)(e) by {
        assert(s.out.contains(e) <==> table.contains(e) && up_to(wanted, s.after_cid)(e));
    }
}

/// A chunk after which the collection has changed makes the pass start anew, with nothing read.
pub proof fn law_restarts_after_write(start: Collection, rounds: Seq<ChunkRound>, r: ChunkRound)
    requires
        r.end.storage.changes() != after_rounds(start, rounds).stamp,
    ensures
        after_rounds(start, rounds.push(r)) == pass_start(
            r.end,
            after_rounds(start, rounds).given_up + 1,
        ),
{
    assert(rounds.push(r).drop_last() =~= rounds);
}

/// A read makes at most one pass more than there are retries, and what a pass has read comes
/// from chunks in a row that all left the number of changes as it was at the start of the pass.
pub proof fn law_one_pass(start: Collection, rounds: Seq<ChunkRound>)
    requires
        follow_on(start, rounds),
    ensures
        after_rounds(start, rounds).given_up <= REVLOG_CHUNK_READ_RETRIES + 1,
        is_pass_from(start, rounds, first_of_pass(start, rounds)),
    decreases rounds.len(),
{
    if rounds.len() > 0 {
        lemma_follow_on_fewer(start, rounds);
        law_one_pass(start, rounds.drop_last());
        lemma_pass_goes_on(start, rounds);
    } else {
        assert(rounds.skip(0) =~= rounds);
    }
}

proof fn lemma_pass_goes_on(start: Collection, rounds: Seq<ChunkRound>)
    requires
        rounds.len() > 0,
        is_pass_from(start, rounds.drop_last(), first_of_pass(start, rounds.drop_last())),
    ensures
        is_pass_from(start, rounds, first_of_pass(start, rounds)),
{
    let fewer = rounds.drop_last();
    let s = after_rounds(start, fewer);
    let r = rounds.last();
    let from: int = first_of_pass(start, rounds);
    let pass = rounds.skip(from);
    assert(rounds[rounds.len() - 1] == r);
    if r.end.storage.changes() == s.stamp {
        assert(pass.drop_last() =~= fewer.skip(from));
        assert(pass.last() == r);
        assert forall|k: int| from <= k < rounds.len() implies (
        #[trigger] rounds[k]).end.storage.changes() == s.stamp by {
            if k < fewer.len() {
                assert(fewer[k] == rounds[k]);
            }
        }
        if from > 0 {
            assert(fewer[from - 1] == rounds[from - 1]);
        }
    } else {
        assert(pass =~= Seq::<ChunkRound>::empty());
    }
}

/// The number of the chunk with which the current pass started.
pub open spec fn first_of_pass(start: Collection, rounds: Seq<ChunkRound>) -> int
    decreases rounds.len(),
{
    if rounds.len() == 0 {
        0
    } else if rounds.last().end.storage.changes() == after_rounds(start, rounds.drop_last()).stamp {
        first_of_pass(start, rounds.drop_last())
    } else {
        rounds.len() as int
    }
}

/// The entries of the chunks, one after the other.
pub open spec fn entries_of(rounds: Seq<ChunkRound>) -> Seq<RevlogEntry>
    decreases rounds.len(),
{
    if rounds.len() == 0 {
        Seq::empty()
    } else {
        entries_of(rounds.drop_last()) + rounds.last().entries@
    }
}

/// The current pass started with chunk `from`: what it has read is the entries of the chunks
/// from there on, after each of which the number of changes is that at the start of the pass.
pub open spec fn is_pass_from(start: Collection, rounds: Seq<ChunkRound>, from: int) -> bool {
    let s = after_rounds(start, rounds);
    &&& 0 <= from <= rounds.len()
    &&& s.out == entries_of(rounds.skip(from))
    &&& s.stamp == if from == 0 {
        start.storage.changes()
    } else {
        rounds[from - 1].end.storage.changes()
    }
    &&& forall|k: int|
        from <= k < rounds.len() ==> (#[trigger] rounds[k]).end.storage.changes() == s.stamp
}

/// Read in chunks or in one go, the log is the same, where every card has an id from 1 on.
pub proof fn law_chunked_matches_single_pass(
    table: Seq<RevlogEntry>,
    wanted: spec_fn(RevlogEntry) -> bool,
    chunked: Seq<RevlogEntry>,
    single: Seq<RevlogEntry>,
)
    requires
        lists_in_card_order(chunked, table, of_numbered_cards(wanted)),
        lists_in_card_order(single, table, wanted),
        forall|e: RevlogEntry| #[trigger] table.contains(e) && wanted(e) ==> e.cid.0 > 0,
    ensures
        chunked == single,
{
    assert forall|e: RevlogEntry| #[trigger] chunked.contains(e) <==> single.contains(e) by {
        assert(chunked.contains(e) <==> table.contains(e) && of_numbered_cards(wanted)(e));
        assert(single.contains(e) <==> table.contains(e) && wanted(e));
    }
    lemma_card_order_unique(chunked, single);
}

/// An added entry is read in chunks, next to what was read before and nothing else, where it is
/// of a searched card or all are read; and the number of changes shows that it was added.
pub proof fn law_read_gives_back_write(
    before: Collection,
    after: Collection,
    entry: RevlogEntry,
    id: RevlogId,
    searched_only: bool,
    stamp: TimestampSecs,
    read_before: Seq<RevlogEntry>,
    read_after: Seq<RevlogEntry>,
)
    requires
        is_added(before, after, entry, id),
        entry.cid.0 > 0,
        made_since((RevlogEntry { id, ..entry }), stamp),
        searched_only ==> before.storage.searched().contains(entry.cid),
        lists_in_card_order(
            read_before,
            before.storage.revlog(),
            of_numbered_cards(wanted_in(before, searched_only, stamp)),
        ),
        lists_in_card_order(
            read_after,
            after.storage.revlog(),
            of_numbered_cards(wanted_in(after, searched_only, stamp)),
        ),
    ensures
        ({
            let added = RevlogEntry { id, ..entry };
            &&& read_after.contains(added)
            &&& !read_before.contains(added)
            &&& read_after.len() == read_before.len() + 1
            &&& read_after.remove(read_after.index_of(added)) == read_before
        }),
        after.storage.changes() != before.storage.changes(),
{
    let added = RevlogEntry { id, ..entry };
    let wanted = of_numbered_cards(wanted_in(before, searched_only, stamp));
    let table = before.storage.revlog();
    let pushed = table.push(added);
    assert(pushed[table.len() as int] == added);
    assert(after.storage.revlog().contains(added));
    assert(read_after.contains(added));
    assert(!read_before.contains(added)) by {
        if read_before.contains(added) {
            assert(table.contains(added));
            let i: int = choose|i: int| 0 <= i < table.len() && table[i] == added;
            assert(has_id(table, id));
        }
    }
    let at: int = read_after.index_of(added);
    let rest = read_after.remove(at);
    assert forall|i: int, j: int| 0 <= i < j < rest.len() implies card_before(
        #[trigger] rest[i],
        #[trigger] rest[j],
    ) by {
        let x: int = if i < at { i } else { i + 1 };
        let y: int = if j < at { j } else { j + 1 };
        assert(card_before(read_after[x], read_after[y]));
    }
    assert forall|e: RevlogEntry| #[trigger] rest.contains(e) <==> read_before.contains(e) by {
        assert(read_before.contains(e) <==> table.contains(e) && wanted(e));
        assert(read_after.contains(e) <==> after.storage.revlog().contains(e) && wanted(e));
        assert(after.storage.revlog().contains(e) <==> pushed.contains(e));
        if rest.contains(e) {
            let k: int = choose|k: int| 0 <= k < rest.len() && rest[k] == e;
            let x: int = if k < at { k } else { k + 1 };
            assert(read_after[x] == e);
            if x < at {
                assert(card_before(read_after[x], read_after[at]));
            } else {
                assert(card_before(read_after[at], read_after[x]));
            }
            assert(e != added);
            let m: int = choose|m: int| 0 <= m < pushed.len() && pushed[m] == e;
            assert(table[m] == e);
        }
        if read_before.contains(e) {
            let m: int = choose|m: int| 0 <= m < table.len() && table[m] == e;
            assert(pushed[m] == e);
            let x: int = choose|x: int| 0 <= x < read_after.len() && read_after[x] == e;
            assert(x != at);
            if x < at {
                assert(rest[x] == e);
            } else {
                assert(rest[x - 1] == e);
            }
        }
    }
    lemma_card_order_unique(rest, read_before);
    law_write_shows(before.storage.changes());
}

/// Every chunk left the collection as it was, and gave the next wanted cards and their entries.
spec fn all_plain(rounds: Seq<ChunkRound>, searched_only: bool, after: TimestampSecs) -> bool {
    forall|k: int|
        0 <= k < rounds.len() ==> {
            let r = #[trigger] rounds[k];
            let table = r.start.storage.revlog();
            &&& r.listed == r.start
            &&& r.fetched == r.start
            &&& r.end == r.start
            &&& next_cards(
                r.ids@,
                table,
                wanted_in(r.start, searched_only, after),
                r.after_cid,
                REVLOG_CHUNK_CARD_COUNT as nat,
            )
            &&& lists_in_card_order(r.entries@, table, of_cards_since(r.ids@, after))
        }
}

/// A read of a collection that nothing changes gives up no pass.
proof fn lemma_undisturbed(
    start: Collection,
    rounds: Seq<ChunkRound>,
    searched_only: bool,
    after: TimestampSecs,
)
    requires
        follow_on(start, rounds),
        all_plain(rounds, searched_only, after),
    ensures
        after_rounds(start, rounds).col == start,
        after_rounds(start, rounds).given_up == 0,
        after_rounds(start, rounds).stamp == start.storage.changes(),
    decreases rounds.len(),
{
    if rounds.len() > 0 {
        let fewer = rounds.drop_last();
        lemma_follow_on_fewer(start, rounds);
        assert forall|k: int| 0 <= k < fewer.len() implies #[trigger] fewer[k] == rounds[k] by {}
        assert(all_plain(fewer, searched_only, after));
        lemma_undisturbed(start, fewer, searched_only, after);
        assert(rounds[rounds.len() - 1].end == rounds.last().start);
    }
}

/// What a read of a collection that nothing changes gives, whichever chunks it takes.
proof fn lemma_undisturbed_read(start: Collection, searched_only: bool, after: TimestampSecs)
    ensures
        forall|rounds: Seq<ChunkRound>| #[trigger]
            follow_on(start, rounds) && all_plain(rounds, searched_only, after) ==> {
                let s = after_rounds(start, rounds);
                &&& s.col == start
                &&& s.given_up == 0
                &&& forall|none: Seq<CardId>|
                    none.len() == 0 && #[trigger] next_cards(
                        none,
                        start.storage.revlog(),
                        wanted_in(start, searched_only, after),
                        s.after_cid,
                        REVLOG_CHUNK_CARD_COUNT as nat,
                    ) ==> lists_in_card_order(
                        s.out,
                        start.storage.revlog(),
                        of_numbered_cards(wanted_in(start, searched_only, after)),
                    )
            },
{
    let table = start.storage.revlog();
    let wanted = wanted_in(start, searched_only, after);
    assert forall|rounds: Seq<ChunkRound>| #[trigger]
        follow_on(start, rounds) && all_plain(rounds, searched_only, after) implies {
        let s = after_rounds(start, rounds);
        &&& s.col == start
        &&& s.given_up == 0
        &&& forall|none: Seq<CardId>|
            none.len() == 0 && #[trigger] next_cards(
                none,
                table,
                wanted,
                s.after_cid,
                REVLOG_CHUNK_CARD_COUNT as nat,
            ) ==> lists_in_card_order(s.out, table, of_numbered_cards(wanted))
    } by {
        lemma_undisturbed(start, rounds, searched_only, after);
        assert(all_faithful(rounds, searched_only, after));
        let s = after_rounds(start, rounds);
        assert forall|none: Seq<CardId>|
            none.len() == 0 && #[trigger] next_cards(
                none,
                table,
                wanted,
                s.after_cid,
                REVLOG_CHUNK_CARD_COUNT as nat,
            ) implies lists_in_card_order(s.out, table, of_numbered_cards(wanted)) by {
            law_read_is_up_to_date(start, rounds, searched_only, after, none);
        }
    }
}

impl Collection {
    /// Reads the log chunk by chunk through the given steps.
    ///
    /// `next_card_ids` is handed the last card so far and gives the cards that come next, none
    /// at the end. Those it gives lie past the one it was handed.
    pub fn revlog_entries_in_card_order_chunked<FCardIds, FEntries, FFallback, FAfterChunk>(
        &mut self,
        next_card_ids: FCardIds,
        entries_for_cards: FEntries,
        fallback: FFallback,
        after_chunk: FAfterChunk,
    ) -> (res: Result<Vec<RevlogEntry>, AnkiError>) where
        FCardIds: FnMut(&mut Collection, CardId, usize) -> Result<Vec<CardId>, AnkiError>,
        FEntries: FnMut(&mut Collection, &[CardId]) -> Result<Vec<RevlogEntry>, AnkiError>,
        FFallback: FnMut(&mut Collection) -> Result<Vec<RevlogEntry>, AnkiError>,
        FAfterChunk: FnMut(&mut Collection) -> Result<(), AnkiError>,

        requires
            forall|c: &mut Collection, cid: CardId|
                call_requires(next_card_ids, (c, cid, REVLOG_CHUNK_CARD_COUNT)),
            forall|c: &mut Collection, cid: CardId, ids: Vec<CardId>| #[trigger]
                call_ensures(next_card_ids, (c, cid, REVLOG_CHUNK_CARD_COUNT), Ok(ids))
                    && ids@.len() > 0 ==> ids@.last().0 > cid.0,
            forall|c: &mut Collection, ids: &[CardId]| call_requires(entries_for_cards, (c, ids)),
            forall|c: &mut Collection| call_requires(fallback, (c,)),
            forall|c: &mut Collection| call_requires(after_chunk, (c,)),
        ensures
            exists|rounds: Seq<ChunkRound>| {
                &&& #[trigger] follow_on(*old(self), rounds)
                &&& forall|k: int|
                    0 <= k < rounds.len() ==> {
                        let r = #[trigger] rounds[k];
                        &&& exists|c: &mut Collection, ids: Result<Vec<CardId>, AnkiError>|
                            *c == r.start && *final(c) == r.listed && ids == Ok::<
                                Vec<CardId>,
                                AnkiError,
                            >(r.ids) && #[trigger] call_ensures(
                                next_card_ids,
                                (c, r.after_cid, REVLOG_CHUNK_CARD_COUNT),
                                ids,
                            )
                        &&& exists|
                            c: &mut Collection,
                            ids: &[CardId],
                            entries: Result<Vec<RevlogEntry>, AnkiError>,
                        |
                            *c == r.listed && *final(c) == r.fetched && ids@ == r.ids@ && entries
                                == Ok::<Vec<RevlogEntry>, AnkiError>(r.entries)
                                && #[trigger] call_ensures(entries_for_cards, (c, ids), entries)
                        &&& exists|c: &mut Collection, done: Result<(), AnkiError>|
                            *c == r.fetched && *final(c) == r.end && done is Ok
                                && #[trigger] call_ensures(after_chunk, (c,), done)
                    }
                &&& {
                    let s = after_rounds(*old(self), rounds);
                    if s.given_up > REVLOG_CHUNK_READ_RETRIES {
                        exists|c: &mut Collection|
                            *c == s.col && *final(c) == *final(self) && #[trigger] call_ensures(
                                fallback,
                                (c,),
                                res,
                            )
                    } else {
                        match res {
                            Ok(out) => {
                                &&& out@ == s.out
                                &&& exists|c: &mut Collection, ids: Result<Vec<CardId>, AnkiError>|
                                    *c == s.col && *final(c) == *final(self) && #[trigger] call_ensures(
                                        next_card_ids,
                                        (c, s.after_cid, REVLOG_CHUNK_CARD_COUNT),
                                        ids,
                                    ) && (ids matches Ok(none) && none@.len() == 0)
                            },
                            Err(e) => {
                                ||| exists|c: &mut Collection, ids: Result<Vec<CardId>, AnkiError>|
                                    *c == s.col && *final(c) == *final(self) && ids == Err::<
                                        Vec<CardId>,
                                        AnkiError,
                                    >(e) && #[trigger] call_ensures(
                                        next_card_ids,
                                        (c, s.after_cid, REVLOG_CHUNK_CARD_COUNT),
                                        ids,
                                    )
                                ||| exists|
                                    c: &mut Collection,
                                    ids: Result<Vec<CardId>, AnkiError>,
                                    d: &mut Collection,
                                    list: &[CardId],
                                    entries: Result<Vec<RevlogEntry>, AnkiError>,
                                |
                                    *c == s.col && *final(c) == *d && *final(d) == *final(self)
                                        && #[trigger] call_ensures(
                                        next_card_ids,
                                        (c, s.after_cid, REVLOG_CHUNK_CARD_COUNT),
                                        ids,
                                    ) && (ids matches Ok(some) && some@.len() > 0 && list@ == some@)
                                        && entries == Err::<Vec<RevlogEntry>, AnkiError>(e)
                                        && #[trigger] call_ensures(entries_for_cards, (d, list), entries)
                                ||| exists|
                                    c: &mut Collection,
                                    ids: Result<Vec<CardId>, AnkiError>,
                                    d: &mut Collection,
                                    list: &[CardId],
                                    entries: Result<Vec<RevlogEntry>, AnkiError>,
                                    f: &mut Collection,
                                    done: Result<(), AnkiError>,
                                |
                                    *c == s.col && *final(c) == *d && *final(d) == *f && *final(f)
                                        == *final(self) && #[trigger] call_ensures(
                                        next_card_ids,
                                        (c, s.after_cid, REVLOG_CHUNK_CARD_COUNT),
                                        ids,
                                    ) && (ids matches Ok(some) && some@.len() > 0 && list@ == some@)
                                        && entries is Ok && #[trigger] call_ensures(
                                        entries_for_cards,
                                        (d, list),
                                        entries,
                                    ) && done == Err::<(), AnkiError>(e) && #[trigger] call_ensures(
                                        after_chunk,
                                        (f,),
                                        done,
                                    )
                            },
                        }
                    }
                }
            },
    {
        let ghost start = *self;
        let ghost mut rounds: Seq<ChunkRound> = Seq::empty();
        let mut list_cards = next_card_ids;
        let mut read_cards = entries_for_cards;
        let mut end_chunk = after_chunk;
        let mut read_all = fallback;
        let mut attempt: usize = 0;
        let mut stamp: u64 = match self.changes_since_open() {
            Ok(stamp) => stamp,
            Err(e) => {
                return Err(e);
            },
        };
        let mut out: Vec<RevlogEntry> = Vec::new();
        let mut after_cid: CardId = CardId(0);
        while attempt <= REVLOG_CHUNK_READ_RETRIES
            invariant
                attempt <= REVLOG_CHUNK_READ_RETRIES + 1,
                start == *old(self),
                list_cards == next_card_ids,
                read_cards == entries_for_cards,
                end_chunk == after_chunk,
                read_all == fallback,
                forall|c: &mut Collection, cid: CardId|
                    call_requires(next_card_ids, (c, cid, REVLOG_CHUNK_CARD_COUNT)),
                forall|c: &mut Collection, cid: CardId, ids: Vec<CardId>| #[trigger]
                    call_ensures(next_card_ids, (c, cid, REVLOG_CHUNK_CARD_COUNT), Ok(ids))
                        && ids@.len() > 0 ==> ids@.last().0 > cid.0,
                forall|c: &mut Collection, ids: &[CardId]|
                    call_requires(entries_for_cards, (c, ids)),
                forall|c: &mut Collection| call_requires(fallback, (c,)),
                forall|c: &mut Collection| call_requires(after_chunk, (c,)),
                follow_on(start, rounds),
                after_rounds(start, rounds) == (ReadState {
                    col: *self,
                    given_up: attempt as nat,
                    stamp,
                    after_cid,
                    out: out@,
                }),
                forall|k: int|
                    0 <= k < rounds.len() ==> {
                        let r = #[trigger] rounds[k];
                        &&& exists|c: &mut Collection, ids: Result<Vec<CardId>, AnkiError>|
                            *c == r.start && *final(c) == r.listed && ids == Ok::<
                                Vec<CardId>,
                                AnkiError,
                            >(r.ids) && #[trigger] call_ensures(
                                next_card_ids,
                                (c, r.after_cid, REVLOG_CHUNK_CARD_COUNT),
                                ids,
                            )
                        &&& exists|
                            c: &mut Collection,
                            ids: &[CardId],
                            entries: Result<Vec<RevlogEntry>, AnkiError>,
                        |
                            *c == r.listed && *final(c) == r.fetched && ids@ == r.ids@ && entries
                                == Ok::<Vec<RevlogEntry>, AnkiError>(r.entries)
                                && #[trigger] call_ensures(entries_for_cards, (c, ids), entries)
                        &&& exists|c: &mut Collection, done: Result<(), AnkiError>|
                            *c == r.fetched && *final(c) == r.end && done is Ok
                                && #[trigger] call_ensures(after_chunk, (c,), done)
                    },
            decreases REVLOG_CHUNK_READ_RETRIES + 1 - attempt, i64::MAX - after_cid.0,
        {
            let ghost before = *self;
            proof {
                let s = after_rounds(*old(self), rounds);
                assert(s.after_cid == after_cid && s.col == before);
            }
            let ids = match list_cards(self, after_cid, REVLOG_CHUNK_CARD_COUNT) {
                Ok(ids) => ids,
                Err(e) => {
                    return Err(e);
                },
            };
            if ids.is_empty() {
                return Ok(out);
            }
            let ghost listed = *self;
            let mut entries = match read_cards(self, ids.as_slice()) {
                Ok(entries) => entries,
                Err(e) => {
                    return Err(e);
                },
            };
            let ghost fetched = *self;
            let ghost read = entries;
            let last = ids[ids.len() - 1];
            match end_chunk(self) {
                Ok(()) => {},
                Err(e) => {
                    return Err(e);
                },
            }
            let changes: u64 = match self.changes_since_open() {
                Ok(changes) => changes,
                Err(e) => {
                    return Err(e);
                },
            };
            proof {
                let round = ChunkRound {
                    start: before,
                    after_cid,
                    ids,
                    listed,
                    entries: read,
                    fetched,
                    end: *self,
                };
                let longer = rounds.push(round);
                assert(longer.drop_last() =~= rounds);
                assert forall|k: int| 0 <= k < longer.len() implies {
                    let s = after_rounds(start, longer.take(k));
                    let r = #[trigger] longer[k];
                    &&& s.given_up <= REVLOG_CHUNK_READ_RETRIES
                    &&& r.start == s.col
                    &&& r.after_cid == s.after_cid
                    &&& r.ids@.len() > 0
                } by {
                    if k < rounds.len() {
                        assert(longer.take(k) =~= rounds.take(k));
                        assert(longer[k] == rounds[k]);
                    } else {
                        assert(longer.take(k) =~= rounds);
                    }
                }
                rounds = longer;
            }
            if changes == stamp {
                out.append(&mut entries);
                after_cid = last;
            } else {
                attempt = attempt + 1;
                stamp = changes;
                out = Vec::new();
                after_cid = CardId(0);
            }
        }
        read_all(self)
    }

    /// The entries made since `after`, in card order, read in chunks.
    pub fn all_revlog_entries_in_card_order_chunked(&mut self, after: TimestampSecs) -> (res:
        Result<Vec<RevlogEntry>, AnkiError>)
        ensures
            res matches Ok(entries) && lists_in_card_order(
                entries@,
                old(self).storage.revlog(),
                of_numbered_cards(since(after)),
            ),
            *final(self) == *old(self),
    {
        proof {
            lemma_undisturbed_read(*self, false, after);
        }
        let next_card_ids = |col: &mut Collection, after_cid: CardId, chunk_size: usize| -> (r:
            Result<Vec<CardId>, AnkiError>)
            ensures
                r matches Ok(ids) && next_cards(
                    ids@,
                    old(col).storage.revlog(),
                    since(after),
                    after_cid,
                    chunk_size as nat,
                ),
                *final(col) == *old(col),
            {
                col.storage.get_all_revlog_card_ids_after_stamp_chunk(after, after_cid, chunk_size)
            };
        let entries_for_cards = |col: &mut Collection, cids: &[CardId]| -> (r: Result<
            Vec<RevlogEntry>,
            AnkiError,
        >)
            ensures
                r matches Ok(entries) && lists_in_card_order(
                    entries@,
                    old(col).storage.revlog(),
                    of_cards_since(cids@, after),
                ),
                *final(col) == *old(col),
            {
                col.storage.get_revlog_entries_for_card_ids_in_card_order_after_stamp(cids, after)
            };
        let fallback = |col: &mut Collection| -> (r: Result<Vec<RevlogEntry>, AnkiError>)
            ensures
                *final(col) == *old(col),
            {
                col.storage.get_all_revlog_entries_in_card_order_after_stamp(after)
            };
        let after_chunk = |col: &mut Collection| -> (r: Result<(), AnkiError>)
            ensures
                r is Ok,
                *final(col) == *old(col),
            { Ok(()) };
        let res = self.revlog_entries_in_card_order_chunked(
            next_card_ids,
            entries_for_cards,
            fallback,
            after_chunk,
        );
        assert(wanted_in(*old(self), false, after) == since(after));
        assert(*self == *old(self));
        assert(res is Ok);
        assert(exists|rounds: Seq<ChunkRound>, none: Seq<CardId>|
            {
                &&& #[trigger] follow_on(*old(self), rounds)
                &&& all_plain(rounds, false, after)
                &&& (res->Ok_0)@ == after_rounds(*old(self), rounds).out
                &&& none.len() == 0
                &&& #[trigger] next_cards(
                    none,
                    old(self).storage.revlog(),
                    since(after),
                    after_rounds(*old(self), rounds).after_cid,
                    REVLOG_CHUNK_CARD_COUNT as nat,
                )
            });
        res
    }

    /// The entries of the searched cards made since `after`, in card order, read in chunks.
    pub fn searched_revlog_entries_in_card_order_chunked(&mut self, after: TimestampSecs) -> (res:
        Result<Vec<RevlogEntry>, AnkiError>)
        ensures
            res matches Ok(entries) && lists_in_card_order(
                entries@,
                old(self).storage.revlog(),
                of_numbered_cards(of_cards_since(old(self).storage.searched(), after)),
            ),
            *final(self) == *old(self),
    {
        proof {
            lemma_undisturbed_read(*self, true, after);
        }
        let next_card_ids = |col: &mut Collection, after_cid: CardId, chunk_size: usize| -> (r:
            Result<Vec<CardId>, AnkiError>)
            ensures
                r matches Ok(ids) && next_cards(
                    ids@,
                    old(col).storage.revlog(),
                    of_cards_since(old(col).storage.searched(), after),
                    after_cid,
                    chunk_size as nat,
                ),
                *final(col) == *old(col),
            {
                col.storage.get_searched_revlog_card_ids_after_stamp_chunk(
                    after,
                    after_cid,
                    chunk_size,
                )
            };
        let entries_for_cards = |col: &mut Collection, cids: &[CardId]| -> (r: Result<
            Vec<RevlogEntry>,
            AnkiError,
        >)
            ensures
                r matches Ok(entries) && lists_in_card_order(
                    entries@,
                    old(col).storage.revlog(),
                    of_cards_since(cids@, after),
                ),
                *final(col) == *old(col),
            {
                col.storage.get_revlog_entries_for_card_ids_in_card_order_after_stamp(cids, after)
            };
        let fallback = |col: &mut Collection| -> (r: Result<Vec<RevlogEntry>, AnkiError>)
            ensures
                *final(col) == *old(col),
            {
                col.storage.get_revlog_entries_for_searched_cards_in_card_order_after_stamp(after)
            };
        let after_chunk = |col: &mut Collection| -> (r: Result<(), AnkiError>)
            ensures
                r is Ok,
                *final(col) == *old(col),
            { Ok(()) };
        let res = self.revlog_entries_in_card_order_chunked(
            next_card_ids,
            entries_for_cards,
            fallback,
            after_chunk,
        );
        assert(wanted_in(*old(self), true, after) == of_cards_since(old(self).storage.searched(), after));
        assert(*self == *old(self));
        assert(res is Ok);
        assert(exists|rounds: Seq<ChunkRound>, none: Seq<CardId>|
            {
                &&& #[trigger] follow_on(*old(self), rounds)
                &&& all_plain(rounds, true, after)
                &&& (res->Ok_0)@ == after_rounds(*old(self), rounds).out
                &&& none.len() == 0
                &&& #[trigger] next_cards(
                    none,
                    old(self).storage.revlog(),
                    of_cards_since(old(self).storage.searched(), after),
                    after_rounds(*old(self), rounds).after_cid,
                    REVLOG_CHUNK_CARD_COUNT as nat,
                )
            });
        res
    }
}

} // verus!
