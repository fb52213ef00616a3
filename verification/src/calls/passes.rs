//! How the chunked reader goes over the review log.

use crate::card::CardId;
use crate::chunked::after_rounds;
use crate::chunked::follow_on;
use crate::chunked::ChunkRound;
use crate::collection::Collection;
use crate::error::AnkiError;
use crate::revlog::RevlogEntry;
use vstd::prelude::*;

verus! {

/// The chunk left another number of changes than it found.
pub open spec fn saw_change(round: ChunkRound) -> bool {
    round.end.storage.changes() != round.start.storage.changes()
}

/// How many of the chunks saw a change.
pub open spec fn changes_seen(rounds: Seq<ChunkRound>) -> nat
    decreases rounds.len(),
{
    if rounds.len() == 0 {
        0
    } else if saw_change(rounds.last()) {
        changes_seen(rounds.drop_last()) + 1
    } else {
        changes_seen(rounds.drop_last())
    }
}

/// Where the chunks lead.
pub open spec fn end_of(col: Collection, rounds: Seq<ChunkRound>) -> Collection {
    if rounds.len() == 0 {
        col
    } else {
        rounds.last().end
    }
}

/// The card that the next chunk starts past: the last of the chunk before, or, at the start and
/// after a change, card 0.
pub open spec fn starts_past(rounds: Seq<ChunkRound>) -> CardId {
    if rounds.len() == 0 || saw_change(rounds.last()) {
        CardId(0)
    } else {
        rounds.last().ids@.last()
    }
}

/// What was read since the last change.
pub open spec fn read_since_change(rounds: Seq<ChunkRound>) -> Seq<RevlogEntry>
    decreases rounds.len(),
{
    if rounds.len() == 0 || saw_change(rounds.last()) {
        Seq::empty()
    } else {
        read_since_change(rounds.drop_last()) + rounds.last().entries@
    }
}

/// The chunks follow each other, each with a card, and none after a third change.
pub open spec fn are_chunks(col: Collection, rounds: Seq<ChunkRound>) -> bool {
    forall|k: int|
        0 <= k < rounds.len() ==> {
            let round = #[trigger] rounds[k];
            &&& round.start == end_of(col, rounds.take(k))
            &&& round.after_cid == starts_past(rounds.take(k))
            &&& round.ids@.len() > 0
            &&& changes_seen(rounds.take(k)) < 3
        }
}

/// The reader is where its chunks lead, and has given up as many passes as it has seen changes.
pub proof fn law_pass_is_given_up_on_change(col: Collection, rounds: Seq<ChunkRound>)
    requires
        follow_on(col, rounds),
    ensures
        ({
            let s = after_rounds(col, rounds);
            &&& s.col == end_of(col, rounds)
            &&& s.stamp == s.col.storage.changes()
            &&& s.given_up == changes_seen(rounds)
            &&& s.after_cid == starts_past(rounds)
            &&& s.out == read_since_change(rounds)
        }),
    decreases rounds.len(),
{
    if rounds.len() > 0 {
        let fewer = rounds.drop_last();
        let n: int = rounds.len() - 1;
        assert forall|k: int| 0 <= k < fewer.len() implies fewer.take(k) =~= rounds.take(k) && (
        #[trigger] fewer[k]) == rounds[k] by {}
        assert(follow_on(col, fewer)) by {
            assert forall|k: int| 0 <= k < fewer.len() implies {
                let s = after_rounds(col, fewer.take(k));
                let r = #[trigger] fewer[k];
                &&& s.given_up <= crate::chunked::REVLOG_CHUNK_READ_RETRIES
                &&& r.start == s.col
                &&& r.after_cid == s.after_cid
                &&& r.ids@.len() > 0
            } by {
                assert(fewer.take(k) =~= rounds.take(k));
                assert(rounds[k] == fewer[k]);
            }
        }
        law_pass_is_given_up_on_change(col, fewer);
        assert(rounds.take(n) =~= fewer);
        assert(rounds[n].start == after_rounds(col, fewer).col);
    }
}

proof fn lemma_follow_on_take(col: Collection, rounds: Seq<ChunkRound>, n: int)
    requires
        follow_on(col, rounds),
        0 <= n <= rounds.len(),
    ensures
        follow_on(col, rounds.take(n)),
{
    let fewer = rounds.take(n);
    assert forall|k: int| 0 <= k < fewer.len() implies {
        let s = after_rounds(col, fewer.take(k));
        let r = #[trigger] fewer[k];
        &&& s.given_up <= crate::chunked::REVLOG_CHUNK_READ_RETRIES
        &&& r.start == s.col
        &&& r.after_cid == s.after_cid
        &&& r.ids@.len() > 0
    } by {
        assert(fewer.take(k) =~= rounds.take(k));
        assert(rounds[k] == fewer[k]);
    }
}

proof fn lemma_chunks(col: Collection, rounds: Seq<ChunkRound>)
    requires
        follow_on(col, rounds),
    ensures
        are_chunks(col, rounds),
        changes_seen(rounds) <= 3,
{
    assert forall|k: int| 0 <= k < rounds.len() implies {
        let round = #[trigger] rounds[k];
        &&& round.start == end_of(col, rounds.take(k))
        &&& round.after_cid == starts_past(rounds.take(k))
        &&& round.ids@.len() > 0
        &&& changes_seen(rounds.take(k)) < 3
    } by {
        lemma_follow_on_take(col, rounds, k);
        law_pass_is_given_up_on_change(col, rounds.take(k));
    }
    if rounds.len() > 0 {
        let n: int = rounds.len() - 1;
        assert(rounds.take(n) =~= rounds.drop_last());
        assert(changes_seen(rounds.take(n)) < 3) by {
            assert(rounds[n].ids@.len() > 0);
        }
    }
}

/// The reader goes over the log in chunks of up to 4096 cards, starts anew after a change, and
/// leaves the log to the fallback after the third change and not before. Otherwise it gives what
/// it has read since the last change, once there are no more cards.
pub proof fn law_reader_goes_in_passes<FCardIds, FEntries, FFallback, FAfterChunk>(
    col: Collection,
    left: Collection,
    next_card_ids: FCardIds,
    entries_for_cards: FEntries,
    fallback: FFallback,
    after_chunk: FAfterChunk,
    res: Result<Vec<RevlogEntry>, AnkiError>,
) where
    FCardIds: FnMut(&mut Collection, CardId, usize) -> Result<Vec<CardId>, AnkiError>,
    FEntries: FnMut(&mut Collection, &[CardId]) -> Result<Vec<RevlogEntry>, AnkiError>,
    FFallback: FnMut(&mut Collection) -> Result<Vec<RevlogEntry>, AnkiError>,
    FAfterChunk: FnMut(&mut Collection) -> Result<(), AnkiError>,

    requires
        exists|c: &mut Collection|
            *c == col && *final(c) == left && #[trigger] call_ensures(
                Collection::revlog_entries_in_card_order_chunked::<
                    FCardIds,
                    FEntries,
                    FFallback,
                    FAfterChunk,
                >,
                (c, next_card_ids, entries_for_cards, fallback, after_chunk),
                res,
            ),
    ensures
        exists|rounds: Seq<ChunkRound>|
            {
                &&& #[trigger] are_chunks(col, rounds)
                &&& forall|k: int|
                    0 <= k < rounds.len() ==> {
                        let r = #[trigger] rounds[k];
                        &&& exists|c: &mut Collection, ids: Result<Vec<CardId>, AnkiError>|
                            *c == r.start && *final(c) == r.listed && ids == Ok::<
                                Vec<CardId>,
                                AnkiError,
                            >(r.ids) && #[trigger] call_ensures(
                                next_card_ids,
                                (c, r.after_cid, 4096usize),
                                ids,
                            )
                        &&& exists|
                            c: &mut Collection,
                            ids: &[CardId],
                            entries: Result<Vec<RevlogEntry>, AnkiError>,
                        |
                            *c == r.listed && *final(c) == r.fetched && ids@ == r.ids@ && entries
                                == Ok::<Vec<RevlogEntry>, AnkiError>(r.entries)
                                && #[trigger] call_ensures(entries_for_cards, (c, ids), entries)
                        &&& exists|c: &mut Collection, done: Result<(), AnkiError>|
                            *c == r.fetched && *final(c) == r.end && done is Ok
                                && #[trigger] call_ensures(after_chunk, (c,), done)
                    }
                &&& changes_seen(rounds) <= 3
                &&& changes_seen(rounds) == 3 ==> exists|c: &mut Collection|
                    *c == end_of(col, rounds) && *final(c) == left && #[trigger] call_ensures(
                        fallback,
                        (c,),
                        res,
                    )
                &&& changes_seen(rounds) < 3 && res is Ok ==> (res->Ok_0)@ == read_since_change(
                    rounds,
                ) && exists|c: &mut Collection, ids: Result<Vec<CardId>, AnkiError>|
                    *c == end_of(col, rounds) && *final(c) == left && #[trigger] call_ensures(
                        next_card_ids,
                        (c, starts_past(rounds), 4096usize),
                        ids,
                    ) && (ids matches Ok(none) && none@.len() == 0)
            },
{
    assert forall|rounds: Seq<ChunkRound>| #[trigger] follow_on(col, rounds) implies {
        let s = after_rounds(col, rounds);
        &&& are_chunks(col, rounds)
        &&& s.col == end_of(col, rounds)
        &&& s.given_up == changes_seen(rounds)
        &&& s.after_cid == starts_past(rounds)
        &&& s.out == read_since_change(rounds)
        &&& changes_seen(rounds) <= 3
    } by {
        law_pass_is_given_up_on_change(col, rounds);
        lemma_chunks(col, rounds);
    }
}

} // verus!
