//! The rows that a search selects for the statistics.

use crate::card::Card;
use crate::card::CardId;
use crate::collection::Collection;
use crate::error::AnkiError;
use crate::revlog::RevlogEntry;
use crate::storage::of_cards_since;
use crate::storage::since;
use crate::timestamp::TimestampSecs;
use crate::timestamp::SECS_PER_DAY;
use vstd::prelude::*;

verus! {

/// Where the current day stands.
#[derive(Debug, Clone, Copy, PartialEq, Eq, Structural)]
pub struct SchedTimingToday {
    /// The days since the collection was created.
    pub days_elapsed: u32,
    /// When the next day starts.
    pub next_day_at: TimestampSecs,
}

pub struct GraphsContext {
    pub revlog: Vec<RevlogEntry>,
    pub cards: Vec<Card>,
    pub next_day_start: TimestampSecs,
    pub days_elapsed: u32,
    pub local_offset_secs: i64,
}

/// The character has the property White_Space of Unicode.
pub open spec fn white_space(c: char) -> bool {
    ||| '\u{9}' <= c <= '\u{d}'
    ||| c == ' '
    ||| c == '\u{85}'
    ||| c == '\u{a0}'
    ||| c == '\u{1680}'
    ||| '\u{2000}' <= c <= '\u{200a}'
    ||| c == '\u{2028}'
    ||| c == '\u{2029}'
    ||| c == '\u{202f}'
    ||| c == '\u{205f}'
    ||| c == '\u{3000}'
}

/// `char::is_whitespace` tells whether the character has the property White_Space, which
/// `white_space` spells out as Unicode defines it.
pub assume_specification[ char::is_whitespace ](c: char) -> (r: bool)
    ensures
        r == white_space(c),
;

/// Nothing is left of the text when it is trimmed.
pub open spec fn blank(text: Seq<char>) -> bool {
    forall|i: int| 0 <= i < text.len() ==> white_space(#[trigger] text[i])
}

fn is_blank(text: &str) -> (r: bool)
    ensures
        r == blank(text@),
{
    let chars = text.chars();
    broadcast use vstd::string::axiom_spec_iter;

    for c in it: chars
        invariant
            it.seq() == text@,
            forall|i: int| 0 <= i < it.index() ==> white_space(#[trigger] text@[i]),
    {
        if !c.is_whitespace() {
            return false;
        }
    }
    true
}

/// From when on the review log is read: a day more than `days` before the next day, or, for 0,
/// from 1970 on.
pub open spec fn revlog_start(days: u32, next_day_at: TimestampSecs) -> int {
    if days > 0 {
        next_day_at.0 - (days + 1) * SECS_PER_DAY
    } else {
        0
    }
}

/// What is read of a collection in which a search, of everything or not, has found `found`.
pub open spec fn is_context(
    ctx: GraphsContext,
    col: Collection,
    all: bool,
    found: Seq<CardId>,
    days: u32,
    timing: SchedTimingToday,
    utc_offset_secs: i32,
) -> bool {
    let start = TimestampSecs(revlog_start(days, timing.next_day_at) as i64);
    &&& ctx.revlog@ == col.storage.revlog().filter(
        if all {
            since(start)
        } else {
            of_cards_since(found, start)
        },
    )
    &&& ctx.cards@ == col.storage.cards().filter(|card: Card| found.contains(card.id))
    &&& ctx.next_day_start == timing.next_day_at
    &&& ctx.days_elapsed == timing.days_elapsed
    &&& ctx.local_offset_secs == utc_offset_secs
}

/// The collections differ in nothing but the current search.
pub open spec fn same_but_searched(a: Collection, b: Collection) -> bool {
    &&& a.storage.revlog() == b.storage.revlog()
    &&& a.storage.cards() == b.storage.cards()
    &&& a.storage.decks() == b.storage.decks()
    &&& a.storage.changes() == b.storage.changes()
    &&& a.config == b.config
    &&& a.undo == b.undo
}

/// A filter keeps what it accepts.
pub proof fn lemma_filter_contains<T>(s: Seq<T>, wanted: spec_fn(T) -> bool, x: T)
    ensures
        s.filter(wanted).contains(x) <==> s.contains(x) && wanted(x),
    decreases s.len(),
{
    reveal(Seq::filter);
    if s.len() > 0 {
        let fewer = s.drop_last();
        let kept = fewer.filter(wanted);
        let all = s.filter(wanted);
        lemma_filter_contains(fewer, wanted, x);
        assert(s =~= fewer.push(s.last()));
        if wanted(s.last()) {
            assert(all =~= kept.push(s.last()));
            assert(all[kept.len() as int] == s.last());
        }
        assert(s[s.len() - 1] == s.last());
        if kept.contains(x) {
            let k: int = choose|k: int| 0 <= k < kept.len() && kept[k] == x;
            assert(all[k] == x);
        }
        if fewer.contains(x) {
            let k: int = choose|k: int| 0 <= k < fewer.len() && fewer[k] == x;
            assert(s[k] == x);
        }
        if s.contains(x) && x != s.last() {
            let k: int = choose|k: int| 0 <= k < s.len() && s[k] == x;
            assert(fewer[k] == x);
        }
        if all.contains(x) && x != s.last() {
            let k: int = choose|k: int| 0 <= k < all.len() && all[k] == x;
            assert(kept[k] == x);
        }
    }
}

/// A search reads, of the review log that is read without one, the entries of the cards found.
pub proof fn law_search_narrows(
    whole: GraphsContext,
    searched: GraphsContext,
    col: Collection,
    found: Seq<CardId>,
    days: u32,
    timing: SchedTimingToday,
    utc_offset_secs: i32,
)
    requires
        is_context(whole, col, true, found, days, timing, utc_offset_secs),
        is_context(searched, col, false, found, days, timing, utc_offset_secs),
    ensures
        forall|e: RevlogEntry| #[trigger]
            searched.revlog@.contains(e) <==> whole.revlog@.contains(e) && found.contains(e.cid),
        searched.cards@ == whole.cards@,
{
    let start = TimestampSecs(revlog_start(days, timing.next_day_at) as i64);
    assert forall|e: RevlogEntry| #[trigger]
        searched.revlog@.contains(e) <==> whole.revlog@.contains(e) && found.contains(e.cid) by {
        lemma_filter_contains(col.storage.revlog(), since(start), e);
        lemma_filter_contains(col.storage.revlog(), of_cards_since(found, start), e);
    }
}

/// What is read for some days is read for more days too, and what is more in the latter was
/// made before.
pub proof fn law_more_days_read_more(
    fewer: GraphsContext,
    more: GraphsContext,
    col: Collection,
    all: bool,
    found: Seq<CardId>,
    fewer_days: u32,
    more_days: u32,
    timing: SchedTimingToday,
    utc_offset_secs: i32,
)
    requires
        0 < fewer_days <= more_days,
        revlog_start(more_days, timing.next_day_at) >= i64::MIN,
        is_context(fewer, col, all, found, fewer_days, timing, utc_offset_secs),
        is_context(more, col, all, found, more_days, timing, utc_offset_secs),
    ensures
        forall|e: RevlogEntry| #[trigger]
            fewer.revlog@.contains(e) <==> more.revlog@.contains(e) && e.id.0 >= revlog_start(
                fewer_days,
                timing.next_day_at,
            ) * 1000,
{
    let late = TimestampSecs(revlog_start(fewer_days, timing.next_day_at) as i64);
    let early = TimestampSecs(revlog_start(more_days, timing.next_day_at) as i64);
    assert(early.0 <= late.0 <= timing.next_day_at.0);
    let table = col.storage.revlog();
    assert forall|e: RevlogEntry| #[trigger]
        fewer.revlog@.contains(e) <==> more.revlog@.contains(e) && e.id.0 >= revlog_start(
            fewer_days,
            timing.next_day_at,
        ) * 1000 by {
        if all {
            lemma_filter_contains(table, since(late), e);
            lemma_filter_contains(table, since(early), e);
        } else {
            lemma_filter_contains(table, of_cards_since(found, late), e);
            lemma_filter_contains(table, of_cards_since(found, early), e);
        }
    }
}

impl Collection {
    /// Reads what the statistics of the last `days` days need, of all days for 0, for the cards
    /// that `search` selects. A blank search selects the whole review log.
    ///
    /// `found` is what the search gave, `timing` and `utc_offset_secs` are what the clock and
    /// the settings gave; the first of them that failed decides.
    pub fn graph_context(
        &mut self,
        search: &str,
        days: u32,
        found: Result<Vec<CardId>, AnkiError>,
        timing: Result<SchedTimingToday, AnkiError>,
        utc_offset_secs: Result<i32, AnkiError>,
    ) -> (r: Result<GraphsContext, AnkiError>)
        requires
            found is Ok && timing is Ok ==> revlog_start(days, timing->Ok_0.next_day_at)
                >= i64::MIN,
        ensures
            match (found, timing, utc_offset_secs) {
                (Err(e), _, _) => r == Err::<GraphsContext, AnkiError>(e),
                (_, Err(e), _) => r == Err::<GraphsContext, AnkiError>(e),
                (_, _, Err(e)) => r == Err::<GraphsContext, AnkiError>(e),
                (Ok(found), Ok(timing), Ok(offset)) => r matches Ok(ctx) && is_context(
                    ctx,
                    *old(self),
                    blank(search@),
                    found@,
                    days,
                    timing,
                    offset,
                ),
            },
            found is Err ==> *final(self) == *old(self),
            found is Ok ==> final(self).storage.searched() == Seq::<CardId>::empty(),
            same_but_searched(*final(self), *old(self)),
    {
        let all = is_blank(search);
        let found = found?;
        self.storage.set_search_table_to_card_ids(found.as_slice())?;
        let r = self.context_of_search(all, days, timing, utc_offset_secs);
        self.storage.clear_searched_cards_table()?;
        r
    }

    /// Reads what the statistics need for the cards of the current search, or for the whole
    /// review log.
    fn context_of_search(
        &self,
        all: bool,
        days: u32,
        timing: Result<SchedTimingToday, AnkiError>,
        utc_offset_secs: Result<i32, AnkiError>,
    ) -> (r: Result<GraphsContext, AnkiError>)
        requires
            timing is Ok ==> revlog_start(days, timing->Ok_0.next_day_at) >= i64::MIN,
        ensures
            match (timing, utc_offset_secs) {
                (Err(e), _) => r == Err::<GraphsContext, AnkiError>(e),
                (_, Err(e)) => r == Err::<GraphsContext, AnkiError>(e),
                (Ok(timing), Ok(offset)) => r matches Ok(ctx) && is_context(
                    ctx,
                    *self,
                    all,
                    self.storage.searched(),
                    days,
                    timing,
                    offset,
                ),
            },
    {
        let timing = timing?;
        let revlog_start: TimestampSecs = if days > 0 {
            timing.next_day_at.adding_secs(-((days as i64 + 1) * SECS_PER_DAY))
        } else {
            TimestampSecs(0)
        };
        let local_offset_secs: i64 = utc_offset_secs? as i64;
        let revlog = if all {
            self.storage.get_all_revlog_entries(revlog_start)?
        } else {
            self.storage.get_revlog_entries_for_searched_cards_after_stamp(revlog_start)?
        };
        Ok(
            GraphsContext {
                revlog,
                days_elapsed: timing.days_elapsed,
                cards: self.storage.all_searched_cards()?,
                next_day_start: timing.next_day_at,
                local_offset_secs,
            },
        )
    }
}

} // verus!
