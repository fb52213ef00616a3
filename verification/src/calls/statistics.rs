//! What is read for the statistics, and how they are shown.

use crate::card::Card;
use crate::card::CardId;
use crate::collection::Collection;
use crate::config::Weekday;
use crate::error::AnkiError;
use crate::graphs::context::lemma_filter_contains;
use crate::graphs::context::revlog_start;
use crate::graphs::context::white_space;
use crate::graphs::context::GraphsContext;
use crate::graphs::context::SchedTimingToday;
use crate::graphs::preferences::GraphPreferences;
use crate::revlog::RevlogEntry;
use crate::storage::lemma_filter_ascending;
use crate::storage::of_cards_since;
use crate::storage::since;
use crate::timestamp::TimestampSecs;
use vstd::prelude::*;

verus! {

/// The search has nothing but white space.
pub open spec fn is_all_white(search: Seq<char>) -> bool {
    forall|i: int| 0 <= i < search.len() ==> white_space(#[trigger] search[i])
}

/// The entry is read for the last `days` days, a day more than these before the next day, or for
/// all days since 1970 where `days` is 0; of any card where the search is blank, else of a card
/// that was found.
pub open spec fn is_read(
    e: RevlogEntry,
    search: Seq<char>,
    days: u32,
    found: Seq<CardId>,
    next_day_at: TimestampSecs,
) -> bool {
    &&& days > 0 ==> e.id.0 >= (next_day_at.0 - (days + 1) * 86400) * 1000
    &&& days == 0 ==> e.id.0 >= 0
    &&& is_all_white(search) || found.contains(e.cid)
}

/// The list picks from the table, in the order of the table and each at most once.
pub open spec fn picks<T>(list: Seq<T>, table: Seq<T>) -> bool {
    exists|places: Seq<int>|
        {
            &&& places.len() == list.len()
            &&& forall|k: int|
                0 <= k < list.len() ==> 0 <= #[trigger] places[k] < table.len()
                    && table[places[k]] == list[k]
            &&& forall|k: int, m: int|
                0 <= k < m < list.len() ==> #[trigger] places[k] < #[trigger] places[m]
        }
}

/// The context holds what is to be read of the collection, and where the day stands.
pub open spec fn holds_what_is_read(
    ctx: GraphsContext,
    col: Collection,
    search: Seq<char>,
    days: u32,
    found: Seq<CardId>,
    timing: SchedTimingToday,
    utc_offset_secs: i32,
) -> bool {
    &&& forall|e: RevlogEntry| #[trigger]
        ctx.revlog@.contains(e) <==> col.storage.revlog().contains(e) && is_read(
            e,
            search,
            days,
            found,
            timing.next_day_at,
        )
    &&& picks(ctx.revlog@, col.storage.revlog())
    &&& forall|card: Card| #[trigger]
        ctx.cards@.contains(card) <==> col.storage.cards().contains(card) && found.contains(card.id)
    &&& picks(ctx.cards@, col.storage.cards())
    &&& ctx.next_day_start == timing.next_day_at
    &&& ctx.days_elapsed == timing.days_elapsed
    &&& ctx.local_offset_secs == utc_offset_secs
}

/// The collection was left without a search, and otherwise as it was.
pub open spec fn is_left(col: Collection, left: Collection) -> bool {
    &&& left.storage.revlog() == col.storage.revlog()
    &&& left.storage.cards() == col.storage.cards()
    &&& left.storage.decks() == col.storage.decks()
    &&& left.storage.changes() == col.storage.changes()
    &&& left.storage.searched().len() == 0
    &&& left.config == col.config
    &&& left.undo == col.undo
}

/// A filter picks.
proof fn lemma_filter_picks<T>(table: Seq<T>, wanted: spec_fn(T) -> bool)
    ensures
        picks(table.filter(wanted), table),
    decreases table.len(),
{
    reveal(Seq::filter);
    let all = table.filter(wanted);
    if table.len() == 0 {
        assert(picks(all, table)) by {
            let places: Seq<int> = Seq::empty();
            assert(places.len() == all.len());
        }
    } else {
        let fewer = table.drop_last();
        let kept = fewer.filter(wanted);
        lemma_filter_picks(fewer, wanted);
        let places = choose|places: Seq<int>|
            {
                &&& places.len() == kept.len()
                &&& forall|k: int|
                    0 <= k < kept.len() ==> 0 <= #[trigger] places[k] < fewer.len()
                        && fewer[places[k]] == kept[k]
                &&& forall|k: int, m: int|
                    0 <= k < m < kept.len() ==> #[trigger] places[k] < #[trigger] places[m]
            };
        let longer = if wanted(table.last()) {
            places.push(table.len() - 1)
        } else {
            places
        };
        assert(longer.len() == all.len());
        assert forall|k: int| 0 <= k < all.len() implies 0 <= #[trigger] longer[k] < table.len()
            && table[longer[k]] == all[k] by {
            if k < kept.len() {
                assert(longer[k] == places[k]);
                assert(fewer[places[k]] == kept[k]);
                assert(all[k] == kept[k]);
            }
        }
        assert forall|k: int, m: int| 0 <= k < m < all.len() implies #[trigger] longer[k]
            < #[trigger] longer[m] by {
            assert(longer[k] == places[k]);
            if m < kept.len() {
                assert(longer[m] == places[m]);
            } else {
                assert(places[k] < fewer.len());
            }
        }
    }
}

/// What makes up a context holds what is read.
pub proof fn lemma_context_holds(
    ctx: GraphsContext,
    col: Collection,
    search: Seq<char>,
    days: u32,
    found: Seq<CardId>,
    timing: SchedTimingToday,
    utc_offset_secs: i32,
)
    requires
        days > 0 ==> timing.next_day_at.0 - (days + 1) * 86400 >= i64::MIN,
        crate::graphs::context::is_context(
            ctx,
            col,
            crate::graphs::context::blank(search),
            found,
            days,
            timing,
            utc_offset_secs,
        ),
    ensures
        holds_what_is_read(ctx, col, search, days, found, timing, utc_offset_secs),
{
    let start = TimestampSecs(revlog_start(days, timing.next_day_at) as i64);
    let all = is_all_white(search);
    let wanted = if all {
        since(start)
    } else {
        of_cards_since(found, start)
    };
    assert(all == crate::graphs::context::blank(search));
    assert(days > 0 ==> start.0 == timing.next_day_at.0 - (days + 1) * 86400);
    lemma_filter_picks(col.storage.revlog(), wanted);
    assert forall|e: RevlogEntry| #[trigger]
        ctx.revlog@.contains(e) <==> col.storage.revlog().contains(e) && is_read(
            e,
            search,
            days,
            found,
            timing.next_day_at,
        ) by {
        lemma_filter_contains(col.storage.revlog(), wanted, e);
    }
    let of_found = |card: Card| found.contains(card.id);
    lemma_filter_picks(col.storage.cards(), of_found);
    assert forall|card: Card| #[trigger]
        ctx.cards@.contains(card) <==> col.storage.cards().contains(card) && found.contains(
            card.id,
        ) by {
        lemma_filter_contains(col.storage.cards(), of_found, card);
    }
}

/// For the last `days` days, an entry is read if and only if its id is no less than the
/// milliseconds of the point a day more than these before the next day; for 0 days, if it was
/// made since 1970. A search that is not blank leaves out the entries of other cards than those
/// found. A card is read if and only if it was found.
pub proof fn law_context_holds_what_is_read(
    col: Collection,
    left: Collection,
    search: &str,
    days: u32,
    found: Vec<CardId>,
    timing: SchedTimingToday,
    utc_offset_secs: i32,
    r: Result<GraphsContext, AnkiError>,
)
    requires
        days > 0 ==> timing.next_day_at.0 - (days + 1) * 86400 >= i64::MIN,
        exists|c: &mut Collection|
            *c == col && *final(c) == left && #[trigger] call_ensures(
                Collection::graph_context,
                (c, search, days, Ok(found), Ok(timing), Ok(utc_offset_secs)),
                r,
            ),
    ensures
        r is Ok,
        holds_what_is_read(r->Ok_0, col, search@, days, found@, timing, utc_offset_secs),
        is_left(col, left),
{
    lemma_context_holds(r->Ok_0, col, search@, days, found@, timing, utc_offset_secs);
}

/// The entries that are read are in the order of time.
pub proof fn law_context_is_in_order_of_time(
    col: Collection,
    left: Collection,
    search: &str,
    days: u32,
    found: Vec<CardId>,
    timing: SchedTimingToday,
    utc_offset_secs: i32,
    r: Result<GraphsContext, AnkiError>,
)
    requires
        col.storage.wf(),
        exists|c: &mut Collection|
            *c == col && *final(c) == left && #[trigger] call_ensures(
                Collection::graph_context,
                (c, search, days, Ok(found), Ok(timing), Ok(utc_offset_secs)),
                r,
            ),
    ensures
        r is Ok,
        forall|i: int, j: int|
            0 <= i < j < (r->Ok_0).revlog@.len() ==> (#[trigger] (r->Ok_0).revlog@[i]).id.0 < (
            #[trigger] (r->Ok_0).revlog@[j]).id.0,
{
    let start = TimestampSecs(revlog_start(days, timing.next_day_at) as i64);
    lemma_filter_ascending(col.storage.revlog(), since(start));
    lemma_filter_ascending(col.storage.revlog(), of_cards_since(found@, start));
}

/// One day more reads, besides what is read for the fewer days, what was made in the 86400 seconds
/// before, and nothing else.
pub proof fn law_one_day_more_reads_one_day_more(
    col: Collection,
    left: Collection,
    left_too: Collection,
    search: &str,
    days: u32,
    found: Vec<CardId>,
    timing: SchedTimingToday,
    utc_offset_secs: i32,
    fewer: Result<GraphsContext, AnkiError>,
    more: Result<GraphsContext, AnkiError>,
)
    requires
        0 < days < u32::MAX,
        timing.next_day_at.0 - (days + 2) * 86400 >= i64::MIN,
        exists|c: &mut Collection|
            *c == col && *final(c) == left && #[trigger] call_ensures(
                Collection::graph_context,
                (c, search, days, Ok(found), Ok(timing), Ok(utc_offset_secs)),
                fewer,
            ),
        exists|c: &mut Collection|
            *c == col && *final(c) == left_too && #[trigger] call_ensures(
                Collection::graph_context,
                (c, search, (days + 1) as u32, Ok(found), Ok(timing), Ok(utc_offset_secs)),
                more,
            ),
    ensures
        fewer is Ok,
        more is Ok,
        forall|e: RevlogEntry| #[trigger]
            (fewer->Ok_0).revlog@.contains(e) ==> (more->Ok_0).revlog@.contains(e),
        forall|e: RevlogEntry|
            (is_all_white(search@) || found@.contains(e.cid)) && col.storage.revlog().contains(e)
                ==> {
                let bound = (timing.next_day_at.0 - (days + 1) * 86400) * 1000;
                &&& #[trigger] (more->Ok_0).revlog@.contains(e) && !(
                fewer->Ok_0).revlog@.contains(e) <==> bound - 86400000 <= e.id.0 < bound
            },
        (fewer->Ok_0).cards@ == (more->Ok_0).cards@,
{
    law_context_holds_what_is_read(
        col,
        left,
        search,
        days,
        found,
        timing,
        utc_offset_secs,
        fewer,
    );
    law_context_holds_what_is_read(
        col,
        left_too,
        search,
        (days + 1) as u32,
        found,
        timing,
        utc_offset_secs,
        more,
    );
    assert forall|e: RevlogEntry| #[trigger] (fewer->Ok_0).revlog@.contains(e) implies (
    more->Ok_0).revlog@.contains(e) by {
        assert(is_read(e, search@, days, found@, timing.next_day_at));
        assert(is_read(e, search@, (days + 1) as u32, found@, timing.next_day_at));
    }
}

/// Where the next day starts later, what is read starts later by as much.
pub proof fn law_later_day_reads_later(
    col: Collection,
    left: Collection,
    left_too: Collection,
    search: &str,
    days: u32,
    found: Vec<CardId>,
    timing: SchedTimingToday,
    later: SchedTimingToday,
    utc_offset_secs: i32,
    before: Result<GraphsContext, AnkiError>,
    after: Result<GraphsContext, AnkiError>,
)
    requires
        0 < days,
        timing.next_day_at.0 <= later.next_day_at.0,
        timing.next_day_at.0 - (days + 1) * 86400 >= i64::MIN,
        exists|c: &mut Collection|
            *c == col && *final(c) == left && #[trigger] call_ensures(
                Collection::graph_context,
                (c, search, days, Ok(found), Ok(timing), Ok(utc_offset_secs)),
                before,
            ),
        exists|c: &mut Collection|
            *c == col && *final(c) == left_too && #[trigger] call_ensures(
                Collection::graph_context,
                (c, search, days, Ok(found), Ok(later), Ok(utc_offset_secs)),
                after,
            ),
    ensures
        before is Ok,
        after is Ok,
        forall|e: RevlogEntry| #[trigger]
            (after->Ok_0).revlog@.contains(e) <==> (before->Ok_0).revlog@.contains(e) && e.id.0
                - later.next_day_at.0 * 1000 >= -(days + 1) * 86400000,
{
    law_context_holds_what_is_read(
        col,
        left,
        search,
        days,
        found,
        timing,
        utc_offset_secs,
        before,
    );
    law_context_holds_what_is_read(
        col,
        left_too,
        search,
        days,
        found,
        later,
        utc_offset_secs,
        after,
    );
    assert forall|e: RevlogEntry| #[trigger]
        (after->Ok_0).revlog@.contains(e) <==> (before->Ok_0).revlog@.contains(e) && e.id.0
            - later.next_day_at.0 * 1000 >= -(days + 1) * 86400000 by {
        assert(is_read(e, search@, days, found@, later.next_day_at) ==> is_read(
            e,
            search@,
            days,
            found@,
            timing.next_day_at,
        ));
    }
}

/// What is read does not depend on anything of an entry but its id and its card.
pub proof fn law_same_id_and_card_are_read_alike(
    col: Collection,
    left: Collection,
    search: &str,
    days: u32,
    found: Vec<CardId>,
    timing: SchedTimingToday,
    utc_offset_secs: i32,
    r: Result<GraphsContext, AnkiError>,
    other: Collection,
    other_left: Collection,
    other_r: Result<GraphsContext, AnkiError>,
    e: RevlogEntry,
    other_e: RevlogEntry,
)
    requires
        days > 0 ==> timing.next_day_at.0 - (days + 1) * 86400 >= i64::MIN,
        exists|c: &mut Collection|
            *c == col && *final(c) == left && #[trigger] call_ensures(
                Collection::graph_context,
                (c, search, days, Ok(found), Ok(timing), Ok(utc_offset_secs)),
                r,
            ),
        exists|c: &mut Collection|
            *c == other && *final(c) == other_left && #[trigger] call_ensures(
                Collection::graph_context,
                (c, search, days, Ok(found), Ok(timing), Ok(utc_offset_secs)),
                other_r,
            ),
        col.storage.revlog().contains(e),
        other.storage.revlog().contains(other_e),
        e.id == other_e.id,
        e.cid == other_e.cid,
    ensures
        r is Ok,
        other_r is Ok,
        (r->Ok_0).revlog@.contains(e) <==> (other_r->Ok_0).revlog@.contains(other_e),
{
    law_context_holds_what_is_read(col, left, search, days, found, timing, utc_offset_secs, r);
    law_context_holds_what_is_read(
        other,
        other_left,
        search,
        days,
        found,
        timing,
        utc_offset_secs,
        other_r,
    );
}

/// A search that fails, then a day that cannot be told, then an offset that cannot be had, is what
/// the request is answered with. A failed search leaves the collection as it is.
pub proof fn law_first_failure_answers(
    col: Collection,
    left: Collection,
    search: &str,
    days: u32,
    found: Result<Vec<CardId>, AnkiError>,
    timing: Result<SchedTimingToday, AnkiError>,
    utc_offset_secs: Result<i32, AnkiError>,
    r: Result<GraphsContext, AnkiError>,
)
    requires
        exists|c: &mut Collection|
            *c == col && *final(c) == left && #[trigger] call_ensures(
                Collection::graph_context,
                (c, search, days, found, timing, utc_offset_secs),
                r,
            ),
    ensures
        r is Ok <==> found is Ok && timing is Ok && utc_offset_secs is Ok,
        found is Err ==> r == Err::<GraphsContext, AnkiError>(found->Err_0) && left == col,
        found is Ok && timing is Err ==> r == Err::<GraphsContext, AnkiError>(timing->Err_0),
        found is Ok && timing is Ok && utc_offset_secs is Err ==> r == Err::<
            GraphsContext,
            AnkiError,
        >(utc_offset_secs->Err_0),
        found is Ok ==> is_left(col, left),
{
}

/// White space is what Unicode lists as such, by number.
pub proof fn law_white_space_by_number(c: char)
    ensures
        white_space(c) <==> {
            let n = c as u32;
            ||| 9 <= n <= 13
            ||| n == 32
            ||| n == 133
            ||| n == 160
            ||| n == 5760
            ||| 8192 <= n <= 8202
            ||| n == 8232
            ||| n == 8233
            ||| n == 8239
            ||| n == 8287
            ||| n == 12288
        },
{
}

/// The preferences that are got are the settings: the days are numbered from Sunday, and links are
/// supported.
pub proof fn law_preferences_got(col: Collection, prefs: GraphPreferences)
    requires
        call_ensures(Collection::get_graph_preferences, (&col,), prefs),
    ensures
        prefs.card_counts_separate_inactive == col.config.card_counts_separate_inactive,
        prefs.future_due_show_backlog == col.config.future_due_show_backlog,
        prefs.browser_links_supported,
        prefs.calendar_first_day_of_week == 0 <==> col.config.first_day_of_week == Weekday::Sunday,
        prefs.calendar_first_day_of_week == 1 <==> col.config.first_day_of_week == Weekday::Monday,
        prefs.calendar_first_day_of_week == 5 <==> col.config.first_day_of_week == Weekday::Friday,
        prefs.calendar_first_day_of_week == 6 <==> col.config.first_day_of_week
            == Weekday::Saturday,
{
}

/// To set the preferences sets the three settings, Sunday for a day on which no week starts, and
/// touches nothing else.
pub proof fn law_preferences_set(
    col: Collection,
    left: Collection,
    prefs: GraphPreferences,
    r: Result<(), AnkiError>,
)
    requires
        exists|c: &mut Collection|
            *c == col && *final(c) == left && #[trigger] call_ensures(
                Collection::set_graph_preferences,
                (c, prefs),
                r,
            ),
    ensures
        r is Ok,
        left.storage == col.storage,
        left.undo == col.undo,
        left.config.fsrs == col.config.fsrs,
        left.config.card_counts_separate_inactive == prefs.card_counts_separate_inactive,
        left.config.future_due_show_backlog == prefs.future_due_show_backlog,
        left.config.first_day_of_week == Weekday::Monday <==> prefs.calendar_first_day_of_week == 1,
        left.config.first_day_of_week == Weekday::Friday <==> prefs.calendar_first_day_of_week == 5,
        left.config.first_day_of_week == Weekday::Saturday <==> prefs.calendar_first_day_of_week
            == 6,
{
}

/// Preferences that were set are got, as far as a week can start on the day.
pub proof fn law_set_preferences_are_got(
    col: Collection,
    left: Collection,
    prefs: GraphPreferences,
    r: Result<(), AnkiError>,
    got: GraphPreferences,
)
    requires
        exists|c: &mut Collection|
            *c == col && *final(c) == left && #[trigger] call_ensures(
                Collection::set_graph_preferences,
                (c, prefs),
                r,
            ),
        call_ensures(Collection::get_graph_preferences, (&left,), got),
    ensures
        got.card_counts_separate_inactive == prefs.card_counts_separate_inactive,
        got.future_due_show_backlog == prefs.future_due_show_backlog,
        ({
            let day = prefs.calendar_first_day_of_week;
            &&& day == 0 || day == 1 || day == 5 || day == 6 ==> got.calendar_first_day_of_week
                == day
            &&& day != 1 && day != 5 && day != 6 ==> got.calendar_first_day_of_week == 0
        }),
{
    law_preferences_set(col, left, prefs, r);
    law_preferences_got(left, got);
}

/// To set what was got changes nothing.
pub proof fn law_got_preferences_can_be_set(
    col: Collection,
    left: Collection,
    got: GraphPreferences,
    r: Result<(), AnkiError>,
)
    requires
        call_ensures(Collection::get_graph_preferences, (&col,), got),
        exists|c: &mut Collection|
            *c == col && *final(c) == left && #[trigger] call_ensures(
                Collection::set_graph_preferences,
                (c, got),
                r,
            ),
    ensures
        left == col,
{
}

/// A new collection starts its weeks on Sunday, shows all, and does not schedule by FSRS.
pub proof fn law_new_collection_settings(col: Collection)
    requires
        call_ensures(Collection::new, (), col),
    ensures
        col.config.first_day_of_week == Weekday::Sunday,
        col.config.card_counts_separate_inactive,
        col.config.future_due_show_backlog,
        !col.config.fsrs,
{
}

} // verus!
