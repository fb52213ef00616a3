//! The statistics, put together.

use crate::calls::days::days_back;
use crate::calls::history::all_put_to;
use crate::calls::history::lemma_days_of_history;
use crate::calls::history::some_part_has;
use crate::calls::memory::has_models_built;
use crate::calls::memory::is_joined_or_failed;
use crate::calls::memory::lemma_memorized_is_joined;
use crate::calls::statistics::holds_what_is_read;
use crate::calls::statistics::is_left;
use crate::calls::statistics::lemma_context_holds;
use crate::card::CardId;
use crate::card::DeckConfigId;
use crate::collection::Collection;
use crate::error::AnkiError;
use crate::graphs::comparison::feeds;
use crate::graphs::comparison::law_model_gives_number_of_states;
use crate::graphs::comparison::Reckoning;
use crate::graphs::context::blank;
use crate::graphs::context::is_context;
use crate::graphs::context::GraphsContext;
use crate::graphs::context::SchedTimingToday;
use crate::graphs::history::ItemForMemoryState;
use crate::graphs::memorized::is_memorized;
use crate::graphs::memorized::MemorizedContext;
use crate::graphs::model::memory_states;
use crate::graphs::model::FsrsItem;
use crate::graphs::response::is_put_together;
use crate::graphs::response::Graphs;
use crate::graphs::response::GraphsResponse;
use crate::graphs::split::is_split;
use crate::revlog::RevlogEntry;
use crate::timestamp::TimestampSecs;
use fsrs::MemoryState;
use fsrs::FSRS;
use std::collections::HashMap;
use vstd::prelude::*;

verus! {

/// Each graph stands in its place, drawn from the context.
pub open spec fn is_drawn_from<V, G: Graphs>(
    response: GraphsResponse<V, G>,
    graphs: G,
    ctx: GraphsContext,
) -> bool {
    &&& response.eases is Some && response.difficulty is Some && call_ensures(
        G::eases,
        (&graphs, &ctx),
        (response.eases->0, response.difficulty->0),
    )
    &&& response.reviews is Some && call_ensures(G::review_counts_and_times, (&graphs, &ctx), response.reviews->0)
    &&& response.true_retention is Some && call_ensures(G::calculate_true_retention, (&graphs, &ctx), response.true_retention->0)
    &&& response.future_due is Some && call_ensures(G::future_due, (&graphs, &ctx), response.future_due->0)
    &&& response.intervals is Some && call_ensures(G::intervals, (&graphs, &ctx), response.intervals->0)
    &&& response.stability is Some && call_ensures(G::stability, (&graphs, &ctx), response.stability->0)
    &&& response.today is Some && call_ensures(G::today, (&graphs, &ctx), response.today->0)
    &&& response.hours is Some && call_ensures(G::hours, (&graphs, &ctx), response.hours->0)
    &&& response.buttons is Some && call_ensures(G::buttons, (&graphs, &ctx), response.buttons->0)
    &&& response.card_counts is Some && call_ensures(G::card_counts, (&graphs, &ctx), response.card_counts->0)
    &&& response.retrievability is Some && call_ensures(G::retrievability, (&graphs, &ctx), response.retrievability->0)
}

/// The outcome of the statistics for a context: it is joined with the models, it is reckoned what
/// was remembered, and the graphs are drawn from it. What fails first is what the request is
/// answered with: the models, then the reckoning, then the hour at which a day ends.
pub open spec fn is_answered<V, G, FItem, FAccrue>(
    col: Collection,
    ctx: GraphsContext,
    built: Result<Vec<(DeckConfigId, Result<FSRS, AnkiError>)>, AnkiError>,
    item_for: FItem,
    accrue: FAccrue,
    graphs: G,
    rollover_hour: Result<u8, AnkiError>,
    r: Result<GraphsResponse<V, G>, AnkiError>,
) -> bool where
    FItem: Fn(&FSRS, Vec<RevlogEntry>, TimestampSecs) -> Result<
        Option<ItemForMemoryState<MemoryState, FsrsItem>>,
        AnkiError,
    >,
    FAccrue: Fn(Option<V>, &FSRS, &MemoryState, u32) -> V,
    G: Graphs,
 {
    exists|memorized: Result<MemorizedContext<FSRS>, AnkiError>|
        {
            &&& #[trigger] is_joined_or_failed(memorized, ctx, col.storage.decks(), built)
            &&& memorized is Err ==> r is Err && r->Err_0 == memorized->Err_0
            &&& memorized is Ok ==> exists|added: Result<HashMap<i32, V>, AnkiError>|
                {
                    &&& #[trigger] (memorized->Ok_0).is_history(
                        item_for,
                        memory_states,
                        accrue,
                        added,
                    )
                    &&& added is Err ==> r is Err && r->Err_0 == added->Err_0
                    &&& added is Ok && rollover_hour is Err ==> r is Err && r->Err_0
                        == rollover_hour->Err_0
                    &&& added is Ok && rollover_hour is Ok ==> {
                        &&& r is Ok
                        &&& (r->Ok_0).added is Some
                        &&& (r->Ok_0).added->0.added == added->Ok_0
                        &&& (r->Ok_0).rollover_hour == rollover_hour->Ok_0
                        &&& (r->Ok_0).fsrs == col.config.fsrs
                        &&& is_drawn_from(r->Ok_0, graphs, ctx)
                    }
                }
        }
}

proof fn lemma_answered<V, G, FItem, FAccrue>(
    col: Collection,
    ctx: GraphsContext,
    built: Result<Vec<(DeckConfigId, Result<FSRS, AnkiError>)>, AnkiError>,
    item_for: FItem,
    accrue: FAccrue,
    graphs: G,
    rollover_hour: Result<u8, AnkiError>,
    r: Result<GraphsResponse<V, G>, AnkiError>,
) where
    FItem: Fn(&FSRS, Vec<RevlogEntry>, TimestampSecs) -> Result<
        Option<ItemForMemoryState<MemoryState, FsrsItem>>,
        AnkiError,
    >,
    FAccrue: Fn(Option<V>, &FSRS, &MemoryState, u32) -> V,
    G: Graphs,

    requires
        col.is_response(r, ctx, built, item_for, accrue, graphs, rollover_hour),
    ensures
        is_answered(col, ctx, built, item_for, accrue, graphs, rollover_hour, r),
{
    let memorized = choose|memorized: Result<MemorizedContext<FSRS>, AnkiError>|
        {
            &&& #[trigger] is_memorized(memorized, ctx, col.storage.decks(), built)
            &&& match memorized {
                Err(e) => r == Err::<GraphsResponse<V, G>, AnkiError>(e),
                Ok(memorized) => exists|added: Result<HashMap<i32, V>, AnkiError>|
                    #[trigger] memorized.is_history(item_for, memory_states, accrue, added)
                        && is_put_together(
                        r,
                        ctx,
                        added,
                        graphs,
                        rollover_hour,
                        col.config.fsrs,
                    ),
            }
        };
    lemma_memorized_is_joined(memorized, ctx, col.storage.decks(), built);
    if let Ok(joined) = memorized {
        let added = choose|added: Result<HashMap<i32, V>, AnkiError>|
            #[trigger] joined.is_history(item_for, memory_states, accrue, added)
                && is_put_together(r, ctx, added, graphs, rollover_hour, col.config.fsrs);
        assert(joined.is_history(item_for, memory_states, accrue, added));
    }
}

/// The statistics for what was read are put together from it and from nothing else of the
/// collection but its decks and whether it schedules by FSRS.
pub proof fn law_statistics_are_put_together<V, G, FItem, FAccrue>(
    col: Collection,
    ctx: GraphsContext,
    built: Result<Vec<(DeckConfigId, Result<FSRS, AnkiError>)>, AnkiError>,
    item_for: FItem,
    accrue: FAccrue,
    graphs: G,
    rollover_hour: Result<u8, AnkiError>,
    r: Result<GraphsResponse<V, G>, AnkiError>,
) where
    FItem: Fn(&FSRS, Vec<RevlogEntry>, TimestampSecs) -> Result<
        Option<ItemForMemoryState<MemoryState, FsrsItem>>,
        AnkiError,
    >,
    FAccrue: Fn(Option<V>, &FSRS, &MemoryState, u32) -> V,
    G: Graphs,

    requires
        call_ensures(
            Collection::graph_data::<V, G, FItem, FAccrue>,
            (&col, ctx, built, &item_for, &accrue, &graphs, rollover_hour),
            r,
        ),
    ensures
        is_answered(col, ctx, built, item_for, accrue, graphs, rollover_hour, r),
{
    lemma_answered(col, ctx, built, item_for, accrue, graphs, rollover_hour, r);
}

/// All presets have the model.
pub open spec fn all_have_model(
    built: Vec<(DeckConfigId, Result<FSRS, AnkiError>)>,
    model: FSRS,
) -> bool {
    &&& built@.len() > 0
    &&& forall|i: int|
        0 <= i < built@.len() ==> (#[trigger] built@[i]).1 == Ok::<FSRS, AnkiError>(model)
}

/// Where all presets have one model, what is told of the days has a sum for a day if and only if
/// the day lies between a review of some card, of those that were read, and the next, or today; the
/// days of a review are counted from its id.
pub proof fn law_days_of_statistics<V, G, FItem, FAccrue>(
    col: Collection,
    ctx: GraphsContext,
    built: Vec<(DeckConfigId, Result<FSRS, AnkiError>)>,
    model: FSRS,
    item_for: FItem,
    accrue: FAccrue,
    graphs: G,
    rollover_hour: Result<u8, AnkiError>,
    span: Reckoning<FSRS, nat>,
    parts: Seq<Seq<RevlogEntry>>,
    r: Result<GraphsResponse<V, G>, AnkiError>,
) where
    FItem: Fn(&FSRS, Vec<RevlogEntry>, TimestampSecs) -> Result<
        Option<ItemForMemoryState<MemoryState, FsrsItem>>,
        AnkiError,
    >,
    FAccrue: Fn(Option<V>, &FSRS, &MemoryState, u32) -> V,
    G: Graphs,

    requires
        call_ensures(
            Collection::graph_data::<V, G, FItem, FAccrue>,
            (&col, ctx, Ok(built), &item_for, &accrue, &graphs, rollover_hour),
            r,
        ),
        r is Ok,
        all_have_model(built, model),
        feeds(item_for, span),
        is_split(parts, ctx.revlog@),
    ensures
        (r->Ok_0).added is Some,
        forall|day: i32| #[trigger]
            ((r->Ok_0).added->0.added)@.contains_key(day) <==> some_part_has(
                span,
                |cid: CardId| model,
                parts,
                ctx.next_day_start,
                days_back(day),
            ),
{
    lemma_answered(col, ctx, Ok(built), item_for, accrue, graphs, rollover_hour, r);
    let memorized = choose|memorized: Result<MemorizedContext<FSRS>, AnkiError>|
        {
            &&& #[trigger] is_joined_or_failed(memorized, ctx, col.storage.decks(), Ok(built))
            &&& memorized is Err ==> r is Err && r->Err_0 == memorized->Err_0
            &&& memorized is Ok ==> exists|added: Result<HashMap<i32, V>, AnkiError>|
                {
                    &&& #[trigger] (memorized->Ok_0).is_history(
                        item_for,
                        memory_states,
                        accrue,
                        added,
                    )
                    &&& added is Err ==> r is Err && r->Err_0 == added->Err_0
                    &&& added is Ok && rollover_hour is Err ==> r is Err && r->Err_0
                        == rollover_hour->Err_0
                    &&& added is Ok && rollover_hour is Ok ==> {
                        &&& r is Ok
                        &&& (r->Ok_0).added is Some
                        &&& (r->Ok_0).added->0.added == added->Ok_0
                    }
                }
        };
    let joined = memorized->Ok_0;
    let added = choose|added: Result<HashMap<i32, V>, AnkiError>|
        {
            &&& #[trigger] joined.is_history(item_for, memory_states, accrue, added)
            &&& added is Err ==> r is Err && r->Err_0 == added->Err_0
            &&& added is Ok && rollover_hour is Err ==> r is Err && r->Err_0
                == rollover_hour->Err_0
            &&& added is Ok && rollover_hour is Ok ==> {
                &&& r is Ok
                &&& (r->Ok_0).added is Some
                &&& (r->Ok_0).added->0.added == added->Ok_0
            }
        };
    let map = added->Ok_0;
    let model_of = |cid: CardId| model;
    assert(all_put_to(joined, model_of)) by {
        assert forall|id: i64| #[trigger]
            joined.per_preset_fsrs@.contains_key(id) implies joined.per_preset_fsrs@[id] == model by {
            lemma_latest(built@, id, joined.per_preset_fsrs@, model);
        }
    }
    law_model_gives_number_of_states(item_for, span);
    lemma_days_of_history(joined, item_for, memory_states, accrue, span, model_of, parts, map);
}

/// A model that was built under an id is the one that all presets have.
proof fn lemma_latest(
    built: Seq<(DeckConfigId, Result<FSRS, AnkiError>)>,
    id: i64,
    map: Map<i64, FSRS>,
    model: FSRS,
)
    requires
        has_models_built(map, built),
        forall|i: int|
            0 <= i < built.len() ==> (#[trigger] built[i]).1 == Ok::<FSRS, AnkiError>(model),
        map.contains_key(id),
    ensures
        map[id] == model,
{
    let i: int = choose|i: int| 0 <= i < built.len() && (#[trigger] built[i]).0.0 == id;
    let last = lemma_last_with(built, id, built.len() as int, i);
    assert(built[last].0 == DeckConfigId(id));
    assert(Ok::<FSRS, AnkiError>(map[built[last].0.0]) == built[last].1);
}

proof fn lemma_last_with(
    built: Seq<(DeckConfigId, Result<FSRS, AnkiError>)>,
    id: i64,
    n: int,
    i: int,
) -> (last: int)
    requires
        0 <= i < n <= built.len(),
        built[i].0.0 == id,
    ensures
        0 <= last < n,
        built[last].0.0 == id,
        forall|j: int| last < j < n ==> (#[trigger] built[j]).0.0 != id,
    decreases n,
{
    if built[n - 1].0.0 == id {
        n - 1
    } else {
        lemma_last_with(built, id, n - 1, i)
    }
}

/// The statistics for a search are put together from what is read for it, and leave the
/// collection without a search and otherwise as it was.
pub proof fn law_statistics_of_search<V, G, FItem, FAccrue>(
    col: Collection,
    left: Collection,
    search: &str,
    days: u32,
    found: Vec<CardId>,
    timing: SchedTimingToday,
    utc_offset_secs: i32,
    built: Result<Vec<(DeckConfigId, Result<FSRS, AnkiError>)>, AnkiError>,
    item_for: FItem,
    accrue: FAccrue,
    graphs: G,
    rollover_hour: Result<u8, AnkiError>,
    r: Result<GraphsResponse<V, G>, AnkiError>,
) where
    FItem: Fn(&FSRS, Vec<RevlogEntry>, TimestampSecs) -> Result<
        Option<ItemForMemoryState<MemoryState, FsrsItem>>,
        AnkiError,
    >,
    FAccrue: Fn(Option<V>, &FSRS, &MemoryState, u32) -> V,
    G: Graphs,

    requires
        days > 0 ==> timing.next_day_at.0 - (days + 1) * 86400 >= i64::MIN,
        exists|c: &mut Collection|
            *c == col && *final(c) == left && #[trigger] call_ensures(
                Collection::graph_data_for_search::<V, G, FItem, FAccrue>,
                (
                    c,
                    search,
                    days,
                    Ok(found),
                    Ok(timing),
                    Ok(utc_offset_secs),
                    built,
                    &item_for,
                    &accrue,
                    &graphs,
                    rollover_hour,
                ),
                r,
            ),
    ensures
        exists|ctx: GraphsContext|
            #[trigger] holds_what_is_read(
                ctx,
                col,
                search@,
                days,
                found@,
                timing,
                utc_offset_secs,
            ) && is_answered(col, ctx, built, item_for, accrue, graphs, rollover_hour, r),
        is_left(col, left),
{
    let ctx = choose|ctx: GraphsContext|
        #[trigger] is_context(ctx, col, blank(search@), found@, days, timing, utc_offset_secs)
            && col.is_response(r, ctx, built, item_for, accrue, graphs, rollover_hour);
    lemma_context_holds(ctx, col, search@, days, found@, timing, utc_offset_secs);
    lemma_answered(col, ctx, built, item_for, accrue, graphs, rollover_hour, r);
}

/// A search that fails, then a day that cannot be told, then an offset that cannot be had, is what
/// the request is answered with.
pub proof fn law_first_failure_answers_statistics<V, G, FItem, FAccrue>(
    col: Collection,
    left: Collection,
    search: &str,
    days: u32,
    found: Result<Vec<CardId>, AnkiError>,
    timing: Result<SchedTimingToday, AnkiError>,
    utc_offset_secs: Result<i32, AnkiError>,
    built: Result<Vec<(DeckConfigId, Result<FSRS, AnkiError>)>, AnkiError>,
    item_for: FItem,
    accrue: FAccrue,
    graphs: G,
    rollover_hour: Result<u8, AnkiError>,
    r: Result<GraphsResponse<V, G>, AnkiError>,
) where
    FItem: Fn(&FSRS, Vec<RevlogEntry>, TimestampSecs) -> Result<
        Option<ItemForMemoryState<MemoryState, FsrsItem>>,
        AnkiError,
    >,
    FAccrue: Fn(Option<V>, &FSRS, &MemoryState, u32) -> V,
    G: Graphs,

    requires
        exists|c: &mut Collection|
            *c == col && *final(c) == left && #[trigger] call_ensures(
                Collection::graph_data_for_search::<V, G, FItem, FAccrue>,
                (
                    c,
                    search,
                    days,
                    found,
                    timing,
                    utc_offset_secs,
                    built,
                    &item_for,
                    &accrue,
                    &graphs,
                    rollover_hour,
                ),
                r,
            ),
    ensures
        found is Err ==> r is Err && r->Err_0 == found->Err_0 && left == col,
        found is Ok && timing is Err ==> r is Err && r->Err_0 == timing->Err_0,
        found is Ok && timing is Ok && utc_offset_secs is Err ==> r is Err && r->Err_0
            == utc_offset_secs->Err_0,
        found is Ok ==> is_left(col, left),
{
}

} // verus!
