//! What was remembered on each day, told by the ids of the entries.

use crate::calls::days::days_back;
use crate::calls::days::law_days_ago_are_whole_days;
use crate::calls::days::review_days;
use crate::card::CardId;
use crate::error::AnkiError;
use crate::graphs::by_card::cards_worth;
use crate::graphs::by_card::law_sum_is_total_of_reviews;
use crate::graphs::by_card::reviews_worth;
use crate::graphs::by_card::CardTurn;
use crate::graphs::comparison::feeds;
use crate::graphs::comparison::has_model;
use crate::graphs::comparison::is_spanned;
use crate::graphs::comparison::law_days_are_spanned;
use crate::graphs::comparison::law_history_is_reckoned;
use crate::graphs::comparison::law_model_gives_number_of_states;
use crate::graphs::comparison::number;
use crate::graphs::comparison::part_spans;
use crate::graphs::comparison::reckons;
use crate::graphs::comparison::turn_of_part;
use crate::graphs::comparison::turns_of;
use crate::graphs::comparison::whole;
use crate::graphs::comparison::Reckoning;
use crate::graphs::historical::adds_worth;
use crate::graphs::historical::is_answer;
use crate::graphs::historical::Term;
use crate::graphs::history::days_ago;
use crate::graphs::history::items_under;
use crate::graphs::history::CardItem;
use crate::graphs::history::CardLog;
use crate::graphs::history::ConfigGroup;
use crate::graphs::history::ItemForMemoryState;
use crate::graphs::memorized::MemorizedContext;
use crate::graphs::model::memory_states;
use crate::graphs::model::FsrsItem;
use crate::graphs::split::is_split;
use crate::revlog::RevlogEntry;
use crate::timestamp::TimestampSecs;
use fsrs::MemoryState;
use fsrs::FSRS;
use std::collections::HashMap;
use vstd::prelude::*;

verus! {

/// The card follows a preset with the model, or there is no other model.
pub open spec fn is_put_to<F>(ctx: MemorizedContext<F>, cid: CardId, model: F) -> bool {
    ||| {
        &&& ctx.card_config_map@.contains_key(cid.0)
        &&& ctx.per_preset_fsrs@.contains_key(ctx.card_config_map@[cid.0].0)
        &&& ctx.per_preset_fsrs@[ctx.card_config_map@[cid.0].0] == model
    }
    ||| forall|id: i64| #[trigger]
        ctx.per_preset_fsrs@.contains_key(id) ==> ctx.per_preset_fsrs@[id] == model
}

/// Every card of the review log is put to its model.
pub open spec fn all_put_to<F>(ctx: MemorizedContext<F>, model_of: spec_fn(CardId) -> F) -> bool {
    forall|i: int|
        0 <= i < ctx.graph_context.revlog@.len() ==> is_put_to(
            ctx,
            (#[trigger] ctx.graph_context.revlog@[i]).cid,
            model_of(ctx.graph_context.revlog@[i].cid),
        )
}

proof fn lemma_put_to<F>(ctx: MemorizedContext<F>, model_of: spec_fn(CardId) -> F)
    requires
        all_put_to(ctx, model_of),
    ensures
        forall|i: int|
            0 <= i < ctx.graph_context.revlog@.len() ==> has_model(
                ctx,
                model_of,
                (#[trigger] ctx.graph_context.revlog@[i]).cid,
            ),
{
}

/// A day lies between a review with a state, of those that the reckoning names for the part, and
/// the next of them, or today after the last.
pub open spec fn lies_between_reviews<F>(
    span: Reckoning<F, nat>,
    model: F,
    part: Seq<RevlogEntry>,
    next_day_start: TimestampSecs,
    ago: int,
) -> bool {
    let reckoned = span(model, part, next_day_start);
    reckoned is Some && exists|k: int|
        {
            &&& 0 <= k < (reckoned->0).1
            &&& k < (reckoned->0).0.len()
            &&& review_days((reckoned->0).0, k + 1, next_day_start) <= ago
            &&& ago < #[trigger] review_days((reckoned->0).0, k, next_day_start)
        }
}

proof fn lemma_part_spans<F>(
    span: Reckoning<F, nat>,
    model: F,
    part: Seq<RevlogEntry>,
    next_day_start: TimestampSecs,
    ago: int,
)
    ensures
        part_spans(span, model, part, next_day_start, ago) <==> lies_between_reviews(
            span,
            model,
            part,
            next_day_start,
            ago,
        ),
{
    let reckoned = span(model, part, next_day_start);
    if part_spans(span, model, part, next_day_start, ago) {
        let revlogs = (reckoned->0).0;
        let k: int = choose|k: int|
            {
                &&& 0 <= k < (reckoned->0).1
                &&& k < revlogs.len()
                &&& days_ago(revlogs, next_day_start, k + 1) <= ago < #[trigger] days_ago(
                    revlogs,
                    next_day_start,
                    k,
                )
            };
        law_days_ago_are_whole_days(revlogs, next_day_start, k);
        law_days_ago_are_whole_days(revlogs, next_day_start, k + 1);
        assert(review_days(revlogs, k, next_day_start) > ago);
    }
    if lies_between_reviews(span, model, part, next_day_start, ago) {
        let revlogs = (reckoned->0).0;
        let k: int = choose|k: int|
            {
                &&& 0 <= k < (reckoned->0).1
                &&& k < revlogs.len()
                &&& review_days(revlogs, k + 1, next_day_start) <= ago
                &&& ago < #[trigger] review_days(revlogs, k, next_day_start)
            };
        law_days_ago_are_whole_days(revlogs, next_day_start, k);
        law_days_ago_are_whole_days(revlogs, next_day_start, k + 1);
        assert(days_ago(revlogs, next_day_start, k) > ago);
    }
}

/// A part of the review log has the day between its reviews.
pub open spec fn some_part_has<F>(
    span: Reckoning<F, nat>,
    model_of: spec_fn(CardId) -> F,
    parts: Seq<Seq<RevlogEntry>>,
    next_day_start: TimestampSecs,
    ago: int,
) -> bool {
    exists|i: int|
        0 <= i < parts.len() && lies_between_reviews(
            span,
            model_of(parts[i][0].cid),
            #[trigger] parts[i],
            next_day_start,
            ago,
        )
}

proof fn lemma_some_part_has<F>(
    span: Reckoning<F, nat>,
    model_of: spec_fn(CardId) -> F,
    parts: Seq<Seq<RevlogEntry>>,
    next_day_start: TimestampSecs,
    ago: int,
)
    ensures
        is_spanned(span, model_of, parts, next_day_start, ago) <==> some_part_has(
            span,
            model_of,
            parts,
            next_day_start,
            ago,
        ),
{
    assert forall|i: int| 0 <= i < parts.len() implies (part_spans(
        span,
        model_of(parts[i][0].cid),
        #[trigger] parts[i],
        next_day_start,
        ago,
    ) <==> lies_between_reviews(
        span,
        model_of(parts[i][0].cid),
        parts[i],
        next_day_start,
        ago,
    )) by {
        lemma_part_spans(span, model_of(parts[i][0].cid), parts[i], next_day_start, ago);
    }
}

/// The days of a history are those that lie between reviews.
pub proof fn lemma_days_of_history<F, S, I, M, V, FItem, FBatch, FAccrue>(
    ctx: MemorizedContext<F>,
    item_for: FItem,
    batch: FBatch,
    accrue: FAccrue,
    span: Reckoning<F, nat>,
    model_of: spec_fn(CardId) -> F,
    parts: Seq<Seq<RevlogEntry>>,
    map: HashMap<i32, V>,
) where
    FItem: Fn(&F, Vec<RevlogEntry>, TimestampSecs) -> Result<
        Option<ItemForMemoryState<S, I>>,
        AnkiError,
    >,
    FBatch: Fn(&F, Vec<I>, Vec<Option<S>>) -> Result<Vec<Vec<M>>, AnkiError>,
    FAccrue: Fn(Option<V>, &F, &M, u32) -> V,

    requires
        ctx.is_history(item_for, batch, accrue, Ok(map)),
        reckons(item_for, batch, number(), span),
        is_split(parts, ctx.graph_context.revlog@),
        all_put_to(ctx, model_of),
    ensures
        forall|day: i32| #[trigger]
            map@.contains_key(day) <==> some_part_has(
                span,
                model_of,
                parts,
                ctx.graph_context.next_day_start,
                days_back(day),
            ),
{
    lemma_put_to(ctx, model_of);
    law_days_are_spanned(ctx, item_for, batch, accrue, span, model_of, parts, map);
    let at = ctx.graph_context.next_day_start;
    assert forall|day: i32| #[trigger] map@.contains_key(day) <==> some_part_has(
        span,
        model_of,
        parts,
        at,
        days_back(day),
    ) by {
        lemma_some_part_has(span, model_of, parts, at, days_back(day));
        assert(days_back(day) == crate::graphs::by_card::ago_of(day));
    }
}

/// A day has a sum if and only if it lies between a review of some card, with a state, and the next
/// review of that card, or today after the last; the days of a review are counted from its id. Long
/// ago is no reason to leave a day out.
pub proof fn law_days_with_a_sum<F, S, I, M, V, FItem, FBatch, FAccrue>(
    ctx: MemorizedContext<F>,
    item_for: FItem,
    batch: FBatch,
    accrue: FAccrue,
    span: Reckoning<F, nat>,
    model_of: spec_fn(CardId) -> F,
    parts: Seq<Seq<RevlogEntry>>,
    map: HashMap<i32, V>,
) where
    FItem: Fn(&F, Vec<RevlogEntry>, TimestampSecs) -> Result<
        Option<ItemForMemoryState<S, I>>,
        AnkiError,
    >,
    FBatch: Fn(&F, Vec<I>, Vec<Option<S>>) -> Result<Vec<Vec<M>>, AnkiError>,
    FAccrue: Fn(Option<V>, &F, &M, u32) -> V,

    requires
        call_ensures(
            MemorizedContext::<F>::history_with::<S, I, M, V, FItem, FBatch, FAccrue>,
            (&ctx, &item_for, &batch, &accrue),
            Ok(map),
        ),
        reckons(item_for, batch, number(), span),
        is_split(parts, ctx.graph_context.revlog@),
        all_put_to(ctx, model_of),
    ensures
        forall|day: i32| #[trigger]
            map@.contains_key(day) <==> some_part_has(
                span,
                model_of,
                parts,
                ctx.graph_context.next_day_start,
                days_back(day),
            ),
{
    lemma_days_of_history(ctx, item_for, batch, accrue, span, model_of, parts, map);
}

/// What the state after review `k` is worth on the day: nothing, unless the day is from the next
/// review, or today, to before the review.
pub open spec fn share_of_review<F, M>(
    worth: spec_fn(Term<F, M>) -> int,
    model: F,
    revlogs: Seq<RevlogEntry>,
    states: Seq<M>,
    next_day_start: TimestampSecs,
    k: int,
    day: i32,
) -> int {
    let next = review_days(revlogs, k + 1, next_day_start);
    if k < states.len() && next <= days_back(day) < review_days(revlogs, k, next_day_start) {
        worth(
            Term {
                day,
                model,
                state: states[k],
                elapsed: (days_back(day) - next) as u32,
            },
        )
    } else {
        0
    }
}

/// What the states after the first `n` reviews are worth on the day.
pub open spec fn share_of_reviews<F, M>(
    worth: spec_fn(Term<F, M>) -> int,
    model: F,
    revlogs: Seq<RevlogEntry>,
    states: Seq<M>,
    next_day_start: TimestampSecs,
    n: int,
    day: i32,
) -> int
    decreases n,
{
    if n <= 0 {
        0
    } else {
        share_of_reviews(worth, model, revlogs, states, next_day_start, n - 1, day)
            + share_of_review(worth, model, revlogs, states, next_day_start, n - 1, day)
    }
}

/// What the first `n` parts of the review log are worth on the day.
pub open spec fn share_of_parts<F, M>(
    worth: spec_fn(Term<F, M>) -> int,
    reckon: Reckoning<F, Seq<M>>,
    model_of: spec_fn(CardId) -> F,
    parts: Seq<Seq<RevlogEntry>>,
    next_day_start: TimestampSecs,
    n: int,
    day: i32,
) -> int
    decreases n,
{
    if n <= 0 {
        0
    } else {
        let earlier = share_of_parts(worth, reckon, model_of, parts, next_day_start, n - 1, day);
        let model = model_of(parts[n - 1][0].cid);
        match reckon(model, parts[n - 1], next_day_start) {
            Some((revlogs, states)) => earlier + share_of_reviews(
                worth,
                model,
                revlogs,
                states,
                next_day_start,
                revlogs.len() as int,
                day,
            ),
            None => earlier,
        }
    }
}

proof fn lemma_share_of_reviews<F, M>(
    worth: spec_fn(Term<F, M>) -> int,
    turn: CardTurn<F, M>,
    next_day_start: TimestampSecs,
    n: int,
    day: i32,
)
    requires
        n <= turn.revlogs.len(),
    ensures
        reviews_worth(worth, turn, next_day_start, n, day) == share_of_reviews(
            worth,
            turn.model,
            turn.revlogs,
            turn.states,
            next_day_start,
            n,
            day,
        ),
    decreases n,
{
    if n > 0 {
        lemma_share_of_reviews(worth, turn, next_day_start, n - 1, day);
        law_days_ago_are_whole_days(turn.revlogs, next_day_start, n);
        law_days_ago_are_whole_days(turn.revlogs, next_day_start, n - 1);
    }
}

proof fn lemma_share_of_parts<F, M>(
    worth: spec_fn(Term<F, M>) -> int,
    reckon: Reckoning<F, Seq<M>>,
    model_of: spec_fn(CardId) -> F,
    parts: Seq<Seq<RevlogEntry>>,
    next_day_start: TimestampSecs,
    n: int,
    day: i32,
)
    requires
        0 <= n <= parts.len(),
    ensures
        cards_worth(
            worth,
            turns_of(reckon, model_of, parts, next_day_start),
            next_day_start,
            n,
            day,
        ) == share_of_parts(worth, reckon, model_of, parts, next_day_start, n, day),
    decreases n,
{
    if n > 0 {
        lemma_share_of_parts(worth, reckon, model_of, parts, next_day_start, n - 1, day);
        let part = parts[n - 1];
        let turn = turn_of_part(reckon, model_of(part[0].cid), part, next_day_start);
        assert(turns_of(reckon, model_of, parts, next_day_start)[n - 1] == turn);
        if let Some(turn) = turn {
            lemma_share_of_reviews(worth, turn, next_day_start, turn.revlogs.len() as int, day);
        }
    }
}

proof fn lemma_sum_of_history<F, S, I, M, V, FItem, FBatch, FAccrue>(
    ctx: MemorizedContext<F>,
    item_for: FItem,
    batch: FBatch,
    accrue: FAccrue,
    reckon: Reckoning<F, Seq<M>>,
    model_of: spec_fn(CardId) -> F,
    parts: Seq<Seq<RevlogEntry>>,
    worth: spec_fn(Term<F, M>) -> int,
    value: spec_fn(V) -> int,
    cap: int,
    map: HashMap<i32, V>,
    day: i32,
) where
    FItem: Fn(&F, Vec<RevlogEntry>, TimestampSecs) -> Result<
        Option<ItemForMemoryState<S, I>>,
        AnkiError,
    >,
    FBatch: Fn(&F, Vec<I>, Vec<Option<S>>) -> Result<Vec<Vec<M>>, AnkiError>,
    FAccrue: Fn(Option<V>, &F, &M, u32) -> V,

    requires
        ctx.is_history(item_for, batch, accrue, Ok(map)),
        reckons(item_for, batch, whole(), reckon),
        is_split(parts, ctx.graph_context.revlog@),
        all_put_to(ctx, model_of),
        adds_worth(accrue, worth, value, cap),
        map@.contains_key(day),
        share_of_parts(
            worth,
            reckon,
            model_of,
            parts,
            ctx.graph_context.next_day_start,
            parts.len() as int,
            day,
        ) <= cap,
    ensures
        value(map@[day]) == share_of_parts(
            worth,
            reckon,
            model_of,
            parts,
            ctx.graph_context.next_day_start,
            parts.len() as int,
            day,
        ),
{
    let at = ctx.graph_context.next_day_start;
    lemma_put_to(ctx, model_of);
    law_history_is_reckoned(ctx, item_for, batch, accrue, reckon, model_of, parts, map);
    lemma_share_of_parts(worth, reckon, model_of, parts, at, parts.len() as int, day);
    law_sum_is_total_of_reviews(
        accrue,
        worth,
        value,
        cap,
        turns_of(reckon, model_of, parts, at),
        at,
        map@,
        day,
    );
}

/// The sum of a day is the total, over all cards and their reviews with a state, of what the state
/// is worth on that day after the days by which it precedes the next review; the days of a review
/// are counted from its id.
pub proof fn law_sum_of_a_day<F, S, I, M, V, FItem, FBatch, FAccrue>(
    ctx: MemorizedContext<F>,
    item_for: FItem,
    batch: FBatch,
    accrue: FAccrue,
    reckon: Reckoning<F, Seq<M>>,
    model_of: spec_fn(CardId) -> F,
    parts: Seq<Seq<RevlogEntry>>,
    worth: spec_fn(Term<F, M>) -> int,
    value: spec_fn(V) -> int,
    cap: int,
    map: HashMap<i32, V>,
    day: i32,
) where
    FItem: Fn(&F, Vec<RevlogEntry>, TimestampSecs) -> Result<
        Option<ItemForMemoryState<S, I>>,
        AnkiError,
    >,
    FBatch: Fn(&F, Vec<I>, Vec<Option<S>>) -> Result<Vec<Vec<M>>, AnkiError>,
    FAccrue: Fn(Option<V>, &F, &M, u32) -> V,

    requires
        call_ensures(
            MemorizedContext::<F>::history_with::<S, I, M, V, FItem, FBatch, FAccrue>,
            (&ctx, &item_for, &batch, &accrue),
            Ok(map),
        ),
        reckons(item_for, batch, whole(), reckon),
        is_split(parts, ctx.graph_context.revlog@),
        all_put_to(ctx, model_of),
        adds_worth(accrue, worth, value, cap),
        map@.contains_key(day),
        share_of_parts(
            worth,
            reckon,
            model_of,
            parts,
            ctx.graph_context.next_day_start,
            parts.len() as int,
            day,
        ) <= cap,
    ensures
        value(map@[day]) == share_of_parts(
            worth,
            reckon,
            model_of,
            parts,
            ctx.graph_context.next_day_start,
            parts.len() as int,
            day,
        ),
{
    lemma_sum_of_history(
        ctx,
        item_for,
        batch,
        accrue,
        reckon,
        model_of,
        parts,
        worth,
        value,
        cap,
        map,
        day,
    );
}

/// With the memory model of `fsrs`, the sum of a day is the total, over all cards and their reviews with a state, of what the state
/// is worth on that day after the days by which it precedes the next review; the days of a review
/// are counted from its id.
pub proof fn law_sum_of_a_day_by_fsrs<V, FItem, FAccrue>(
    ctx: MemorizedContext<FSRS>,
    item_for: FItem,
    accrue: FAccrue,
    reckon: Reckoning<FSRS, Seq<MemoryState>>,
    model_of: spec_fn(CardId) -> FSRS,
    parts: Seq<Seq<RevlogEntry>>,
    worth: spec_fn(Term<FSRS, MemoryState>) -> int,
    value: spec_fn(V) -> int,
    cap: int,
    map: HashMap<i32, V>,
    day: i32,
) where
    FItem: Fn(&FSRS, Vec<RevlogEntry>, TimestampSecs) -> Result<
        Option<ItemForMemoryState<MemoryState, FsrsItem>>,
        AnkiError,
    >,
    FAccrue: Fn(Option<V>, &FSRS, &MemoryState, u32) -> V,

    requires
        call_ensures(
            MemorizedContext::<FSRS>::historical_fsrs::<V, FItem, FAccrue>,
            (&ctx, &item_for, &accrue),
            Ok(map),
        ),
        reckons(item_for, memory_states, whole(), reckon),
        is_split(parts, ctx.graph_context.revlog@),
        all_put_to(ctx, model_of),
        adds_worth(accrue, worth, value, cap),
        map@.contains_key(day),
        share_of_parts(
            worth,
            reckon,
            model_of,
            parts,
            ctx.graph_context.next_day_start,
            parts.len() as int,
            day,
        ) <= cap,
    ensures
        value(map@[day]) == share_of_parts(
            worth,
            reckon,
            model_of,
            parts,
            ctx.graph_context.next_day_start,
            parts.len() as int,
            day,
        ),
{
    lemma_sum_of_history(
        ctx,
        item_for,
        memory_states,
        accrue,
        reckon,
        model_of,
        parts,
        worth,
        value,
        cap,
        map,
        day,
    );
}

/// The reckoning fails only with what the states of some items, put to one of the models, failed
/// with; without entries it does not fail and there is nothing.
pub proof fn law_history_fails_with_states<F, S, I, M, V, FItem, FBatch, FAccrue>(
    ctx: MemorizedContext<F>,
    item_for: FItem,
    batch: FBatch,
    accrue: FAccrue,
    r: Result<HashMap<i32, V>, AnkiError>,
) where
    FItem: Fn(&F, Vec<RevlogEntry>, TimestampSecs) -> Result<
        Option<ItemForMemoryState<S, I>>,
        AnkiError,
    >,
    FBatch: Fn(&F, Vec<I>, Vec<Option<S>>) -> Result<Vec<Vec<M>>, AnkiError>,
    FAccrue: Fn(Option<V>, &F, &M, u32) -> V,

    requires
        call_ensures(
            MemorizedContext::<F>::history_with::<S, I, M, V, FItem, FBatch, FAccrue>,
            (&ctx, &item_for, &batch, &accrue),
            r,
        ),
    ensures
        r is Err ==> exists|model: F, items: Vec<I>, starting_states: Vec<Option<S>>, id: i64|
            {
                &&& #[trigger] ctx.per_preset_fsrs@.contains_key(id)
                &&& ctx.per_preset_fsrs@[id] == model
                &&& items@.len() == starting_states@.len()
                &&& items@.len() > 0
                &&& #[trigger] call_ensures(
                    batch,
                    (&model, items, starting_states),
                    Err::<Vec<Vec<M>>, AnkiError>(r->Err_0),
                )
            },
        ctx.graph_context.revlog@.len() == 0 ==> r is Ok && (r->Ok_0)@.len() == 0,
{
    if let Err(e) = r {
        let (fallback, logs, items): (F, Seq<CardLog>, Seq<CardItem<S, I, AnkiError>>) = choose|
            fallback: F,
            logs: Seq<CardLog>,
            items: Seq<CardItem<S, I, AnkiError>>,
        |
            {
                &&& logs.len() > 0 ==> ctx.is_model_for(None, fallback)
                &&& crate::graphs::history::is_split_by_card(logs, ctx.graph_context.revlog@)
                &&& #[trigger] ctx.are_items_of(fallback, item_for, logs, items)
                &&& ctx.is_summed(fallback, batch, accrue, items, r)
            };
        let (config_id, model, group): (i64, F, ConfigGroup<S, I>) = choose|
            config_id: i64,
            model: F,
            group: ConfigGroup<S, I>,
        | #[trigger]
            ctx.is_turn(fallback, items, config_id, model, group) && is_answer(
                batch,
                model,
                group,
                Err::<Vec<Vec<M>>, AnkiError>(e),
            );
        assert(items.len() > 0) by {
            if items.len() == 0 {
                assert(items_under(ctx, items, config_id).len() == 0);
            }
        }
        assert(ctx.is_model_for(None, fallback));
        assert(call_ensures(
            batch,
            (&model, group.fsrs_items, group.starting_states),
            Err::<Vec<Vec<M>>, AnkiError>(e),
        ));
        if ctx.per_preset_fsrs@.contains_key(config_id) {
            assert(ctx.per_preset_fsrs@[config_id] == model);
        } else {
            let id: i64 = choose|id: i64| #[trigger]
                ctx.per_preset_fsrs@.contains_key(id) && fallback == ctx.per_preset_fsrs@[id];
            assert(ctx.per_preset_fsrs@[id] == model);
        }
    }
}

/// With the memory model of `fsrs`, a day has a sum if and only if it lies between a review of
/// some card, with a state, and the next, where a card has the state to start from, if there is
/// one, and a state after each review that the model is fed.
pub proof fn law_days_with_a_sum_by_fsrs<V, FItem, FAccrue>(
    ctx: MemorizedContext<FSRS>,
    item_for: FItem,
    accrue: FAccrue,
    span: Reckoning<FSRS, nat>,
    model_of: spec_fn(CardId) -> FSRS,
    parts: Seq<Seq<RevlogEntry>>,
    map: HashMap<i32, V>,
) where
    FItem: Fn(&FSRS, Vec<RevlogEntry>, TimestampSecs) -> Result<
        Option<ItemForMemoryState<MemoryState, FsrsItem>>,
        AnkiError,
    >,
    FAccrue: Fn(Option<V>, &FSRS, &MemoryState, u32) -> V,

    requires
        call_ensures(
            MemorizedContext::<FSRS>::historical_fsrs::<V, FItem, FAccrue>,
            (&ctx, &item_for, &accrue),
            Ok(map),
        ),
        feeds(item_for, span),
        is_split(parts, ctx.graph_context.revlog@),
        all_put_to(ctx, model_of),
    ensures
        forall|day: i32| #[trigger]
            map@.contains_key(day) <==> some_part_has(
                span,
                model_of,
                parts,
                ctx.graph_context.next_day_start,
                days_back(day),
            ),
{
    law_model_gives_number_of_states(item_for, span);
    lemma_days_of_history(ctx, item_for, memory_states, accrue, span, model_of, parts, map);
}

/// With the memory model of `fsrs`, the reckoning fails only by invalid input, and not at all
/// without entries, where there is nothing.
pub proof fn law_history_by_fsrs_fails_with_input<V, FItem, FAccrue>(
    ctx: MemorizedContext<FSRS>,
    item_for: FItem,
    accrue: FAccrue,
    r: Result<HashMap<i32, V>, AnkiError>,
) where
    FItem: Fn(&FSRS, Vec<RevlogEntry>, TimestampSecs) -> Result<
        Option<ItemForMemoryState<MemoryState, FsrsItem>>,
        AnkiError,
    >,
    FAccrue: Fn(Option<V>, &FSRS, &MemoryState, u32) -> V,

    requires
        call_ensures(
            MemorizedContext::<FSRS>::historical_fsrs::<V, FItem, FAccrue>,
            (&ctx, &item_for, &accrue),
            r,
        ),
    ensures
        r is Err ==> r->Err_0 is InvalidInput,
        ctx.graph_context.revlog@.len() == 0 ==> r is Ok && (r->Ok_0)@.len() == 0,
{
    if let Err(e) = r {
        let (fallback, logs, items): (
            FSRS,
            Seq<CardLog>,
            Seq<CardItem<MemoryState, FsrsItem, AnkiError>>,
        ) = choose|
            fallback: FSRS,
            logs: Seq<CardLog>,
            items: Seq<CardItem<MemoryState, FsrsItem, AnkiError>>,
        |
            {
                &&& logs.len() > 0 ==> ctx.is_model_for(None, fallback)
                &&& crate::graphs::history::is_split_by_card(logs, ctx.graph_context.revlog@)
                &&& #[trigger] ctx.are_items_of(fallback, item_for, logs, items)
                &&& ctx.is_summed(fallback, memory_states, accrue, items, r)
            };
        let (config_id, model, group): (
            i64,
            FSRS,
            ConfigGroup<MemoryState, FsrsItem>,
        ) = choose|
            config_id: i64,
            model: FSRS,
            group: ConfigGroup<MemoryState, FsrsItem>,
        | #[trigger]
            ctx.is_turn(fallback, items, config_id, model, group) && is_answer(
                memory_states,
                model,
                group,
                Err::<Vec<Vec<MemoryState>>, AnkiError>(e),
            );
        assert(call_ensures(
            memory_states,
            (&model, group.fsrs_items, group.starting_states),
            Err::<Vec<Vec<MemoryState>>, AnkiError>(e),
        ));
    }
}

} // verus!
