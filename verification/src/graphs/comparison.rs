//! How what was remembered compares between review logs and between presets.

use crate::card::CardId;
use crate::error::AnkiError;
use crate::graphs::by_card::adds_up_by_card;
use crate::graphs::by_card::ago_of;
use crate::graphs::by_card::all_tidy;
use crate::graphs::by_card::cards_back;
use crate::graphs::by_card::cards_worth;
use crate::graphs::by_card::counts_on;
use crate::graphs::by_card::has_item;
use crate::graphs::by_card::is_counted;
use crate::graphs::by_card::law_card_counts_once_a_day;
use crate::graphs::by_card::law_day_has_sum_between_reviews;
use crate::graphs::by_card::law_history_is_by_card;
use crate::graphs::by_card::law_sum_is_total_of_reviews;
use crate::graphs::by_card::place_of;
use crate::graphs::by_card::reviews_worth;
use crate::graphs::by_card::turn_at;
use crate::graphs::by_card::CardTurn;
use crate::graphs::historical::adds_up;
use crate::graphs::historical::adds_worth;
use crate::graphs::historical::is_answer;
use crate::graphs::historical::terms_of_runs;
use crate::graphs::historical::GroupRun;
use crate::graphs::historical::Term;
use crate::graphs::history::days_ago;
use crate::graphs::history::is_card_log;
use crate::graphs::history::is_split_by_card;
use crate::graphs::history::items_under;
use crate::graphs::history::joined;
use crate::graphs::history::CardItem;
use crate::graphs::history::CardLog;
use crate::graphs::history::ConfigGroup;
use crate::graphs::history::ItemForMemoryState;
use crate::graphs::memorized::MemorizedContext;
use crate::graphs::model::is_state_list;
use crate::graphs::model::memory_states;
use crate::graphs::model::FsrsItem;
use crate::graphs::split::cards_of;
use crate::graphs::split::is_adjacent;
use crate::graphs::split::is_part;
use crate::graphs::split::is_split;
use crate::graphs::split::law_adjacent_entries_make_one_log;
use crate::graphs::split::lemma_logs_are_parts;
use crate::graphs::split::lemma_part_stands_at;
use crate::graphs::split::lemma_split_of_both;
use crate::graphs::split::lemma_split_unique;
use crate::graphs::split::parts_of;
use crate::revlog::RevlogEntry;
use crate::timestamp::TimestampSecs;
use fsrs::MemoryState;
use fsrs::FSRS;
use std::collections::HashMap;
use vstd::prelude::*;

verus! {

/// The two have the same models, presets and time.
pub open spec fn same_but_log<F>(a: MemorizedContext<F>, b: MemorizedContext<F>) -> bool {
    &&& a.per_preset_fsrs@ == b.per_preset_fsrs@
    &&& a.card_config_map@ == b.card_config_map@
    &&& a.graph_context.next_day_start == b.graph_context.next_day_start
}

/// Accepts the entries of other cards.
pub open spec fn of_others(cid: CardId) -> spec_fn(RevlogEntry) -> bool {
    |e: RevlogEntry| e.cid != cid
}

/// Accepts the logs of other cards.
spec fn logs_of_others(cid: CardId) -> spec_fn(CardLog) -> bool {
    |log: CardLog| log.cid != cid
}

/// Accepts the items of other cards.
spec fn items_of_others<S, I>(cid: CardId) -> spec_fn(CardItem<S, I, AnkiError>) -> bool {
    |item: CardItem<S, I, AnkiError>| item.0 != cid
}

proof fn lemma_filter_all_or_none<T>(s: Seq<T>, wanted: spec_fn(T) -> bool)
    ensures
        (forall|i: int| 0 <= i < s.len() ==> wanted(#[trigger] s[i])) ==> s.filter(wanted) == s,
        (forall|i: int| 0 <= i < s.len() ==> !wanted(#[trigger] s[i])) ==> s.filter(wanted).len()
            == 0,
    decreases s.len(),
{
    reveal(Seq::filter);
    if s.len() > 0 {
        let fewer = s.drop_last();
        lemma_filter_all_or_none(fewer, wanted);
        assert(s =~= fewer.push(s.last()));
        assert(s[s.len() - 1] == s.last());
        if forall|i: int| 0 <= i < s.len() ==> wanted(#[trigger] s[i]) {
            assert forall|i: int| 0 <= i < fewer.len() implies wanted(#[trigger] fewer[i]) by {
                assert(wanted(s[i]));
            }
        }
        if forall|i: int| 0 <= i < s.len() ==> !wanted(#[trigger] s[i]) {
            assert forall|i: int| 0 <= i < fewer.len() implies !wanted(#[trigger] fewer[i]) by {
                assert(!wanted(s[i]));
            }
        }
    }
}

/// The entries of the logs of the other cards are the entries of the other cards.
proof fn lemma_joined_others(logs: Seq<CardLog>, cid: CardId)
    requires
        forall|i: int| 0 <= i < logs.len() ==> is_card_log(#[trigger] logs[i]),
    ensures
        joined(logs.filter(logs_of_others(cid))) == joined(logs).filter(of_others(cid)),
    decreases logs.len(),
{
    reveal(Seq::filter);
    if logs.len() > 0 {
        let fewer = logs.drop_last();
        let last = logs.last();
        assert forall|i: int| 0 <= i < fewer.len() implies is_card_log(#[trigger] fewer[i]) by {
            assert(is_card_log(logs[i]));
        }
        lemma_joined_others(fewer, cid);
        Seq::filter_distributes_over_add(joined(fewer), last.entries@, of_others(cid));
        assert(is_card_log(logs[logs.len() - 1]));
        lemma_filter_all_or_none(last.entries@, of_others(cid));
        let kept = fewer.filter(logs_of_others(cid));
        if last.cid != cid {
            assert(logs.filter(logs_of_others(cid)) == kept.push(last));
            assert(kept.push(last).drop_last() =~= kept);
            assert(last.entries@.filter(of_others(cid)) == last.entries@);
        } else {
            assert(logs.filter(logs_of_others(cid)) == kept);
            assert(last.entries@.filter(of_others(cid)) =~= Seq::<RevlogEntry>::empty());
            assert(joined(kept) + Seq::<RevlogEntry>::empty() =~= joined(kept));
        }
    }
}

/// The logs of the other cards are among the logs, and of different cards where these are.
proof fn lemma_logs_of_others(logs: Seq<CardLog>, cid: CardId)
    requires
        forall|i: int, j: int|
            0 <= i < j < logs.len() ==> (#[trigger] logs[i]).cid != (#[trigger] logs[j]).cid,
        forall|i: int| 0 <= i < logs.len() ==> is_card_log(#[trigger] logs[i]),
    ensures
        ({
            let kept = logs.filter(logs_of_others(cid));
            &&& forall|i: int, j: int|
                0 <= i < j < kept.len() ==> (#[trigger] kept[i]).cid != (#[trigger] kept[j]).cid
            &&& forall|i: int|
                0 <= i < kept.len() ==> is_card_log(#[trigger] kept[i]) && logs.contains(kept[i])
        }),
    decreases logs.len(),
{
    reveal(Seq::filter);
    if logs.len() > 0 {
        let fewer = logs.drop_last();
        let last = logs.last();
        assert forall|i: int| 0 <= i < fewer.len() implies is_card_log(#[trigger] fewer[i])
            && fewer[i].cid != last.cid by {
            assert(is_card_log(logs[i]));
            assert(logs[i].cid != logs[logs.len() - 1].cid);
        }
        assert forall|i: int, j: int| 0 <= i < j < fewer.len() implies (#[trigger] fewer[i]).cid != (
        #[trigger] fewer[j]).cid by {
            assert(logs[i].cid != logs[j].cid);
        }
        lemma_logs_of_others(fewer, cid);
        let before = fewer.filter(logs_of_others(cid));
        let kept = logs.filter(logs_of_others(cid));
        assert(is_card_log(logs[logs.len() - 1]));
        assert forall|i: int| 0 <= i < before.len() implies logs.contains(#[trigger] before[i])
            && before[i].cid != last.cid by {
            let k: int = choose|k: int| 0 <= k < fewer.len() && fewer[k] == before[i];
            assert(logs[k] == before[i]);
        }
        assert forall|i: int| 0 <= i < kept.len() implies is_card_log(#[trigger] kept[i])
            && logs.contains(kept[i]) by {
            if i < before.len() {
                assert(kept[i] == before[i]);
            } else {
                assert(kept[i] == logs[logs.len() - 1]);
            }
        }
        assert forall|i: int, j: int| 0 <= i < j < kept.len() implies (#[trigger] kept[i]).cid != (
        #[trigger] kept[j]).cid by {
            assert(kept[i] == before[i]);
            if j < before.len() {
                assert(kept[j] == before[j]);
            } else {
                assert(kept[j] == last);
            }
        }
    }
}

/// The items of the other cards are those of the logs of the other cards, and where the card has
/// no item, they are the same under each preset.
proof fn lemma_items_of_others<F, S, I, FItem>(
    ctx: MemorizedContext<F>,
    without: MemorizedContext<F>,
    fallback: F,
    item_for: FItem,
    cid: CardId,
    logs: Seq<CardLog>,
    items: Seq<CardItem<S, I, AnkiError>>,
) where
    FItem: Fn(&F, Vec<RevlogEntry>, TimestampSecs) -> Result<
        Option<ItemForMemoryState<S, I>>,
        AnkiError,
    >,

    requires
        same_but_log(ctx, without),
        ctx.are_items_of(fallback, item_for, logs, items),
        forall|i: int|
            0 <= i < items.len() && (#[trigger] items[i]).0 == cid ==> !has_item(items[i]),
    ensures
        without.are_items_of(
            fallback,
            item_for,
            logs.filter(logs_of_others(cid)),
            items.filter(items_of_others(cid)),
        ),
        forall|config_id: i64| #[trigger]
            items_under(without, items.filter(items_of_others(cid)), config_id) == items_under(
                ctx,
                items,
                config_id,
            ),
    decreases logs.len(),
{
    reveal(Seq::filter);
    if logs.len() > 0 {
        let fewer_logs = logs.drop_last();
        let fewer = items.drop_last();
        let n: int = logs.len() - 1;
        assert forall|i: int| 0 <= i < fewer.len() implies ctx.is_item_of(
            fallback,
            item_for,
            fewer_logs[i],
            #[trigger] fewer[i],
        ) by {
            assert(ctx.is_item_of(fallback, item_for, logs[i], items[i]));
        }
        assert forall|i: int| 0 <= i < fewer.len() && (#[trigger] fewer[i]).0 == cid implies !has_item(
            fewer[i],
        ) by {
            assert(fewer[i] == items[i]);
        }
        lemma_items_of_others(ctx, without, fallback, item_for, cid, fewer_logs, fewer);
        let kept_logs = fewer_logs.filter(logs_of_others(cid));
        let kept = fewer.filter(items_of_others(cid));
        assert(ctx.is_item_of(fallback, item_for, logs[n], items[n]));
        assert(without.is_item_of(fallback, item_for, logs[n], items[n])) by {
            let (model, outcome): (F, Result<Option<ItemForMemoryState<S, I>>, AnkiError>) =
                choose|model: F, outcome: Result<Option<ItemForMemoryState<S, I>>, AnkiError>|
                {
                    &&& model == ctx.model_or(ctx.preset_of_card(logs[n].cid), fallback)
                    &&& outcome == items[n].1
                    &&& #[trigger] call_ensures(
                        item_for,
                        (&model, logs[n].entries, ctx.graph_context.next_day_start),
                        outcome,
                    )
                };
            assert(model == without.model_or(without.preset_of_card(logs[n].cid), fallback));
        }
        let all_logs = logs.filter(logs_of_others(cid));
        let all = items.filter(items_of_others(cid));
        if logs[n].cid != cid {
            assert(all_logs == kept_logs.push(logs[n]));
            assert(all == kept.push(items[n]));
            assert(all.drop_last() =~= kept);
        } else {
            assert(all_logs == kept_logs);
            assert(all == kept);
        }
        assert forall|i: int| 0 <= i < all.len() implies without.is_item_of(
            fallback,
            item_for,
            all_logs[i],
            #[trigger] all[i],
        ) by {
            if i < kept.len() {
                assert(without.is_item_of(fallback, item_for, kept_logs[i], kept[i]));
            }
        }
        assert forall|config_id: i64| #[trigger]
            items_under(without, all, config_id) == items_under(ctx, items, config_id) by {
            assert(items_under(without, kept, config_id) == items_under(ctx, fewer, config_id));
            assert(items.last() == items[n]);
        }
    } else {
        assert forall|config_id: i64| #[trigger]
            items_under(without, items.filter(items_of_others(cid)), config_id) == items_under(
                ctx,
                items,
                config_id,
            ) by {}
    }
}

/// A card for whose log there is no item, or an error, leaves everything as if it were not in the
/// review log: what comes of the log with the card can come of the log without it.
pub proof fn law_card_without_item_changes_nothing<F, S, I, M, V, FItem, FBatch, FAccrue>(
    ctx: MemorizedContext<F>,
    without: MemorizedContext<F>,
    item_for: FItem,
    batch: FBatch,
    accrue: FAccrue,
    cid: CardId,
    r: Result<HashMap<i32, V>, AnkiError>,
) where
    FItem: Fn(&F, Vec<RevlogEntry>, TimestampSecs) -> Result<
        Option<ItemForMemoryState<S, I>>,
        AnkiError,
    >,
    FBatch: Fn(&F, Vec<I>, Vec<Option<S>>) -> Result<Vec<Vec<M>>, AnkiError>,
    FAccrue: Fn(Option<V>, &F, &M, u32) -> V,

    requires
        same_but_log(ctx, without),
        without.graph_context.revlog@ == ctx.graph_context.revlog@.filter(of_others(cid)),
        is_adjacent(ctx.graph_context.revlog@),
        forall|
            model: F,
            log: Vec<RevlogEntry>,
            outcome: Result<Option<ItemForMemoryState<S, I>>, AnkiError>,
        | #[trigger]
            call_ensures(item_for, (&model, log, ctx.graph_context.next_day_start), outcome)
                && log@.len() > 0 && log@[0].cid == cid ==> !has_item((cid, outcome)),
        ctx.is_history(item_for, batch, accrue, r),
    ensures
        without.is_history(item_for, batch, accrue, r),
{
    let (fallback, logs, items): (F, Seq<CardLog>, Seq<CardItem<S, I, AnkiError>>) = choose|
        fallback: F,
        logs: Seq<CardLog>,
        items: Seq<CardItem<S, I, AnkiError>>,
    |
        {
            &&& logs.len() > 0 ==> ctx.is_model_for(None, fallback)
            &&& is_split_by_card(logs, ctx.graph_context.revlog@)
            &&& #[trigger] ctx.are_items_of(fallback, item_for, logs, items)
            &&& ctx.is_summed(fallback, batch, accrue, items, r)
        };
    let kept_logs = logs.filter(logs_of_others(cid));
    let kept = items.filter(items_of_others(cid));
    assert forall|i: int| 0 <= i < items.len() && (#[trigger] items[i]).0 == cid implies !has_item(
        items[i],
    ) by {
        assert(ctx.is_item_of(fallback, item_for, logs[i], items[i]));
        assert(is_card_log(logs[i]));
        assert(logs[i].entries@[0].cid == cid);
    }
    law_adjacent_entries_make_one_log(logs, ctx.graph_context.revlog@);
    lemma_joined_others(logs, cid);
    lemma_logs_of_others(logs, cid);
    lemma_items_of_others(ctx, without, fallback, item_for, cid, logs, items);
    assert(is_split_by_card(kept_logs, without.graph_context.revlog@));
    assert(kept_logs.len() > 0 ==> without.is_model_for(None, fallback)) by {
        if kept_logs.len() > 0 {
            assert(logs.contains(kept_logs[0]));
            assert(ctx.is_model_for(None, fallback));
        }
    }
    assert forall|config_id: i64, model: F, group: ConfigGroup<S, I>| #[trigger]
        without.is_turn(fallback, kept, config_id, model, group) == ctx.is_turn(
            fallback,
            items,
            config_id,
            model,
            group,
        ) by {
        assert(items_under(without, kept, config_id) == items_under(ctx, items, config_id));
    }
    match r {
        Ok(map) => {
            let runs = choose|runs: Seq<GroupRun<F, S, I, M>>|
                {
                    &&& #[trigger] ctx.are_runs_of(fallback, batch, items, runs)
                    &&& ctx.all_had_turn(items, runs)
                    &&& adds_up(
                        accrue,
                        terms_of_runs(runs, ctx.graph_context.next_day_start),
                        map@,
                    )
                };
            assert forall|k: int| 0 <= k < runs.len() implies {
                let run = #[trigger] runs[k];
                &&& without.is_turn(fallback, kept, run.config_id, run.model, run.group)
                &&& is_answer(batch, run.model, run.group, Ok(run.states))
            } by {
                assert(ctx.is_turn(fallback, items, runs[k].config_id, runs[k].model, runs[k].group));
            }
            assert(without.are_runs_of(fallback, batch, kept, runs));
            assert(without.all_had_turn(kept, runs)) by {
                assert forall|id: i64| (
                #[trigger] items_under(without, kept, id)).len() > 0 implies exists|k: int|
                    0 <= k < runs.len() && (#[trigger] runs[k]).config_id == id by {
                    assert(items_under(ctx, items, id).len() > 0);
                }
            }
            assert(without.is_summed(fallback, batch, accrue, kept, r));
        },
        Err(e) => {
            let (config_id, model, group): (i64, F, ConfigGroup<S, I>) = choose|
                config_id: i64,
                model: F,
                group: ConfigGroup<S, I>,
            |
                #[trigger] ctx.is_turn(fallback, items, config_id, model, group) && is_answer(
                    batch,
                    model,
                    group,
                    Err(e),
                );
            assert(without.is_turn(fallback, kept, config_id, model, group));
            assert(without.is_summed(fallback, batch, accrue, kept, r));
        },
    }
}

/// What a memory model makes of the entries of one card, up to a time: the entries that the
/// states belong to, and what is told of the states; none where there is no item.
pub type Reckoning<F, L> = spec_fn(F, Seq<RevlogEntry>, TimestampSecs) -> Option<
    (Seq<RevlogEntry>, L),
>;

/// Tells all of the states.
pub open spec fn whole<M>() -> spec_fn(Seq<M>) -> Seq<M> {
    |states: Seq<M>| states
}

/// Tells how many states there are.
pub open spec fn number<M>() -> spec_fn(Seq<M>) -> nat {
    |states: Seq<M>| states.len()
}

/// What comes of a card's log, as far as `look` tells of the states, depends on the model and the
/// entries alone: neither on when it is asked for, nor on what else is put to the model.
pub open spec fn reckons<F, S, I, M, L, FItem, FBatch>(
    item_for: FItem,
    batch: FBatch,
    look: spec_fn(Seq<M>) -> L,
    reckon: Reckoning<F, L>,
) -> bool where
    FItem: Fn(&F, Vec<RevlogEntry>, TimestampSecs) -> Result<
        Option<ItemForMemoryState<S, I>>,
        AnkiError,
    >,
    FBatch: Fn(&F, Vec<I>, Vec<Option<S>>) -> Result<Vec<Vec<M>>, AnkiError>,
 {
    &&& forall|
        model: F,
        log: Vec<RevlogEntry>,
        at: TimestampSecs,
        outcome: Result<Option<ItemForMemoryState<S, I>>, AnkiError>,
    | #[trigger]
        call_ensures(item_for, (&model, log, at), outcome) && !(outcome is Ok && outcome->Ok_0 is Some)
            ==> reckon(model, log@, at) is None
    &&& forall|
        model: F,
        log: Vec<RevlogEntry>,
        at: TimestampSecs,
        outcome: Result<Option<ItemForMemoryState<S, I>>, AnkiError>,
        group: ConfigGroup<S, I>,
        lists: Result<Vec<Vec<M>>, AnkiError>,
        p: int,
    | #[trigger]
        call_ensures(item_for, (&model, log, at), outcome) && #[trigger] is_answer(
            batch,
            model,
            group,
            lists,
        ) && #[trigger] is_fed(group, p, outcome) && lists is Ok ==> {
            let item = outcome->Ok_0->0;
            let states = lists->Ok_0;
            &&& p < states@.len()
            &&& reckon(model, log@, at) == Some((item.filtered_revlogs@, look(states@[p]@)))
        }
}

/// The item is at the given place of the group.
pub open spec fn is_fed<S, I>(
    group: ConfigGroup<S, I>,
    p: int,
    outcome: Result<Option<ItemForMemoryState<S, I>>, AnkiError>,
) -> bool {
    &&& outcome is Ok
    &&& outcome->Ok_0 is Some
    &&& 0 <= p < group.fsrs_items@.len()
    &&& group.fsrs_items@[p] == outcome->Ok_0->0.item
    &&& group.starting_states@.len() == group.fsrs_items@.len()
    &&& group.starting_states@[p] == outcome->Ok_0->0.starting_state
}

/// The card is put to the given model, both for its item and with the group of its preset.
pub open spec fn has_model<F>(
    ctx: MemorizedContext<F>,
    model_of: spec_fn(CardId) -> F,
    cid: CardId,
) -> bool {
    &&& forall|model: F| #[trigger]
        ctx.is_model_for(ctx.preset_of_card(cid), model) ==> model == model_of(cid)
    &&& forall|model: F| #[trigger]
        ctx.is_model_for(Some(ctx.group_of_card(cid)), model) ==> model == model_of(cid)
}

/// The turn is that of a card for whose entries the reckoning gave `expected`, put to the model.
pub open spec fn is_expected<F, M, L>(
    turn: Option<CardTurn<F, M>>,
    look: spec_fn(Seq<M>) -> L,
    model: F,
    expected: Option<(Seq<RevlogEntry>, L)>,
) -> bool {
    match expected {
        Some((revlogs, seen)) => {
            &&& turn is Some
            &&& (turn->0).model == model
            &&& (turn->0).revlogs == revlogs
            &&& look((turn->0).states) == seen
        },
        None => turn is None,
    }
}

/// The turns are those of the cards to which the parts of a review log belong.
pub open spec fn are_expected<F, M, L>(
    turns: Seq<Option<CardTurn<F, M>>>,
    look: spec_fn(Seq<M>) -> L,
    reckon: Reckoning<F, L>,
    model_of: spec_fn(CardId) -> F,
    parts: Seq<Seq<RevlogEntry>>,
    next_day_start: TimestampSecs,
) -> bool {
    &&& turns.len() == parts.len()
    &&& forall|i: int|
        0 <= i < turns.len() ==> is_expected(
            #[trigger] turns[i],
            look,
            model_of(parts[i][0].cid),
            reckon(model_of(parts[i][0].cid), parts[i], next_day_start),
        )
}

/// The turns of the cards to which the parts of a review log belong.
pub open spec fn turns_of<F, M>(
    reckon: Reckoning<F, Seq<M>>,
    model_of: spec_fn(CardId) -> F,
    parts: Seq<Seq<RevlogEntry>>,
    next_day_start: TimestampSecs,
) -> Seq<Option<CardTurn<F, M>>> {
    Seq::new(
        parts.len(),
        |i: int| turn_of_part(reckon, model_of(parts[i][0].cid), parts[i], next_day_start),
    )
}

pub open spec fn turn_of_part<F, M>(
    reckon: Reckoning<F, Seq<M>>,
    model: F,
    part: Seq<RevlogEntry>,
    next_day_start: TimestampSecs,
) -> Option<CardTurn<F, M>> {
    match reckon(model, part, next_day_start) {
        Some((revlogs, states)) => Some(CardTurn { model, revlogs, states }),
        None => None,
    }
}

proof fn lemma_turn_is_expected<F, S, I, M, L, FItem, FBatch>(
    ctx: MemorizedContext<F>,
    fallback: F,
    item_for: FItem,
    batch: FBatch,
    look: spec_fn(Seq<M>) -> L,
    reckon: Reckoning<F, L>,
    model_of: spec_fn(CardId) -> F,
    log: CardLog,
    items: Seq<CardItem<S, I, AnkiError>>,
    j: int,
    turn: Option<CardTurn<F, M>>,
) where
    FItem: Fn(&F, Vec<RevlogEntry>, TimestampSecs) -> Result<
        Option<ItemForMemoryState<S, I>>,
        AnkiError,
    >,
    FBatch: Fn(&F, Vec<I>, Vec<Option<S>>) -> Result<Vec<Vec<M>>, AnkiError>,

    requires
        reckons(item_for, batch, look, reckon),
        has_model(ctx, model_of, log.cid),
        ctx.is_item_of(fallback, item_for, log, items[j]),
        ctx.is_model_for(None, fallback),
        ctx.is_turn_of(fallback, batch, items, j, turn),
    ensures
        is_expected(
            turn,
            look,
            model_of(log.cid),
            reckon(model_of(log.cid), log.entries@, ctx.graph_context.next_day_start),
        ),
{
    let at = ctx.graph_context.next_day_start;
    let (model, outcome): (F, Result<Option<ItemForMemoryState<S, I>>, AnkiError>) = choose|
        model: F,
        outcome: Result<Option<ItemForMemoryState<S, I>>, AnkiError>,
    |
        {
            &&& model == ctx.model_or(ctx.preset_of_card(log.cid), fallback)
            &&& outcome == items[j].1
            &&& #[trigger] call_ensures(item_for, (&model, log.entries, at), outcome)
        };
    assert(ctx.is_model_for(ctx.preset_of_card(log.cid), model));
    assert(model == model_of(log.cid));
    if has_item(items[j]) {
        let item = items[j].1->Ok_0->0;
        let place = place_of(ctx, items, j);
        let run = choose|run: GroupRun<F, S, I, M>|
            {
                &&& run.config_id == ctx.group_of_card(items[j].0).0
                &&& ctx.is_turn(fallback, items, run.config_id, run.model, run.group)
                &&& is_answer(batch, run.model, run.group, Ok(run.states))
                &&& 0 <= place < run.group.fsrs_items@.len()
                &&& run.group.fsrs_items@[place] == item.item
                &&& run.group.starting_states@[place] == item.starting_state
                &&& run.group.filtered_revlogs@[place] == item.filtered_revlogs
                &&& turn == #[trigger] turn_at(run, place)
            };
        assert(ctx.is_model_for(Some(ctx.group_of_card(log.cid)), run.model));
        assert(run.model == model);
        assert(is_fed(run.group, place, outcome));
        assert(is_answer(batch, model, run.group, Ok(run.states)));
    }
}

/// Where what comes of a card's log depends on the model and the entries alone, as far as `look`
/// tells, and each card has its model, what was remembered is what turns add up to that are as
/// the parts of the review log let expect.
pub proof fn law_history_is_expected<F, S, I, M, V, L, FItem, FBatch, FAccrue>(
    ctx: MemorizedContext<F>,
    item_for: FItem,
    batch: FBatch,
    accrue: FAccrue,
    look: spec_fn(Seq<M>) -> L,
    reckon: Reckoning<F, L>,
    model_of: spec_fn(CardId) -> F,
    parts: Seq<Seq<RevlogEntry>>,
    map: HashMap<i32, V>,
) where
    FItem: Fn(&F, Vec<RevlogEntry>, TimestampSecs) -> Result<
        Option<ItemForMemoryState<S, I>>,
        AnkiError,
    >,
    FBatch: Fn(&F, Vec<I>, Vec<Option<S>>) -> Result<Vec<Vec<M>>, AnkiError>,
    FAccrue: Fn(Option<V>, &F, &M, u32) -> V,

    requires
        reckons(item_for, batch, look, reckon),
        is_split(parts, ctx.graph_context.revlog@),
        forall|i: int|
            0 <= i < ctx.graph_context.revlog@.len() ==> has_model(
                ctx,
                model_of,
                (#[trigger] ctx.graph_context.revlog@[i]).cid,
            ),
        ctx.is_history(item_for, batch, accrue, Ok(map)),
    ensures
        exists|turns: Seq<Option<CardTurn<F, M>>>|
            {
                &&& #[trigger] are_expected(
                    turns,
                    look,
                    reckon,
                    model_of,
                    parts,
                    ctx.graph_context.next_day_start,
                )
                &&& adds_up_by_card(accrue, turns, ctx.graph_context.next_day_start, map@)
            },
{
    law_history_is_by_card(ctx, item_for, batch, accrue, map);
    let (fallback, logs, items, turns): (
        F,
        Seq<CardLog>,
        Seq<CardItem<S, I, AnkiError>>,
        Seq<Option<CardTurn<F, M>>>,
    ) = choose|
        fallback: F,
        logs: Seq<CardLog>,
        items: Seq<CardItem<S, I, AnkiError>>,
        turns: Seq<Option<CardTurn<F, M>>>,
    | #[trigger]
        ctx.is_history_by_card(fallback, item_for, batch, accrue, logs, items, turns, map@);
    let revlog = ctx.graph_context.revlog@;
    let at = ctx.graph_context.next_day_start;
    lemma_logs_are_parts(logs, revlog);
    lemma_split_unique(parts, parts_of(logs), revlog);
    assert forall|j: int| 0 <= j < turns.len() implies is_expected(
        #[trigger] turns[j],
        look,
        model_of(parts[j][0].cid),
        reckon(model_of(parts[j][0].cid), parts[j], at),
    ) by {
        assert(is_part(parts[j]));
        lemma_part_stands_at(parts, j, 0);
        assert(parts[j][0].cid == logs[j].cid) by {
            assert(parts_of(logs)[j][0].cid == logs[j].cid);
        }
        assert(ctx.is_item_of(fallback, item_for, logs[j], items[j]));
        assert(ctx.is_turn_of(fallback, batch, items, j, turns[j]));
        lemma_turn_is_expected(
            ctx,
            fallback,
            item_for,
            batch,
            look,
            reckon,
            model_of,
            logs[j],
            items,
            j,
            turns[j],
        );
        assert(parts[j] == logs[j].entries@);
    }
    assert(are_expected(turns, look, reckon, model_of, parts, at));
}

/// Where what comes of a card's log depends on the model and the entries alone, and each card has
/// its model, what was remembered is what the parts of the review log come to.
pub proof fn law_history_is_reckoned<F, S, I, M, V, FItem, FBatch, FAccrue>(
    ctx: MemorizedContext<F>,
    item_for: FItem,
    batch: FBatch,
    accrue: FAccrue,
    reckon: Reckoning<F, Seq<M>>,
    model_of: spec_fn(CardId) -> F,
    parts: Seq<Seq<RevlogEntry>>,
    map: HashMap<i32, V>,
) where
    FItem: Fn(&F, Vec<RevlogEntry>, TimestampSecs) -> Result<
        Option<ItemForMemoryState<S, I>>,
        AnkiError,
    >,
    FBatch: Fn(&F, Vec<I>, Vec<Option<S>>) -> Result<Vec<Vec<M>>, AnkiError>,
    FAccrue: Fn(Option<V>, &F, &M, u32) -> V,

    requires
        reckons(item_for, batch, whole(), reckon),
        is_split(parts, ctx.graph_context.revlog@),
        forall|i: int|
            0 <= i < ctx.graph_context.revlog@.len() ==> has_model(
                ctx,
                model_of,
                (#[trigger] ctx.graph_context.revlog@[i]).cid,
            ),
        ctx.is_history(item_for, batch, accrue, Ok(map)),
    ensures
        adds_up_by_card(
            accrue,
            turns_of(reckon, model_of, parts, ctx.graph_context.next_day_start),
            ctx.graph_context.next_day_start,
            map@,
        ),
{
    let at = ctx.graph_context.next_day_start;
    law_history_is_expected(
        ctx,
        item_for,
        batch,
        accrue,
        whole(),
        reckon,
        model_of,
        parts,
        map,
    );
    let turns = choose|turns: Seq<Option<CardTurn<F, M>>>|
        {
            &&& #[trigger] are_expected(turns, whole(), reckon, model_of, parts, at)
            &&& adds_up_by_card(accrue, turns, at, map@)
        };
    let expected = turns_of(reckon, model_of, parts, at);
    assert forall|i: int| 0 <= i < turns.len() implies turns[i] == expected[i] by {
        assert(is_expected(
            turns[i],
            whole(),
            model_of(parts[i][0].cid),
            reckon(model_of(parts[i][0].cid), parts[i], at),
        ));
    }
    assert(turns =~= expected);
}

/// The state after some review of the part counts on the day that was `ago` days ago.
pub open spec fn part_spans<F>(
    span: Reckoning<F, nat>,
    model: F,
    part: Seq<RevlogEntry>,
    next_day_start: TimestampSecs,
    ago: int,
) -> bool {
    let reckoned = span(model, part, next_day_start);
    reckoned is Some && exists|k: int|
        {
            &&& 0 <= k < (reckoned->0).1
            &&& k < (reckoned->0).0.len()
            &&& days_ago((reckoned->0).0, next_day_start, k + 1) <= ago < #[trigger] days_ago(
                (reckoned->0).0,
                next_day_start,
                k,
            )
        }
}

/// The state after some review of some part counts on the day that was `ago` days ago.
pub open spec fn is_spanned<F>(
    span: Reckoning<F, nat>,
    model_of: spec_fn(CardId) -> F,
    parts: Seq<Seq<RevlogEntry>>,
    next_day_start: TimestampSecs,
    ago: int,
) -> bool {
    exists|i: int|
        0 <= i < parts.len() && part_spans(
            span,
            model_of(parts[i][0].cid),
            #[trigger] parts[i],
            next_day_start,
            ago,
        )
}

proof fn lemma_counted_is_spanned<F, M>(
    turns: Seq<Option<CardTurn<F, M>>>,
    span: Reckoning<F, nat>,
    model_of: spec_fn(CardId) -> F,
    parts: Seq<Seq<RevlogEntry>>,
    next_day_start: TimestampSecs,
    ago: int,
)
    requires
        are_expected(turns, number(), span, model_of, parts, next_day_start),
    ensures
        is_counted(turns, next_day_start, ago) <==> is_spanned(
            span,
            model_of,
            parts,
            next_day_start,
            ago,
        ),
{
    if is_counted(turns, next_day_start, ago) {
        let (j, k): (int, int) = choose|j: int, k: int|
            0 <= j < turns.len() && turns[j] is Some && #[trigger] counts_on(
                turns[j]->0,
                next_day_start,
                k,
                ago,
            );
        let model = model_of(parts[j][0].cid);
        let reckoned = span(model, parts[j], next_day_start);
        assert(is_expected(turns[j], number(), model, reckoned));
        assert(days_ago((reckoned->0).0, next_day_start, k) > ago);
        assert(part_spans(span, model, parts[j], next_day_start, ago));
    }
    if is_spanned(span, model_of, parts, next_day_start, ago) {
        let i: int = choose|i: int|
            0 <= i < parts.len() && part_spans(
                span,
                model_of(parts[i][0].cid),
                #[trigger] parts[i],
                next_day_start,
                ago,
            );
        let model = model_of(parts[i][0].cid);
        let reckoned = span(model, parts[i], next_day_start);
        assert(is_expected(turns[i], number(), model, reckoned));
        let k: int = choose|k: int|
            {
                &&& 0 <= k < (reckoned->0).1
                &&& k < (reckoned->0).0.len()
                &&& days_ago((reckoned->0).0, next_day_start, k + 1) <= ago < #[trigger] days_ago(
                    (reckoned->0).0,
                    next_day_start,
                    k,
                )
            };
        assert(counts_on(turns[i]->0, next_day_start, k, ago));
    }
}

/// Where the number of states that come of a card's log depends on the model and the entries
/// alone, and each card has its model, the days with a sum are those that the parts of the review
/// log span.
pub proof fn law_days_are_spanned<F, S, I, M, V, FItem, FBatch, FAccrue>(
    ctx: MemorizedContext<F>,
    item_for: FItem,
    batch: FBatch,
    accrue: FAccrue,
    span: Reckoning<F, nat>,
    model_of: spec_fn(CardId) -> F,
    parts: Seq<Seq<RevlogEntry>>,
    map: HashMap<i32, V>,
) where
    FItem: Fn(&F, Vec<RevlogEntry>, TimestampSecs) -> Result<
        Option<ItemForMemoryState<S, I>>,
        AnkiError,
    >,
    FBatch: Fn(&F, Vec<I>, Vec<Option<S>>) -> Result<Vec<Vec<M>>, AnkiError>,
    FAccrue: Fn(Option<V>, &F, &M, u32) -> V,

    requires
        reckons(item_for, batch, number(), span),
        is_split(parts, ctx.graph_context.revlog@),
        forall|i: int|
            0 <= i < ctx.graph_context.revlog@.len() ==> has_model(
                ctx,
                model_of,
                (#[trigger] ctx.graph_context.revlog@[i]).cid,
            ),
        ctx.is_history(item_for, batch, accrue, Ok(map)),
    ensures
        forall|day: i32| #[trigger]
            map@.contains_key(day) <==> is_spanned(
                span,
                model_of,
                parts,
                ctx.graph_context.next_day_start,
                ago_of(day),
            ),
{
    let at = ctx.graph_context.next_day_start;
    law_history_is_expected(
        ctx,
        item_for,
        batch,
        accrue,
        number(),
        span,
        model_of,
        parts,
        map,
    );
    let turns = choose|turns: Seq<Option<CardTurn<F, M>>>|
        {
            &&& #[trigger] are_expected(turns, number(), span, model_of, parts, at)
            &&& adds_up_by_card(accrue, turns, at, map@)
        };
    law_day_has_sum_between_reviews(accrue, turns, at, map@);
    assert forall|day: i32| #[trigger] map@.contains_key(day) <==> is_spanned(
        span,
        model_of,
        parts,
        at,
        ago_of(day),
    ) by {
        lemma_counted_is_spanned(turns, span, model_of, parts, at, ago_of(day));
    }
}

/// What `item_for` feeds to the memory model depends on the model and the entries alone, as far
/// as the number of states goes: one after each review, and the starting state where there is
/// one.
pub open spec fn feeds<FItem>(item_for: FItem, span: Reckoning<FSRS, nat>) -> bool where
    FItem: Fn(&FSRS, Vec<RevlogEntry>, TimestampSecs) -> Result<
        Option<ItemForMemoryState<MemoryState, FsrsItem>>,
        AnkiError,
    >,
 {
    forall|
        model: FSRS,
        log: Vec<RevlogEntry>,
        at: TimestampSecs,
        outcome: Result<Option<ItemForMemoryState<MemoryState, FsrsItem>>, AnkiError>,
    | #[trigger]
        call_ensures(item_for, (&model, log, at), outcome) ==> span(model, log@, at) == match outcome {
            Ok(Some(item)) => Some(
                (
                    item.filtered_revlogs@,
                    item.item.reviews@.len() + if item.starting_state is Some {
                        1nat
                    } else {
                        0
                    },
                ),
            ),
            _ => None,
        }
}

/// The number of states that the memory model of a preset gives for a card depends on what it is
/// fed for that card alone.
pub proof fn law_model_gives_number_of_states<FItem>(
    item_for: FItem,
    span: Reckoning<FSRS, nat>,
) where
    FItem: Fn(&FSRS, Vec<RevlogEntry>, TimestampSecs) -> Result<
        Option<ItemForMemoryState<MemoryState, FsrsItem>>,
        AnkiError,
    >,

    requires
        feeds(item_for, span),
    ensures
        reckons(item_for, memory_states, number(), span),
{
    assert forall|
        model: FSRS,
        log: Vec<RevlogEntry>,
        at: TimestampSecs,
        outcome: Result<Option<ItemForMemoryState<MemoryState, FsrsItem>>, AnkiError>,
        group: ConfigGroup<MemoryState, FsrsItem>,
        lists: Result<Vec<Vec<MemoryState>>, AnkiError>,
        p: int,
    | #[trigger]
        call_ensures(item_for, (&model, log, at), outcome) && #[trigger] is_answer(
            memory_states,
            model,
            group,
            lists,
        ) && #[trigger] is_fed(group, p, outcome) && lists is Ok implies {
        let item = outcome->Ok_0->0;
        let states = lists->Ok_0;
        &&& p < states@.len()
        &&& span(model, log@, at) == Some(
            (item.filtered_revlogs@, number::<MemoryState>()(states@[p]@)),
        )
    } by {
        assert(is_state_list(
            (lists->Ok_0)@[p]@,
            group.fsrs_items@[p],
            group.starting_states@[p],
        ));
    }
}

/// With one model, the presets of the cards do not matter for the days: a card without a preset,
/// or with one that has no model, is not left out.
pub proof fn law_one_model_makes_days_equal<F, S, I, M, V, FItem, FBatch, FAccrue>(
    a: MemorizedContext<F>,
    b: MemorizedContext<F>,
    only: i64,
    item_for: FItem,
    batch: FBatch,
    accrue: FAccrue,
    span: Reckoning<F, nat>,
    parts: Seq<Seq<RevlogEntry>>,
    a_map: HashMap<i32, V>,
    b_map: HashMap<i32, V>,
) where
    FItem: Fn(&F, Vec<RevlogEntry>, TimestampSecs) -> Result<
        Option<ItemForMemoryState<S, I>>,
        AnkiError,
    >,
    FBatch: Fn(&F, Vec<I>, Vec<Option<S>>) -> Result<Vec<Vec<M>>, AnkiError>,
    FAccrue: Fn(Option<V>, &F, &M, u32) -> V,

    requires
        a.graph_context.revlog@ == b.graph_context.revlog@,
        a.graph_context.next_day_start == b.graph_context.next_day_start,
        a.per_preset_fsrs@ == b.per_preset_fsrs@,
        forall|id: i64| #[trigger] a.per_preset_fsrs@.contains_key(id) <==> id == only,
        reckons(item_for, batch, number(), span),
        is_split(parts, a.graph_context.revlog@),
        a.is_history(item_for, batch, accrue, Ok(a_map)),
        b.is_history(item_for, batch, accrue, Ok(b_map)),
    ensures
        a_map@.dom() == b_map@.dom(),
{
    let model_of = one_model(a.per_preset_fsrs@[only]);
    let at = a.graph_context.next_day_start;
    law_days_are_spanned(a, item_for, batch, accrue, span, model_of, parts, a_map);
    law_days_are_spanned(b, item_for, batch, accrue, span, model_of, parts, b_map);
    assert forall|day: i32| #[trigger] a_map@.dom().contains(day) <==> b_map@.dom().contains(
        day,
    ) by {
        assert(a_map@.contains_key(day) <==> is_spanned(span, model_of, parts, at, ago_of(day)));
        assert(b_map@.contains_key(day) <==> is_spanned(span, model_of, parts, at, ago_of(day)));
    }
    assert(a_map@.dom() =~= b_map@.dom());
}

/// The days of two review logs without a common card are those of the one and those of the other.
pub proof fn law_logs_unite_days<F, S, I, M, V, FItem, FBatch, FAccrue>(
    a: MemorizedContext<F>,
    b: MemorizedContext<F>,
    both: MemorizedContext<F>,
    item_for: FItem,
    batch: FBatch,
    accrue: FAccrue,
    span: Reckoning<F, nat>,
    model_of: spec_fn(CardId) -> F,
    a_parts: Seq<Seq<RevlogEntry>>,
    b_parts: Seq<Seq<RevlogEntry>>,
    a_map: HashMap<i32, V>,
    b_map: HashMap<i32, V>,
    map: HashMap<i32, V>,
) where
    FItem: Fn(&F, Vec<RevlogEntry>, TimestampSecs) -> Result<
        Option<ItemForMemoryState<S, I>>,
        AnkiError,
    >,
    FBatch: Fn(&F, Vec<I>, Vec<Option<S>>) -> Result<Vec<Vec<M>>, AnkiError>,
    FAccrue: Fn(Option<V>, &F, &M, u32) -> V,

    requires
        same_but_log(a, both),
        same_but_log(b, both),
        both.graph_context.revlog@ == a.graph_context.revlog@ + b.graph_context.revlog@,
        forall|i: int, j: int|
            0 <= i < a.graph_context.revlog@.len() && 0 <= j < b.graph_context.revlog@.len() ==> (
            #[trigger] a.graph_context.revlog@[i]).cid != (
            #[trigger] b.graph_context.revlog@[j]).cid,
        forall|i: int|
            0 <= i < both.graph_context.revlog@.len() ==> has_model(
                both,
                model_of,
                (#[trigger] both.graph_context.revlog@[i]).cid,
            ),
        reckons(item_for, batch, number(), span),
        is_split(a_parts, a.graph_context.revlog@),
        is_split(b_parts, b.graph_context.revlog@),
        a.is_history(item_for, batch, accrue, Ok(a_map)),
        b.is_history(item_for, batch, accrue, Ok(b_map)),
        both.is_history(item_for, batch, accrue, Ok(map)),
    ensures
        map@.dom() == a_map@.dom().union(b_map@.dom()),
{
    let at = both.graph_context.next_day_start;
    let a_log = a.graph_context.revlog@;
    let b_log = b.graph_context.revlog@;
    let parts = a_parts + b_parts;
    lemma_split_of_both(a_parts, b_parts, a_log, b_log);
    lemma_models_of_both(a, b, both, model_of);
    law_days_are_spanned(a, item_for, batch, accrue, span, model_of, a_parts, a_map);
    law_days_are_spanned(b, item_for, batch, accrue, span, model_of, b_parts, b_map);
    law_days_are_spanned(both, item_for, batch, accrue, span, model_of, parts, map);
    assert forall|day: i32| #[trigger] map@.dom().contains(day) <==> a_map@.dom().union(
        b_map@.dom(),
    ).contains(day) by {
        let ago = ago_of(day);
        assert(map@.contains_key(day) <==> is_spanned(span, model_of, parts, at, ago));
        assert(a_map@.contains_key(day) <==> is_spanned(span, model_of, a_parts, at, ago));
        assert(b_map@.contains_key(day) <==> is_spanned(span, model_of, b_parts, at, ago));
        lemma_spanned_by_both(span, model_of, a_parts, b_parts, at, ago);
    }
    assert(map@.dom() =~= a_map@.dom().union(b_map@.dom()));
}

proof fn lemma_spanned_by_both<F>(
    span: Reckoning<F, nat>,
    model_of: spec_fn(CardId) -> F,
    a: Seq<Seq<RevlogEntry>>,
    b: Seq<Seq<RevlogEntry>>,
    next_day_start: TimestampSecs,
    ago: int,
)
    ensures
        is_spanned(span, model_of, a + b, next_day_start, ago) <==> is_spanned(
            span,
            model_of,
            a,
            next_day_start,
            ago,
        ) || is_spanned(span, model_of, b, next_day_start, ago),
{
    let both = a + b;
    let n: int = a.len() as int;
    assert forall|i: int| 0 <= i < n implies #[trigger] a[i] == both[i] by {}
    assert forall|i: int| 0 <= i < b.len() implies #[trigger] b[i] == both[n + i] by {}
    assert forall|i: int| n <= i < both.len() implies #[trigger] both[i] == b[i - n] by {}
}

/// The cards of the two logs have the models that they have in both.
proof fn lemma_models_of_both<F>(
    a: MemorizedContext<F>,
    b: MemorizedContext<F>,
    both: MemorizedContext<F>,
    model_of: spec_fn(CardId) -> F,
)
    requires
        same_but_log(a, both),
        same_but_log(b, both),
        both.graph_context.revlog@ == a.graph_context.revlog@ + b.graph_context.revlog@,
        forall|i: int|
            0 <= i < both.graph_context.revlog@.len() ==> has_model(
                both,
                model_of,
                (#[trigger] both.graph_context.revlog@[i]).cid,
            ),
    ensures
        forall|i: int|
            0 <= i < a.graph_context.revlog@.len() ==> has_model(
                a,
                model_of,
                (#[trigger] a.graph_context.revlog@[i]).cid,
            ),
        forall|i: int|
            0 <= i < b.graph_context.revlog@.len() ==> has_model(
                b,
                model_of,
                (#[trigger] b.graph_context.revlog@[i]).cid,
            ),
{
    let a_log = a.graph_context.revlog@;
    let b_log = b.graph_context.revlog@;
    let all = both.graph_context.revlog@;
    assert forall|i: int| 0 <= i < a_log.len() implies has_model(
        a,
        model_of,
        (#[trigger] a_log[i]).cid,
    ) by {
        assert(all[i] == a_log[i]);
        lemma_same_models(a, both, model_of, a_log[i].cid);
    }
    assert forall|i: int| 0 <= i < b_log.len() implies has_model(
        b,
        model_of,
        (#[trigger] b_log[i]).cid,
    ) by {
        assert(all[a_log.len() + i] == b_log[i]);
        lemma_same_models(b, both, model_of, b_log[i].cid);
    }
}

/// Gives every card the model.
pub open spec fn one_model<F>(model: F) -> spec_fn(CardId) -> F {
    |cid: CardId| model
}

/// With one model, the presets of the cards do not matter: a card without a preset, or with one
/// that has no model, is put to the one model like the others.
pub proof fn law_one_model_makes_presets_equal<F, S, I, M, V, FItem, FBatch, FAccrue>(
    a: MemorizedContext<F>,
    b: MemorizedContext<F>,
    only: i64,
    item_for: FItem,
    batch: FBatch,
    accrue: FAccrue,
    reckon: Reckoning<F, Seq<M>>,
    worth: spec_fn(Term<F, M>) -> int,
    value: spec_fn(V) -> int,
    cap: int,
    parts: Seq<Seq<RevlogEntry>>,
    a_map: HashMap<i32, V>,
    b_map: HashMap<i32, V>,
) where
    FItem: Fn(&F, Vec<RevlogEntry>, TimestampSecs) -> Result<
        Option<ItemForMemoryState<S, I>>,
        AnkiError,
    >,
    FBatch: Fn(&F, Vec<I>, Vec<Option<S>>) -> Result<Vec<Vec<M>>, AnkiError>,
    FAccrue: Fn(Option<V>, &F, &M, u32) -> V,

    requires
        a.graph_context.revlog@ == b.graph_context.revlog@,
        a.graph_context.next_day_start == b.graph_context.next_day_start,
        a.per_preset_fsrs@ == b.per_preset_fsrs@,
        forall|id: i64| #[trigger] a.per_preset_fsrs@.contains_key(id) <==> id == only,
        reckons(item_for, batch, whole(), reckon),
        adds_worth(accrue, worth, value, cap),
        is_split(parts, a.graph_context.revlog@),
        ({
            let model = a.per_preset_fsrs@[only];
            let at = a.graph_context.next_day_start;
            let turns = turns_of(reckon, one_model(model), parts, at);
            forall|day: i32| #[trigger]
                cards_worth(worth, turns, at, turns.len() as int, day) <= cap
        }),
        a.is_history(item_for, batch, accrue, Ok(a_map)),
        b.is_history(item_for, batch, accrue, Ok(b_map)),
    ensures
        a_map@.dom() == b_map@.dom(),
        forall|day: i32| #[trigger]
            a_map@.contains_key(day) ==> value(a_map@[day]) == value(b_map@[day]),
{
    let model = a.per_preset_fsrs@[only];
    let model_of = one_model(model);
    let at = a.graph_context.next_day_start;
    let turns = turns_of(reckon, model_of, parts, at);
    law_history_is_reckoned(a, item_for, batch, accrue, reckon, model_of, parts, a_map);
    law_history_is_reckoned(b, item_for, batch, accrue, reckon, model_of, parts, b_map);
    law_day_has_sum_between_reviews(accrue, turns, at, a_map@);
    law_day_has_sum_between_reviews(accrue, turns, at, b_map@);
    assert(a_map@.dom() =~= b_map@.dom()) by {
        assert forall|day: i32| a_map@.dom().contains(day) <==> b_map@.dom().contains(day) by {
            assert(a_map@.contains_key(day) <==> is_counted(turns, at, ago_of(day)));
            assert(b_map@.contains_key(day) <==> is_counted(turns, at, ago_of(day)));
        }
    }
    assert forall|day: i32| #[trigger] a_map@.contains_key(day) implies value(a_map@[day]) == value(
        b_map@[day],
    ) by {
        assert(b_map@.dom().contains(day));
        assert(cards_worth(worth, turns, at, turns.len() as int, day) <= cap);
        law_sum_is_total_of_reviews(accrue, worth, value, cap, turns, at, a_map@, day);
        law_sum_is_total_of_reviews(accrue, worth, value, cap, turns, at, b_map@, day);
    }
}

/// What the first `n` cards of one list and then of another add to the sum of the day.
proof fn lemma_worth_of_both<F, M>(
    worth: spec_fn(Term<F, M>) -> int,
    a: Seq<Option<CardTurn<F, M>>>,
    b: Seq<Option<CardTurn<F, M>>>,
    next_day_start: TimestampSecs,
    n: int,
    day: i32,
)
    requires
        0 <= n <= a.len() + b.len(),
    ensures
        cards_worth(worth, a + b, next_day_start, n, day) == if n <= a.len() {
            cards_worth(worth, a, next_day_start, n, day)
        } else {
            cards_worth(worth, a, next_day_start, a.len() as int, day) + cards_worth(
                worth,
                b,
                next_day_start,
                n - a.len(),
                day,
            )
        },
    decreases n,
{
    if n > 0 {
        lemma_worth_of_both(worth, a, b, next_day_start, n - 1, day);
        if n <= a.len() {
            assert((a + b)[n - 1] == a[n - 1]);
        } else {
            assert((a + b)[n - 1] == b[n - 1 - a.len()]);
            assert(cards_worth(worth, b, next_day_start, 0, day) == 0);
        }
    }
}

proof fn lemma_counted_in_both<F, M>(
    a: Seq<Option<CardTurn<F, M>>>,
    b: Seq<Option<CardTurn<F, M>>>,
    next_day_start: TimestampSecs,
    ago: int,
)
    ensures
        is_counted(a + b, next_day_start, ago) <==> is_counted(a, next_day_start, ago) || is_counted(
            b,
            next_day_start,
            ago,
        ),
{
    let both = a + b;
    let n: int = a.len() as int;
    if is_counted(both, next_day_start, ago) {
        let (j, k): (int, int) = choose|j: int, k: int|
            0 <= j < both.len() && both[j] is Some && #[trigger] counts_on(
                both[j]->0,
                next_day_start,
                k,
                ago,
            );
        if j < n {
            assert(counts_on(a[j]->0, next_day_start, k, ago));
        } else {
            assert(counts_on(b[j - n]->0, next_day_start, k, ago));
        }
    }
    if is_counted(a, next_day_start, ago) {
        let (j, k): (int, int) = choose|j: int, k: int|
            0 <= j < a.len() && a[j] is Some && #[trigger] counts_on(
                a[j]->0,
                next_day_start,
                k,
                ago,
            );
        assert(counts_on(both[j]->0, next_day_start, k, ago));
    }
    if is_counted(b, next_day_start, ago) {
        let (j, k): (int, int) = choose|j: int, k: int|
            0 <= j < b.len() && b[j] is Some && #[trigger] counts_on(
                b[j]->0,
                next_day_start,
                k,
                ago,
            );
        assert(both[n + j] == b[j]);
        assert(counts_on(both[n + j]->0, next_day_start, k, ago));
    }
}

/// The number that the sum of the day stands for, 0 without one.
pub open spec fn value_on<V>(value: spec_fn(V) -> int, map: Map<i32, V>, day: i32) -> int {
    if map.contains_key(day) {
        value(map[day])
    } else {
        0
    }
}

/// Nothing is added on a day on which no state counts.
proof fn lemma_nothing_counted<F, M>(
    worth: spec_fn(Term<F, M>) -> int,
    turns: Seq<Option<CardTurn<F, M>>>,
    next_day_start: TimestampSecs,
    n: int,
    day: i32,
)
    requires
        0 <= n <= turns.len(),
        !is_counted(turns, next_day_start, ago_of(day)),
    ensures
        cards_worth(worth, turns, next_day_start, n, day) == 0,
    decreases n,
{
    if n > 0 {
        lemma_nothing_counted(worth, turns, next_day_start, n - 1, day);
        if let Some(turn) = turns[n - 1] {
            assert forall|k: int| !#[trigger] counts_on(turn, next_day_start, k, ago_of(day)) by {
                if counts_on(turn, next_day_start, k, ago_of(day)) {
                    assert(counts_on(turns[n - 1]->0, next_day_start, k, ago_of(day)));
                }
            }
            lemma_no_review_counts(worth, turn, next_day_start, turn.revlogs.len() as int, day);
        }
    }
}

proof fn lemma_no_review_counts<F, M>(
    worth: spec_fn(Term<F, M>) -> int,
    turn: CardTurn<F, M>,
    next_day_start: TimestampSecs,
    n: int,
    day: i32,
)
    requires
        forall|k: int| !#[trigger] counts_on(turn, next_day_start, k, ago_of(day)),
    ensures
        reviews_worth(worth, turn, next_day_start, n, day) == 0,
    decreases n,
{
    if n > 0 {
        lemma_no_review_counts(worth, turn, next_day_start, n - 1, day);
        assert(!counts_on(turn, next_day_start, n - 1, ago_of(day)));
    }
}

proof fn lemma_value_on<F, M, V, FAccrue: Fn(Option<V>, &F, &M, u32) -> V>(
    accrue: FAccrue,
    worth: spec_fn(Term<F, M>) -> int,
    value: spec_fn(V) -> int,
    cap: int,
    turns: Seq<Option<CardTurn<F, M>>>,
    next_day_start: TimestampSecs,
    map: Map<i32, V>,
    day: i32,
)
    requires
        adds_up_by_card(accrue, turns, next_day_start, map),
        adds_worth(accrue, worth, value, cap),
        cards_worth(worth, turns, next_day_start, turns.len() as int, day) <= cap,
    ensures
        value_on(value, map, day) == cards_worth(
            worth,
            turns,
            next_day_start,
            turns.len() as int,
            day,
        ),
{
    law_day_has_sum_between_reviews(accrue, turns, next_day_start, map);
    assert(map.contains_key(day) <==> is_counted(turns, next_day_start, ago_of(day)));
    if map.contains_key(day) {
        law_sum_is_total_of_reviews(accrue, worth, value, cap, turns, next_day_start, map, day);
    } else {
        lemma_nothing_counted(worth, turns, next_day_start, turns.len() as int, day);
    }
}

/// Nothing that is added is less than nothing.
proof fn lemma_worth_not_negative<F, M>(
    worth: spec_fn(Term<F, M>) -> int,
    turns: Seq<Option<CardTurn<F, M>>>,
    next_day_start: TimestampSecs,
    n: int,
    day: i32,
)
    requires
        forall|term: Term<F, M>| #[trigger] worth(term) >= 0,
    ensures
        cards_worth(worth, turns, next_day_start, n, day) >= 0,
    decreases n,
{
    if n > 0 {
        lemma_worth_not_negative(worth, turns, next_day_start, n - 1, day);
        if let Some(turn) = turns[n - 1] {
            lemma_reviews_not_negative(
                worth,
                turn,
                next_day_start,
                turn.revlogs.len() as int,
                day,
            );
        }
    }
}

proof fn lemma_reviews_not_negative<F, M>(
    worth: spec_fn(Term<F, M>) -> int,
    turn: CardTurn<F, M>,
    next_day_start: TimestampSecs,
    n: int,
    day: i32,
)
    requires
        forall|term: Term<F, M>| #[trigger] worth(term) >= 0,
    ensures
        reviews_worth(worth, turn, next_day_start, n, day) >= 0,
    decreases n,
{
    if n > 0 {
        lemma_reviews_not_negative(worth, turn, next_day_start, n - 1, day);
    }
}

/// Two review logs without a common card add up: the days with a sum are those of the one and
/// those of the other, and the sums are added.
pub proof fn law_logs_add_up<F, S, I, M, V, FItem, FBatch, FAccrue>(
    a: MemorizedContext<F>,
    b: MemorizedContext<F>,
    both: MemorizedContext<F>,
    item_for: FItem,
    batch: FBatch,
    accrue: FAccrue,
    reckon: Reckoning<F, Seq<M>>,
    model_of: spec_fn(CardId) -> F,
    worth: spec_fn(Term<F, M>) -> int,
    value: spec_fn(V) -> int,
    cap: int,
    a_parts: Seq<Seq<RevlogEntry>>,
    b_parts: Seq<Seq<RevlogEntry>>,
    a_map: HashMap<i32, V>,
    b_map: HashMap<i32, V>,
    map: HashMap<i32, V>,
) where
    FItem: Fn(&F, Vec<RevlogEntry>, TimestampSecs) -> Result<
        Option<ItemForMemoryState<S, I>>,
        AnkiError,
    >,
    FBatch: Fn(&F, Vec<I>, Vec<Option<S>>) -> Result<Vec<Vec<M>>, AnkiError>,
    FAccrue: Fn(Option<V>, &F, &M, u32) -> V,

    requires
        same_but_log(a, both),
        same_but_log(b, both),
        both.graph_context.revlog@ == a.graph_context.revlog@ + b.graph_context.revlog@,
        forall|i: int, j: int|
            0 <= i < a.graph_context.revlog@.len() && 0 <= j < b.graph_context.revlog@.len() ==> (
            #[trigger] a.graph_context.revlog@[i]).cid != (
            #[trigger] b.graph_context.revlog@[j]).cid,
        forall|i: int|
            0 <= i < both.graph_context.revlog@.len() ==> has_model(
                both,
                model_of,
                (#[trigger] both.graph_context.revlog@[i]).cid,
            ),
        reckons(item_for, batch, whole(), reckon),
        adds_worth(accrue, worth, value, cap),
        is_split(a_parts, a.graph_context.revlog@),
        is_split(b_parts, b.graph_context.revlog@),
        ({
            let at = both.graph_context.next_day_start;
            let turns = turns_of(reckon, model_of, a_parts + b_parts, at);
            forall|day: i32| #[trigger]
                cards_worth(worth, turns, at, turns.len() as int, day) <= cap
        }),
        a.is_history(item_for, batch, accrue, Ok(a_map)),
        b.is_history(item_for, batch, accrue, Ok(b_map)),
        both.is_history(item_for, batch, accrue, Ok(map)),
    ensures
        map@.dom() == a_map@.dom().union(b_map@.dom()),
        forall|day: i32| #[trigger]
            map@.contains_key(day) ==> value(map@[day]) == value_on(value, a_map@, day) + value_on(
                value,
                b_map@,
                day,
            ),
{
    let at = both.graph_context.next_day_start;
    let a_log = a.graph_context.revlog@;
    let b_log = b.graph_context.revlog@;
    let parts = a_parts + b_parts;
    lemma_split_of_both(a_parts, b_parts, a_log, b_log);
    lemma_models_of_both(a, b, both, model_of);
    law_history_is_reckoned(a, item_for, batch, accrue, reckon, model_of, a_parts, a_map);
    law_history_is_reckoned(b, item_for, batch, accrue, reckon, model_of, b_parts, b_map);
    law_history_is_reckoned(both, item_for, batch, accrue, reckon, model_of, parts, map);
    let x = turns_of(reckon, model_of, a_parts, at);
    let y = turns_of(reckon, model_of, b_parts, at);
    let turns = turns_of(reckon, model_of, parts, at);
    assert(turns =~= x + y);
    law_day_has_sum_between_reviews(accrue, x, at, a_map@);
    law_day_has_sum_between_reviews(accrue, y, at, b_map@);
    law_day_has_sum_between_reviews(accrue, turns, at, map@);
    assert forall|day: i32| #[trigger] map@.dom().contains(day) <==> a_map@.dom().union(
        b_map@.dom(),
    ).contains(day) by {
        lemma_counted_in_both(x, y, at, ago_of(day));
        assert(map@.contains_key(day) <==> is_counted(turns, at, ago_of(day)));
        assert(a_map@.contains_key(day) <==> is_counted(x, at, ago_of(day)));
        assert(b_map@.contains_key(day) <==> is_counted(y, at, ago_of(day)));
    }
    assert(map@.dom() =~= a_map@.dom().union(b_map@.dom()));
    assert forall|day: i32| #[trigger] map@.contains_key(day) implies value(map@[day]) == value_on(
        value,
        a_map@,
        day,
    ) + value_on(value, b_map@, day) by {
        assert(cards_worth(worth, turns, at, turns.len() as int, day) <= cap);
        lemma_worth_of_both(worth, x, y, at, turns.len() as int, day);
        assert(cards_worth(worth, y, at, 0, day) == 0);
        lemma_worth_not_negative(worth, x, at, x.len() as int, day);
        lemma_worth_not_negative(worth, y, at, y.len() as int, day);
        lemma_value_on(accrue, worth, value, cap, x, at, a_map@, day);
        lemma_value_on(accrue, worth, value, cap, y, at, b_map@, day);
        lemma_value_on(accrue, worth, value, cap, turns, at, map@, day);
    }
}

proof fn lemma_same_models<F>(
    a: MemorizedContext<F>,
    b: MemorizedContext<F>,
    model_of: spec_fn(CardId) -> F,
    cid: CardId,
)
    requires
        same_but_log(a, b),
        has_model(b, model_of, cid),
    ensures
        has_model(a, model_of, cid),
{
    assert forall|model: F| #[trigger] a.is_model_for(
        a.preset_of_card(cid),
        model,
    ) implies model == model_of(cid) by {
        assert(b.is_model_for(b.preset_of_card(cid), model));
    }
    assert forall|model: F| #[trigger] a.is_model_for(
        Some(a.group_of_card(cid)),
        model,
    ) implies model == model_of(cid) by {
        assert(b.is_model_for(Some(b.group_of_card(cid)), model));
    }
}

/// A card that follows a preset with a model is put to that model.
pub proof fn law_preset_gives_model<F>(
    ctx: MemorizedContext<F>,
    model_of: spec_fn(CardId) -> F,
    cid: CardId,
)
    requires
        ctx.preset_of_card(cid) is Some,
        ctx.per_preset_fsrs@.contains_key(ctx.group_of_card(cid).0),
        model_of(cid) == ctx.per_preset_fsrs@[ctx.group_of_card(cid).0],
    ensures
        has_model(ctx, model_of, cid),
{
}

/// Where the entries of each card stand next to each other, in the order of time, each with a
/// state that is worth more than nothing and at most `most`, a sum is more than nothing and at
/// most `most` for each card of the review log.
pub proof fn law_sum_is_bounded_by_cards<F, S, I, M, V, FItem, FBatch, FAccrue>(
    ctx: MemorizedContext<F>,
    fallback: F,
    item_for: FItem,
    batch: FBatch,
    accrue: FAccrue,
    worth: spec_fn(Term<F, M>) -> int,
    value: spec_fn(V) -> int,
    cap: int,
    most: int,
    logs: Seq<CardLog>,
    items: Seq<CardItem<S, I, AnkiError>>,
    turns: Seq<Option<CardTurn<F, M>>>,
    map: Map<i32, V>,
    day: i32,
) where
    FItem: Fn(&F, Vec<RevlogEntry>, TimestampSecs) -> Result<
        Option<ItemForMemoryState<S, I>>,
        AnkiError,
    >,
    FBatch: Fn(&F, Vec<I>, Vec<Option<S>>) -> Result<Vec<Vec<M>>, AnkiError>,
    FAccrue: Fn(Option<V>, &F, &M, u32) -> V,

    requires
        ctx.is_history_by_card(fallback, item_for, batch, accrue, logs, items, turns, map),
        is_adjacent(ctx.graph_context.revlog@),
        all_tidy(turns, ctx.graph_context.next_day_start),
        adds_worth(accrue, worth, value, cap),
        forall|term: Term<F, M>| 0 < #[trigger] worth(term) <= most,
        most > 0,
        most * cards_of(ctx.graph_context.revlog@).len() <= cap,
        map.contains_key(day),
    ensures
        0 < value(map[day]) <= most * cards_of(ctx.graph_context.revlog@).len(),
{
    let at = ctx.graph_context.next_day_start;
    law_adjacent_entries_make_one_log(logs, ctx.graph_context.revlog@);
    law_card_counts_once_a_day(accrue, worth, value, cap, most, turns, at, map, day);
    let n: int = turns.len() as int;
    let back = cards_back(turns, at, n, ago_of(day));
    assert(most * back <= most * n) by (nonlinear_arith)
        requires
            most > 0,
            back <= n,
    ;
}

} // verus!
