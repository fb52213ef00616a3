//! Which preset a card follows, and which memory model it is put to.

use crate::calls::statistics::holds_what_is_read;
use crate::calls::statistics::is_left;
use crate::calls::statistics::lemma_context_holds;
use crate::calls::statistics::picks;
use crate::card::Card;
use crate::card::CardId;
use crate::card::Deck;
use crate::card::DeckConfigId;
use crate::collection::Collection;
use crate::error::AnkiError;
use crate::graphs::context::blank;
use crate::graphs::context::is_context;
use crate::graphs::context::GraphsContext;
use crate::graphs::context::SchedTimingToday;
use crate::graphs::history::items_under;
use crate::graphs::history::CardItem;
use crate::graphs::history::ConfigGroup;
use crate::graphs::memorized::is_built;
use crate::graphs::memorized::is_memorized;
use crate::graphs::memorized::law_card_follows_home_deck;
use crate::graphs::memorized::models_of;
use crate::graphs::memorized::preset_of;
use crate::graphs::memorized::presets_of;
use crate::graphs::memorized::MemorizedContext;
use crate::graphs::model::default_model;
use crate::graphs::model::has_default_parameters;
use crate::graphs::model::memory_states;
use crate::graphs::model::to_anki_error;
use crate::graphs::model::FsrsError;
use crate::graphs::model::FsrsItem;
use fsrs::MemoryState;
use fsrs::FSRS;
use std::collections::HashMap;
use vstd::prelude::*;

verus! {

/// The map has, for the card, the preset of the deck, and nothing where the deck is missing or has
/// none.
pub open spec fn has_preset_of_deck(
    map: Map<i64, DeckConfigId>,
    card_id: CardId,
    decks: Map<i64, Deck>,
    deck_id: i64,
) -> bool {
    &&& map.contains_key(card_id.0) <==> decks.contains_key(deck_id)
        && decks[deck_id].config_id is Some
    &&& map.contains_key(card_id.0) ==> Some(map[card_id.0]) == decks[deck_id].config_id
}

/// Each card has, whatever else is known of it, the preset of the deck that it came from, where
/// there is one, else that of the deck that it is in. No other card has a preset.
pub open spec fn has_presets_of_decks(
    map: Map<i64, DeckConfigId>,
    cards: Seq<Card>,
    decks: Map<i64, Deck>,
) -> bool {
    &&& forall|i: int|
        0 <= i < cards.len() && (#[trigger] cards[i]).original_deck_id.0 != 0
            ==> has_preset_of_deck(map, cards[i].id, decks, cards[i].original_deck_id.0)
    &&& forall|i: int|
        0 <= i < cards.len() && (#[trigger] cards[i]).original_deck_id.0 == 0
            ==> has_preset_of_deck(map, cards[i].id, decks, cards[i].deck_id.0)
    &&& forall|id: i64| #[trigger]
        map.contains_key(id) ==> exists|i: int| 0 <= i < cards.len() && (#[trigger] cards[i]).id.0 == id
}

/// No two of the cards have one id.
pub open spec fn each_has_its_id(cards: Seq<Card>) -> bool {
    forall|i: int, j: int| 0 <= i < j < cards.len() ==> (#[trigger] cards[i]).id != (#[trigger] cards[j]).id
}

/// The map has the models that were built under the ids of their presets, the last where several
/// have one id, and no others.
pub open spec fn has_models_built<F>(
    map: Map<i64, F>,
    built: Seq<(DeckConfigId, Result<F, AnkiError>)>,
) -> bool {
    &&& forall|i: int|
        0 <= i < built.len() && (forall|j: int|
            i < j < built.len() ==> (#[trigger] built[j]).0 != built[i].0) ==> map.contains_key(
            (#[trigger] built[i]).0.0,
        ) && Ok::<F, AnkiError>(map[built[i].0.0]) == built[i].1
    &&& forall|id: i64| #[trigger]
        map.contains_key(id) ==> exists|i: int| 0 <= i < built.len() && (#[trigger] built[i]).0.0 == id
}

/// The map has one model, under number 0.
pub open spec fn has_only<F>(map: Map<i64, F>, model: F) -> bool {
    &&& forall|id: i64| #[trigger] map.contains_key(id) <==> id == 0
    &&& map[0] == model
}

/// `e` is the first of the failures.
pub open spec fn is_first_failure<F>(
    built: Seq<(DeckConfigId, Result<F, AnkiError>)>,
    e: AnkiError,
) -> bool {
    exists|i: int|
        0 <= i < built.len() && (#[trigger] built[i]).1 == Err::<F, AnkiError>(e) && forall|j: int|
            0 <= j < i ==> (#[trigger] built[j]).1 is Ok
}

proof fn lemma_presets(cards: Seq<Card>, decks: Map<i64, Deck>)
    requires
        each_has_its_id(cards),
    ensures
        has_presets_of_decks(presets_of(cards, decks), cards, decks),
{
    law_card_follows_home_deck(cards, decks);
}

proof fn lemma_models<F>(built: Seq<(DeckConfigId, Result<F, AnkiError>)>)
    requires
        forall|i: int| 0 <= i < built.len() ==> (#[trigger] built[i]).1 is Ok,
    ensures
        has_models_built(models_of(built), built),
    decreases built.len(),
{
    if built.len() > 0 {
        let fewer = built.drop_last();
        let n: int = built.len() - 1;
        assert forall|i: int| 0 <= i < fewer.len() implies (#[trigger] fewer[i]).1 is Ok by {
            assert(built[i].1 is Ok);
        }
        lemma_models(fewer);
        let map = models_of(built);
        let earlier = models_of(fewer);
        assert(built[n].1 is Ok);
        assert forall|i: int|
            0 <= i < built.len() && (forall|j: int|
                i < j < built.len() ==> (#[trigger] built[j]).0 != built[i].0) implies map.contains_key(
            (#[trigger] built[i]).0.0,
        ) && Ok::<F, AnkiError>(map[built[i].0.0]) == built[i].1 by {
            if i < n {
                assert(built[n].0 != built[i].0);
                assert(fewer[i] == built[i]);
                assert forall|j: int| i < j < fewer.len() implies (#[trigger] fewer[j]).0
                    != fewer[i].0 by {
                    assert(built[j].0 != built[i].0);
                }
                assert(earlier.contains_key(fewer[i].0.0));
            }
        }
        assert forall|id: i64| #[trigger] map.contains_key(id) implies exists|i: int|
            0 <= i < built.len() && (#[trigger] built[i]).0.0 == id by {
            if id == built[n].0.0 {
            } else {
                assert(earlier.contains_key(id));
                let i: int = choose|i: int| 0 <= i < fewer.len() && (#[trigger] fewer[i]).0.0 == id;
                assert(built[i].0.0 == id);
            }
        }
    }
}

/// The context has what was read, the presets of the cards, and the models that were built, or,
/// where there are none, the one that stands in.
pub open spec fn is_joined<F>(
    memorized: MemorizedContext<F>,
    ctx: GraphsContext,
    decks: Map<i64, Deck>,
    built: Seq<(DeckConfigId, Result<F, AnkiError>)>,
    fallback: F,
) -> bool {
    &&& memorized.graph_context == ctx
    &&& each_has_its_id(ctx.cards@) ==> has_presets_of_decks(
        memorized.card_config_map@,
        ctx.cards@,
        decks,
    )
    &&& built.len() > 0 ==> has_models_built(memorized.per_preset_fsrs@, built)
    &&& built.len() == 0 ==> has_only(memorized.per_preset_fsrs@, fallback)
}

proof fn lemma_joined<F>(
    r: Result<MemorizedContext<F>, AnkiError>,
    ctx: GraphsContext,
    decks: Map<i64, Deck>,
    built: Seq<(DeckConfigId, Result<F, AnkiError>)>,
    fallback: Result<F, AnkiError>,
)
    requires
        is_built(r, ctx, decks, built, fallback),
    ensures
        r is Ok <==> (forall|i: int| 0 <= i < built.len() ==> (#[trigger] built[i]).1 is Ok) && (
        built.len() == 0 ==> fallback is Ok),
        r is Ok ==> (built.len() == 0 ==> fallback is Ok) && is_joined(
            r->Ok_0,
            ctx,
            decks,
            built,
            fallback->Ok_0,
        ),
        r is Err ==> is_first_failure(built, r->Err_0) || built.len() == 0 && fallback == Err::<
            F,
            AnkiError,
        >(r->Err_0),
{
    if let Ok(memorized) = r {
        if each_has_its_id(ctx.cards@) {
            lemma_presets(ctx.cards@, decks);
        }
        lemma_models(built);
    }
}

/// The models are joined with the presets of the cards: a card follows the deck that it came from,
/// or the one that it is in, whatever its other fields are. The first model that failed is what
/// the request is answered with.
pub proof fn law_models_are_joined<F>(
    col: Collection,
    ctx: GraphsContext,
    built: Vec<(DeckConfigId, Result<F, AnkiError>)>,
    fallback: Result<F, AnkiError>,
    r: Result<MemorizedContext<F>, AnkiError>,
)
    requires
        call_ensures(
            Collection::build_memorized_context_with::<F>,
            (&col, ctx, built, fallback),
            r,
        ),
    ensures
        r is Ok <==> (forall|i: int| 0 <= i < built@.len() ==> (#[trigger] built@[i]).1 is Ok) && (
        built@.len() == 0 ==> fallback is Ok),
        r is Ok ==> is_joined(r->Ok_0, ctx, col.storage.decks(), built@, fallback->Ok_0),
        r is Err ==> is_first_failure(built@, r->Err_0) || built@.len() == 0 && fallback == Err::<
            F,
            AnkiError,
        >(r->Err_0),
{
    lemma_joined(r, ctx, col.storage.decks(), built@, fallback);
}

/// For every card with an id of its own that came from another deck, the map has the preset of
/// that deck; for every other, that of the deck that it is in.
pub proof fn law_card_follows_its_deck<F>(
    col: Collection,
    ctx: GraphsContext,
    built: Vec<(DeckConfigId, Result<F, AnkiError>)>,
    fallback: Result<F, AnkiError>,
    r: Result<MemorizedContext<F>, AnkiError>,
    card: Card,
)
    requires
        call_ensures(
            Collection::build_memorized_context_with::<F>,
            (&col, ctx, built, fallback),
            r,
        ),
        r is Ok,
        each_has_its_id(ctx.cards@),
        ctx.cards@.contains(card),
    ensures
        card.original_deck_id.0 != 0 ==> has_preset_of_deck(
            (r->Ok_0).card_config_map@,
            card.id,
            col.storage.decks(),
            card.original_deck_id.0,
        ),
        card.original_deck_id.0 == 0 ==> has_preset_of_deck(
            (r->Ok_0).card_config_map@,
            card.id,
            col.storage.decks(),
            card.deck_id.0,
        ),
{
    law_models_are_joined(col, ctx, built, fallback, r);
    let i: int = choose|i: int| 0 <= i < ctx.cards@.len() && ctx.cards@[i] == card;
    assert(ctx.cards@[i].id == card.id);
}

/// Cards that are in the same decks follow the same preset, however else they differ.
pub proof fn law_same_decks_same_preset<F>(
    col: Collection,
    ctx: GraphsContext,
    built: Vec<(DeckConfigId, Result<F, AnkiError>)>,
    fallback: Result<F, AnkiError>,
    r: Result<MemorizedContext<F>, AnkiError>,
    a: Card,
    b: Card,
)
    requires
        call_ensures(
            Collection::build_memorized_context_with::<F>,
            (&col, ctx, built, fallback),
            r,
        ),
        r is Ok,
        each_has_its_id(ctx.cards@),
        ctx.cards@.contains(a),
        ctx.cards@.contains(b),
        a.deck_id == b.deck_id,
        a.original_deck_id == b.original_deck_id,
    ensures
        ({
            let map = (r->Ok_0).card_config_map@;
            &&& map.contains_key(a.id.0) <==> map.contains_key(b.id.0)
            &&& map.contains_key(a.id.0) ==> map[a.id.0] == map[b.id.0]
        }),
{
    law_card_follows_its_deck(col, ctx, built, fallback, r, a);
    law_card_follows_its_deck(col, ctx, built, fallback, r, b);
}

/// The card follows the preset: it is that of the deck that the card came from, where there is
/// one, else of the deck that it is in.
pub open spec fn follows(card: Card, decks: Map<i64, Deck>, preset: DeckConfigId) -> bool {
    &&& card.original_deck_id.0 != 0 ==> decks.contains_key(card.original_deck_id.0)
        && decks[card.original_deck_id.0].config_id == Some(preset)
    &&& card.original_deck_id.0 == 0 ==> decks.contains_key(card.deck_id.0)
        && decks[card.deck_id.0].config_id == Some(preset)
}

proof fn lemma_latest_preset(cards: Seq<Card>, decks: Map<i64, Deck>, i: int, preset: DeckConfigId)
    requires
        0 <= i < cards.len(),
        follows(cards[i], decks, preset),
        forall|j: int, other: DeckConfigId|
            i < j < cards.len() && #[trigger] follows(cards[j], decks, other) ==> cards[j].id
                != cards[i].id,
    ensures
        presets_of(cards, decks).contains_key(cards[i].id.0),
        presets_of(cards, decks)[cards[i].id.0] == preset,
    decreases cards.len(),
{
    let fewer = cards.drop_last();
    let n: int = cards.len() - 1;
    if i < n {
        assert(fewer[i] == cards[i]);
        assert forall|j: int, other: DeckConfigId|
            i < j < fewer.len() && #[trigger] follows(
                fewer[j],
                decks,
                other,
            ) implies fewer[j].id != fewer[i].id by {
            assert(fewer[j] == cards[j]);
            assert(follows(cards[j], decks, other));
        }
        lemma_latest_preset(fewer, decks, i, preset);
        if let Some(other) = preset_of(cards[n], decks) {
            assert(follows(cards[n], decks, other));
        }
    } else {
        assert(preset_of(cards[n], decks) == Some(preset));
    }
}

/// Of cards with one id, the latest that follows a preset counts.
pub proof fn law_latest_card_counts<F>(
    col: Collection,
    ctx: GraphsContext,
    built: Vec<(DeckConfigId, Result<F, AnkiError>)>,
    fallback: Result<F, AnkiError>,
    r: Result<MemorizedContext<F>, AnkiError>,
    i: int,
    preset: DeckConfigId,
)
    requires
        call_ensures(
            Collection::build_memorized_context_with::<F>,
            (&col, ctx, built, fallback),
            r,
        ),
        r is Ok,
        0 <= i < ctx.cards@.len(),
        follows(ctx.cards@[i], col.storage.decks(), preset),
        forall|j: int, other: DeckConfigId|
            i < j < ctx.cards@.len() && #[trigger] follows(
                ctx.cards@[j],
                col.storage.decks(),
                other,
            ) ==> ctx.cards@[j].id != ctx.cards@[i].id,
    ensures
        (r->Ok_0).card_config_map@.contains_key(ctx.cards@[i].id.0),
        (r->Ok_0).card_config_map@[ctx.cards@[i].id.0] == preset,
{
    lemma_latest_preset(ctx.cards@, col.storage.decks(), i, preset);
}

/// The outcome of joining what was read with the models of the presets, a model with the default
/// parameters standing in where there are none.
pub open spec fn is_joined_or_failed(
    r: Result<MemorizedContext<FSRS>, AnkiError>,
    ctx: GraphsContext,
    decks: Map<i64, Deck>,
    built: Result<Vec<(DeckConfigId, Result<FSRS, AnkiError>)>, AnkiError>,
) -> bool {
    match built {
        Err(e) => r is Err && r->Err_0 == e,
        Ok(built) => {
            &&& r is Ok <==> (forall|i: int|
                0 <= i < built@.len() ==> (#[trigger] built@[i]).1 is Ok)
            &&& r is Ok ==> exists|fallback: FSRS| #[trigger]
                has_default_parameters(fallback) && is_joined(
                    r->Ok_0,
                    ctx,
                    decks,
                    built@,
                    fallback,
                )
            &&& r is Err ==> is_first_failure(built@, r->Err_0)
        },
    }
}

/// What is memorized is joined.
pub proof fn lemma_memorized_is_joined(
    r: Result<MemorizedContext<FSRS>, AnkiError>,
    ctx: GraphsContext,
    decks: Map<i64, Deck>,
    built: Result<Vec<(DeckConfigId, Result<FSRS, AnkiError>)>, AnkiError>,
)
    requires
        is_memorized(r, ctx, decks, built),
    ensures
        is_joined_or_failed(r, ctx, decks, built),
{
    if let Ok(built) = built {
        let fallback = choose|fallback: FSRS|
            has_default_parameters(fallback) && #[trigger] is_built(
                r,
                ctx,
                decks,
                built@,
                Ok(fallback),
            );
        lemma_joined(r, ctx, decks, built@, Ok(fallback));
    }
}

/// The models of the presets of the collection are joined with what was read, and a collection
/// without presets gets one with the default parameters. Presets that could not be had, or the
/// first without a model, are what the request is answered with.
pub proof fn law_presets_are_joined(
    col: Collection,
    ctx: GraphsContext,
    built: Result<Vec<(DeckConfigId, Result<FSRS, AnkiError>)>, AnkiError>,
    r: Result<MemorizedContext<FSRS>, AnkiError>,
)
    requires
        call_ensures(Collection::build_memorized_context, (&col, ctx, built), r),
    ensures
        is_joined_or_failed(r, ctx, col.storage.decks(), built),
{
    lemma_memorized_is_joined(r, ctx, col.storage.decks(), built);
}

/// Cards that were picked of cards with ids of their own have ids of their own.
proof fn lemma_picked_cards(list: Seq<Card>, table: Seq<Card>)
    requires
        picks(list, table),
        each_has_its_id(table),
    ensures
        each_has_its_id(list),
{
    let places = choose|places: Seq<int>|
        {
            &&& places.len() == list.len()
            &&& forall|k: int|
                0 <= k < list.len() ==> 0 <= #[trigger] places[k] < table.len()
                    && table[places[k]] == list[k]
            &&& forall|k: int, m: int|
                0 <= k < m < list.len() ==> #[trigger] places[k] < #[trigger] places[m]
        };
    assert forall|i: int, j: int| 0 <= i < j < list.len() implies (#[trigger] list[i]).id != (
    #[trigger] list[j]).id by {
        assert(places[i] < places[j]);
        assert(table[places[i]].id != table[places[j]].id);
    }
}

/// What was read of all days for the search is joined with the models of the presets.
pub proof fn law_search_is_joined(
    col: Collection,
    left: Collection,
    search: &str,
    found: Vec<CardId>,
    timing: SchedTimingToday,
    utc_offset_secs: i32,
    built: Result<Vec<(DeckConfigId, Result<FSRS, AnkiError>)>, AnkiError>,
    r: Result<MemorizedContext<FSRS>, AnkiError>,
)
    requires
        exists|c: &mut Collection|
            *c == col && *final(c) == left && #[trigger] call_ensures(
                Collection::memorized_context,
                (c, search, Ok(found), Ok(timing), Ok(utc_offset_secs), built),
                r,
            ),
    ensures
        exists|ctx: GraphsContext|
            #[trigger] holds_what_is_read(ctx, col, search@, 0, found@, timing, utc_offset_secs)
                && is_joined_or_failed(r, ctx, col.storage.decks(), built) && (col.storage.wf()
                ==> each_has_its_id(ctx.cards@)),
        is_left(col, left),
{
    let ctx = choose|ctx: GraphsContext|
        #[trigger] is_context(ctx, col, blank(search@), found@, 0, timing, utc_offset_secs)
            && is_memorized(r, ctx, col.storage.decks(), built);
    lemma_context_holds(ctx, col, search@, 0, found@, timing, utc_offset_secs);
    lemma_memorized_is_joined(r, ctx, col.storage.decks(), built);
    if col.storage.wf() {
        lemma_picked_cards(ctx.cards@, col.storage.cards());
    }
}

/// A search that fails, then a day that cannot be told, then an offset that cannot be had, is what
/// the request is answered with.
pub proof fn law_first_failure_answers_join(
    col: Collection,
    left: Collection,
    search: &str,
    found: Result<Vec<CardId>, AnkiError>,
    timing: Result<SchedTimingToday, AnkiError>,
    utc_offset_secs: Result<i32, AnkiError>,
    built: Result<Vec<(DeckConfigId, Result<FSRS, AnkiError>)>, AnkiError>,
    r: Result<MemorizedContext<FSRS>, AnkiError>,
)
    requires
        exists|c: &mut Collection|
            *c == col && *final(c) == left && #[trigger] call_ensures(
                Collection::memorized_context,
                (c, search, found, timing, utc_offset_secs, built),
                r,
            ),
    ensures
        found is Err ==> r is Err && r->Err_0 == found->Err_0 && left == col,
        found is Ok && timing is Err ==> r is Err && r->Err_0 == timing->Err_0,
        found is Ok && timing is Ok && utc_offset_secs is Err ==> r is Err && r->Err_0
            == utc_offset_secs->Err_0,
        found is Ok ==> is_left(col, left),
{
}

/// A card that follows a preset with a model is put to that model; any other to one of the models.
pub proof fn law_card_is_put_to_its_model<F>(
    ctx: MemorizedContext<F>,
    card_id: CardId,
    model: F,
)
    requires
        call_ensures(MemorizedContext::<F>::fsrs_for_card, (&ctx, card_id), &model),
    ensures
        exists|id: i64| #[trigger]
            ctx.per_preset_fsrs@.contains_key(id) && ctx.per_preset_fsrs@[id] == model,
        ctx.card_config_map@.contains_key(card_id.0) && ctx.per_preset_fsrs@.contains_key(
            ctx.card_config_map@[card_id.0].0,
        ) ==> model == ctx.per_preset_fsrs@[ctx.card_config_map@[card_id.0].0],
{
}

/// A card is counted under the preset that it follows, or under number 0.
pub proof fn law_card_is_counted_under_its_preset<F>(
    ctx: MemorizedContext<F>,
    card_id: CardId,
    config_id: DeckConfigId,
)
    requires
        call_ensures(MemorizedContext::<F>::config_for_card, (&ctx, card_id), config_id),
    ensures
        ctx.card_config_map@.contains_key(card_id.0) ==> config_id
            == ctx.card_config_map@[card_id.0],
        !ctx.card_config_map@.contains_key(card_id.0) ==> config_id.0 == 0,
{
}

/// There is an item for the card, and the card is counted under the preset.
pub open spec fn belongs_to<F, S, I, E>(
    ctx: MemorizedContext<F>,
    item: CardItem<S, I, E>,
    config_id: i64,
) -> bool {
    &&& item.1 is Ok
    &&& item.1->Ok_0 is Some
    &&& ctx.card_config_map@.contains_key(item.0.0) ==> ctx.card_config_map@[item.0.0].0 == config_id
    &&& !ctx.card_config_map@.contains_key(item.0.0) ==> config_id == 0
}

/// The places are those of the items that belong to the preset, in their order.
pub open spec fn are_places<F, S, I, E>(
    places: Seq<int>,
    ctx: MemorizedContext<F>,
    items: Seq<CardItem<S, I, E>>,
    config_id: i64,
) -> bool {
    &&& forall|k: int|
        0 <= k < places.len() ==> 0 <= #[trigger] places[k] < items.len() && belongs_to(
            ctx,
            items[places[k]],
            config_id,
        )
    &&& forall|k: int, m: int|
        0 <= k < m < places.len() ==> #[trigger] places[k] < #[trigger] places[m]
    &&& forall|i: int|
        0 <= i < items.len() && belongs_to(ctx, #[trigger] items[i], config_id) ==> places.contains(
            i,
        )
}

/// The group holds, in order, what stands at the places.
pub open spec fn holds_places<S, I, E>(
    group: ConfigGroup<S, I>,
    items: Seq<CardItem<S, I, E>>,
    places: Seq<int>,
) -> bool {
    &&& group.fsrs_items@.len() == places.len()
    &&& group.starting_states@.len() == places.len()
    &&& group.filtered_revlogs@.len() == places.len()
    &&& forall|k: int|
        0 <= k < places.len() ==> {
            let item = items[#[trigger] places[k]].1->Ok_0->0;
            &&& group.fsrs_items@[k] == item.item
            &&& group.starting_states@[k] == item.starting_state
            &&& group.filtered_revlogs@[k] == item.filtered_revlogs
        }
}

proof fn lemma_places<F, S, I, E>(
    ctx: MemorizedContext<F>,
    items: Seq<CardItem<S, I, E>>,
    config_id: i64,
) -> (places: Seq<int>)
    ensures
        are_places(places, ctx, items, config_id),
        places.len() == items_under(ctx, items, config_id).len(),
        forall|k: int|
            0 <= k < places.len() ==> items_under(ctx, items, config_id)[k] == items[#[trigger] places[k]].1->Ok_0->0,
    decreases items.len(),
{
    if items.len() == 0 {
        Seq::empty()
    } else {
        let fewer = items.drop_last();
        let n: int = items.len() - 1;
        let shorter = lemma_places(ctx, fewer, config_id);
        let earlier = items_under(ctx, fewer, config_id);
        let all = items_under(ctx, items, config_id);
        let more = belongs_to(ctx, items[n], config_id);
        let places = if more {
            shorter.push(n)
        } else {
            shorter
        };
        assert(all == if more {
            earlier.push(items[n].1->Ok_0->0)
        } else {
            earlier
        });
        assert forall|k: int| 0 <= k < places.len() implies 0 <= #[trigger] places[k] < items.len()
            && belongs_to(ctx, items[places[k]], config_id) && all[k]
            == items[places[k]].1->Ok_0->0 by {
            if k < shorter.len() {
                assert(places[k] == shorter[k]);
                assert(items[shorter[k]] == fewer[shorter[k]]);
            }
        }
        assert forall|k: int, m: int| 0 <= k < m < places.len() implies #[trigger] places[k]
            < #[trigger] places[m] by {
            assert(places[k] == shorter[k]);
            if m < shorter.len() {
                assert(places[m] == shorter[m]);
            }
        }
        assert forall|i: int|
            0 <= i < items.len() && belongs_to(
                ctx,
                #[trigger] items[i],
                config_id,
            ) implies places.contains(i) by {
            if i < n {
                assert(fewer[i] == items[i]);
                assert(shorter.contains(i));
                let k: int = choose|k: int| 0 <= k < shorter.len() && shorter[k] == i;
                assert(places[k] == i);
            } else {
                assert(places[shorter.len() as int] == i);
            }
        }
        places
    }
}

/// A preset has a group if and only if a card with an item is counted under it, and the group
/// holds the items of all such cards, in their order; cards without an item are left out.
pub proof fn law_items_are_grouped<F, S, I, E>(
    ctx: MemorizedContext<F>,
    items: Vec<CardItem<S, I, E>>,
    groups: HashMap<i64, ConfigGroup<S, I>>,
    config_id: i64,
)
    requires
        call_ensures(MemorizedContext::<F>::group_by_config::<S, I, E>, (&ctx, items), groups),
    ensures
        groups@.contains_key(config_id) <==> exists|i: int|
            0 <= i < items@.len() && belongs_to(ctx, #[trigger] items@[i], config_id),
        groups@.contains_key(config_id) ==> exists|places: Seq<int>| #[trigger]
            are_places(places, ctx, items@, config_id) && holds_places(
                groups@[config_id],
                items@,
                places,
            ),
{
    let places = lemma_places(ctx, items@, config_id);
    let under = items_under(ctx, items@, config_id);
    assert(groups@.contains_key(config_id) <==> under.len() > 0);
    if under.len() > 0 {
        assert(belongs_to(ctx, items@[places[0]], config_id));
    }
    if exists|i: int| 0 <= i < items@.len() && belongs_to(ctx, #[trigger] items@[i], config_id) {
        let i: int = choose|i: int|
            0 <= i < items@.len() && belongs_to(ctx, #[trigger] items@[i], config_id);
        assert(places.contains(i));
    }
    if groups@.contains_key(config_id) {
        let group = groups@[config_id];
        assert forall|k: int| 0 <= k < places.len() implies {
            let item = items@[#[trigger] places[k]].1->Ok_0->0;
            &&& group.fsrs_items@[k] == item.item
            &&& group.starting_states@[k] == item.starting_state
            &&& group.filtered_revlogs@[k] == item.filtered_revlogs
        } by {
            assert(under[k] == items@[places[k]].1->Ok_0->0);
        }
        assert(holds_places(group, items@, places));
    }
}

/// The memory model gives a list of states for each item, in their order: the starting state where
/// there is one, and one after each review. Without items there is nothing to give; where the
/// numbers of items and of starting states differ, the input is invalid, and no failure is of
/// another sort.
pub proof fn law_states_are_given(
    model: FSRS,
    items: Vec<FsrsItem>,
    starting_states: Vec<Option<MemoryState>>,
    r: Result<Vec<Vec<MemoryState>>, AnkiError>,
)
    requires
        call_ensures(memory_states, (&model, items, starting_states), r),
    ensures
        r is Ok ==> {
            let lists = r->Ok_0;
            &&& lists@.len() == items@.len()
            &&& forall|i: int|
                0 <= i < items@.len() ==> {
                    let list = (#[trigger] lists@[i])@;
                    match starting_states@[i] {
                        Some(state) => list.len() == 1 + items@[i].reviews@.len() && list[0]
                            == state,
                        None => list.len() == items@[i].reviews@.len(),
                    }
                }
        },
        r is Err ==> r->Err_0 is InvalidInput,
        items@.len() == 0 ==> r is Ok,
        items@.len() > 0 && items@.len() != starting_states@.len() ==> r is Err,
        items@.len() == starting_states@.len() && (forall|i: int|
            0 <= i < items@.len() ==> (#[trigger] items@[i]).reviews@.len() == 0) ==> r is Ok,
{
    if let Err(_) = r {
        if items@.len() == starting_states@.len() {
            let i: int = choose|i: int|
                0 <= i < items@.len() && (#[trigger] items@[i]).reviews@.len() > 0;
            assert(items@[i].reviews@.len() > 0);
        }
    } else {
        let lists = r->Ok_0;
        assert forall|i: int| 0 <= i < items@.len() implies {
            let list = (#[trigger] lists@[i])@;
            match starting_states@[i] {
                Some(state) => list.len() == 1 + items@[i].reviews@.len() && list[0] == state,
                None => list.len() == items@[i].reviews@.len(),
            }
        } by {
            assert(crate::graphs::model::is_state_list(
                lists@[i]@,
                items@[i],
                starting_states@[i],
            ));
        }
    }
}

/// What the memory model calls off is called off, invalid parameters are parameters of a preset
/// that do not do, what cannot be found is a share of cards to remember, and anything else is
/// input that was rejected.
pub proof fn law_failure_of_model(e: FsrsError, error: AnkiError)
    requires
        call_ensures(to_anki_error, (e,), error),
    ensures
        e is Interrupted <==> error is Interrupted,
        e is InvalidParameters <==> error is FsrsParamsInvalid,
        e is OptimalNotFound <==> error is FsrsUnableToDetermineDesiredRetention,
        e is NotEnoughData || e is InvalidInput || e is InvalidDeckSize <==> error is InvalidInput,
{
}

/// There is always a model with the default parameters.
pub proof fn law_default_model_is_had(r: Result<FSRS, AnkiError>)
    requires
        call_ensures(default_model, (), r),
    ensures
        r is Ok,
        has_default_parameters(r->Ok_0),
{
}

} // verus!
