//! Which preset each card follows, and which memory model it is put to.

use crate::card::Card;
use crate::card::CardId;
use crate::card::Deck;
use crate::card::DeckConfigId;
use crate::card::DeckId;
use crate::collection::Collection;
use crate::error::AnkiError;
use crate::graphs::context::blank;
use crate::graphs::context::is_context;
use crate::graphs::context::same_but_searched;
use crate::graphs::context::GraphsContext;
use crate::graphs::context::SchedTimingToday;
use crate::graphs::model::default_model;
use crate::graphs::model::has_default_parameters;
use crate::storage::card_ids_distinct;
use fsrs::FSRS;
use std::collections::HashMap;
use vstd::prelude::*;

verus! {

broadcast use vstd::std_specs::hash::group_hash_axioms;

/// What the memory of the cards is reckoned from. `F` is the memory model of a preset.
pub struct MemorizedContext<F> {
    pub graph_context: GraphsContext,
    /// The memory models by the ids of their presets.
    pub per_preset_fsrs: HashMap<i64, F>,
    /// The presets by the ids of the cards.
    pub card_config_map: HashMap<i64, DeckConfigId>,
}

/// The deck that the card belongs to, also while it is in a filtered deck.
pub open spec fn home_deck(card: Card) -> DeckId {
    if card.original_deck_id.0 != 0 {
        card.original_deck_id
    } else {
        card.deck_id
    }
}

/// The preset of the card's home deck, if there is one.
pub open spec fn preset_of(card: Card, decks: Map<i64, Deck>) -> Option<DeckConfigId> {
    let deck_id = home_deck(card);
    if decks.contains_key(deck_id.0) {
        decks[deck_id.0].config_id
    } else {
        None
    }
}

/// The presets of the cards by the ids of the cards. Of two cards with one id, the later that
/// has a preset counts.
pub open spec fn presets_of(cards: Seq<Card>, decks: Map<i64, Deck>) -> Map<i64, DeckConfigId>
    decreases cards.len(),
{
    if cards.len() == 0 {
        Map::empty()
    } else {
        let earlier = presets_of(cards.drop_last(), decks);
        match preset_of(cards.last(), decks) {
            Some(preset) => earlier.insert(cards.last().id.0, preset),
            None => earlier,
        }
    }
}

/// The models that were built, by the ids of their presets.
pub open spec fn models_of<F>(built: Seq<(DeckConfigId, Result<F, AnkiError>)>) -> Map<i64, F>
    decreases built.len(),
{
    if built.len() == 0 {
        Map::empty()
    } else {
        models_of(built.drop_last()).insert(built.last().0.0, built.last().1->Ok_0)
    }
}

/// `e` is the first error among the models.
pub open spec fn fails_first<F>(
    built: Seq<(DeckConfigId, Result<F, AnkiError>)>,
    e: AnkiError,
) -> bool {
    exists|i: int|
        0 <= i < built.len() && (#[trigger] built[i]).1 == Err::<F, AnkiError>(e) && forall|j: int|
            0 <= j < i ==> (#[trigger] built[j]).1 is Ok
}

/// The outcome of joining the models with what was read for the statistics.
pub open spec fn is_built<F>(
    r: Result<MemorizedContext<F>, AnkiError>,
    ctx: GraphsContext,
    decks: Map<i64, Deck>,
    built: Seq<(DeckConfigId, Result<F, AnkiError>)>,
    fallback: Result<F, AnkiError>,
) -> bool {
    match r {
        Ok(memorized) => {
            &&& forall|i: int| 0 <= i < built.len() ==> (#[trigger] built[i]).1 is Ok
            &&& memorized.graph_context == ctx
            &&& memorized.card_config_map@ == presets_of(ctx.cards@, decks)
            &&& if built.len() > 0 {
                memorized.per_preset_fsrs@ == models_of(built)
            } else {
                fallback matches Ok(model) && memorized.per_preset_fsrs@ == Map::<
                    i64,
                    F,
                >::empty().insert(0, model)
            }
            &&& memorized.wf()
        },
        Err(e) => {
            ||| fails_first(built, e)
            ||| built.len() == 0 && fallback == Err::<F, AnkiError>(e)
        },
    }
}

/// The outcome of joining the models with what was read for the statistics, where the presets
/// may not be had, and a model with the default parameters stands in where there are none.
pub open spec fn is_memorized(
    r: Result<MemorizedContext<FSRS>, AnkiError>,
    ctx: GraphsContext,
    decks: Map<i64, Deck>,
    built: Result<Vec<(DeckConfigId, Result<FSRS, AnkiError>)>, AnkiError>,
) -> bool {
    match built {
        Ok(built) => exists|fallback: FSRS|
            has_default_parameters(fallback) && #[trigger] is_built(
                r,
                ctx,
                decks,
                built@,
                Ok(fallback),
            ),
        Err(e) => r == Err::<MemorizedContext<FSRS>, AnkiError>(e),
    }
}

impl Collection {
    /// Reads what the statistics of all days need, and joins it with the memory models.
    pub fn memorized_context(
        &mut self,
        search: &str,
        found: Result<Vec<CardId>, AnkiError>,
        timing: Result<SchedTimingToday, AnkiError>,
        utc_offset_secs: Result<i32, AnkiError>,
        built: Result<Vec<(DeckConfigId, Result<FSRS, AnkiError>)>, AnkiError>,
    ) -> (r: Result<MemorizedContext<FSRS>, AnkiError>)
        ensures
            match (found, timing, utc_offset_secs) {
                (Err(e), _, _) => r == Err::<MemorizedContext<FSRS>, AnkiError>(e),
                (_, Err(e), _) => r == Err::<MemorizedContext<FSRS>, AnkiError>(e),
                (_, _, Err(e)) => r == Err::<MemorizedContext<FSRS>, AnkiError>(e),
                (Ok(found), Ok(timing), Ok(offset)) => exists|ctx: GraphsContext|
                    #[trigger] is_context(
                        ctx,
                        *old(self),
                        blank(search@),
                        found@,
                        0,
                        timing,
                        offset,
                    ) && is_memorized(r, ctx, old(self).storage.decks(), built),
            },
            found is Err ==> *final(self) == *old(self),
            found is Ok ==> final(self).storage.searched() == Seq::<CardId>::empty(),
            same_but_searched(*final(self), *old(self)),
    {
        let ctx = self.graph_context(search, 0, found, timing, utc_offset_secs)?;
        self.build_memorized_context(ctx, built)
    }

    /// Joins the memory models of the presets of the collection with the presets of the cards.
    /// A collection without presets gets a model with the default parameters. The presets that
    /// could not be had, or the first that has no model, decide.
    pub fn build_memorized_context(
        &self,
        ctx: GraphsContext,
        built: Result<Vec<(DeckConfigId, Result<FSRS, AnkiError>)>, AnkiError>,
    ) -> (r: Result<MemorizedContext<FSRS>, AnkiError>)
        ensures
            is_memorized(r, ctx, self.storage.decks(), built),
    {
        let built = built?;
        let model = default_model()?;
        let ghost fallback = model;
        let r = self.build_memorized_context_with(ctx, built, Ok(model));
        assert(is_built(r, ctx, self.storage.decks(), built@, Ok(fallback)));
        r
    }

    /// Joins the memory models with the presets of the cards.
    ///
    /// `built` are the models of the presets of the collection, `fallback` is one with the
    /// default parameters, for a collection without presets.
    pub fn build_memorized_context_with<F>(
        &self,
        ctx: GraphsContext,
        built: Vec<(DeckConfigId, Result<F, AnkiError>)>,
        fallback: Result<F, AnkiError>,
    ) -> (r: Result<MemorizedContext<F>, AnkiError>)
        ensures
            is_built(r, ctx, self.storage.decks(), built@, fallback),
    {
        let ghost all = built@;
        let mut per_preset_fsrs: HashMap<i64, F> = HashMap::new();
        assert(models_of(all.take(0)) =~= per_preset_fsrs@);
        for preset in it: built.into_iter()
            invariant
                it.seq() == all,
                forall|i: int| 0 <= i < it.index() ==> (#[trigger] all[i]).1 is Ok,
                per_preset_fsrs@ == models_of(all.take(it.index())),
                it.index() > 0 ==> per_preset_fsrs@.contains_key(all[it.index() - 1].0.0),
        {
            assert(all.take(it.index() + 1).drop_last() =~= all.take(it.index()));
            assert(preset == all[it.index()]);
            let (id, model) = preset;
            match model {
                Ok(model) => {
                    per_preset_fsrs.insert(id.0, model);
                },
                Err(e) => {
                    return Err(e);
                },
            }
        }
        assert(all.take(all.len() as int) =~= all);
        if per_preset_fsrs.is_empty() {
            match fallback {
                Ok(model) => {
                    per_preset_fsrs.insert(0, model);
                },
                Err(e) => {
                    return Err(e);
                },
            }
            assert(per_preset_fsrs@.contains_key(0));
        }
        let card_config_map = self.presets_of_cards(&ctx.cards)?;
        Ok(MemorizedContext { graph_context: ctx, per_preset_fsrs, card_config_map })
    }

    /// The presets of the cards, by the home decks of the cards.
    fn presets_of_cards(&self, cards: &Vec<Card>) -> (r: Result<
        HashMap<i64, DeckConfigId>,
        AnkiError,
    >)
        ensures
            r matches Ok(map) && map@ == presets_of(cards@, self.storage.decks()),
    {
        let decks = self.storage.get_decks_map()?;
        let mut map: HashMap<i64, DeckConfigId> = HashMap::new();
        let mut i: usize = 0;
        assert(presets_of(cards@.take(0), decks@) =~= map@);
        while i < cards.len()
            invariant
                i <= cards@.len(),
                decks@ == self.storage.decks(),
                map@ == presets_of(cards@.take(i as int), decks@),
            decreases cards@.len() - i,
        {
            assert(cards@.take(i + 1).drop_last() =~= cards@.take(i as int));
            let card = &cards[i];
            let deck_id = if card.original_deck_id.0 != 0 {
                card.original_deck_id
            } else {
                card.deck_id
            };
            if let Some(deck) = decks.get(&deck_id.0) {
                if let Some(config_id) = deck.config_id() {
                    map.insert(card.id.0, config_id);
                }
            }
            i = i + 1;
        }
        assert(cards@.take(cards@.len() as int) =~= cards@);
        Ok(map)
    }
}

/// In a collection every card has an id of its own, and then each card follows the preset of
/// its home deck, and no other card has one.
pub proof fn law_card_follows_home_deck(cards: Seq<Card>, decks: Map<i64, Deck>)
    requires
        card_ids_distinct(cards),
    ensures
        forall|i: int|
            0 <= i < cards.len() ==> {
                let preset = preset_of(#[trigger] cards[i], decks);
                &&& presets_of(cards, decks).contains_key(cards[i].id.0) <==> preset is Some
                &&& preset is Some ==> presets_of(cards, decks)[cards[i].id.0] == preset->0
            },
        forall|id: i64| #[trigger]
            presets_of(cards, decks).contains_key(id) ==> exists|i: int|
                0 <= i < cards.len() && (#[trigger] cards[i]).id.0 == id,
    decreases cards.len(),
{
    if cards.len() > 0 {
        let fewer = cards.drop_last();
        let last: int = cards.len() - 1;
        assert forall|i: int| 0 <= i < fewer.len() implies #[trigger] fewer[i] == cards[i]
            && fewer[i].id.0 != cards[last].id.0 by {
            assert(cards[i].id != cards[last].id);
        }
        law_card_follows_home_deck(fewer, decks);
        let earlier = presets_of(fewer, decks);
        assert(!earlier.contains_key(cards[last].id.0));
        assert forall|i: int| 0 <= i < cards.len() implies {
            let preset = preset_of(#[trigger] cards[i], decks);
            &&& presets_of(cards, decks).contains_key(cards[i].id.0) <==> preset is Some
            &&& preset is Some ==> presets_of(cards, decks)[cards[i].id.0] == preset->0
        } by {
            if i < last {
                assert(fewer[i] == cards[i]);
            }
        }
        assert forall|id: i64| #[trigger] presets_of(cards, decks).contains_key(id) implies exists|
            i: int,
        |
            0 <= i < cards.len() && (#[trigger] cards[i]).id.0 == id by {
            if earlier.contains_key(id) {
                let i: int = choose|i: int| 0 <= i < fewer.len() && (#[trigger] fewer[i]).id.0 == id;
                assert(cards[i].id.0 == id);
            } else {
                assert(cards[last].id.0 == id);
            }
        }
    }
}

impl<F> MemorizedContext<F> {
    /// There is a memory model.
    pub open spec fn wf(&self) -> bool {
        exists|id: i64| #[trigger] self.per_preset_fsrs@.contains_key(id)
    }

    /// `model` is the one of the preset, or, for a preset without one, any.
    pub open spec fn is_model_for(&self, preset: Option<DeckConfigId>, model: F) -> bool {
        if preset is Some && self.per_preset_fsrs@.contains_key((preset->0).0) {
            model == self.per_preset_fsrs@[(preset->0).0]
        } else {
            exists|id: i64| #[trigger]
                self.per_preset_fsrs@.contains_key(id) && model == self.per_preset_fsrs@[id]
        }
    }

    /// The model of the preset, or `fallback` for a preset without one.
    pub open spec fn model_or(&self, preset: Option<DeckConfigId>, fallback: F) -> F {
        if preset is Some && self.per_preset_fsrs@.contains_key((preset->0).0) {
            self.per_preset_fsrs@[(preset->0).0]
        } else {
            fallback
        }
    }

    /// The preset that the card follows, if there is one.
    pub open spec fn preset_of_card(&self, card_id: CardId) -> Option<DeckConfigId> {
        if self.card_config_map@.contains_key(card_id.0) {
            Some(self.card_config_map@[card_id.0])
        } else {
            None
        }
    }

    /// The preset under which the card is counted: its own, or number 0.
    pub open spec fn group_of_card(&self, card_id: CardId) -> DeckConfigId {
        match self.preset_of_card(card_id) {
            Some(preset) => preset,
            None => DeckConfigId(0),
        }
    }

    /// Some model.
    pub(crate) fn any_fsrs(&self) -> (model: &F)
        requires
            self.wf(),
        ensures
            self.is_model_for(None, *model),
    {
        let models = self.per_preset_fsrs.values();
        let mut first: Option<&F> = None;
        for model in it: models
            invariant
                it.seq().unref().to_set() == self.per_preset_fsrs@.values(),
                it.seq().len() == self.per_preset_fsrs@.dom().len(),
                it.index() > 0 ==> first is Some,
                first matches Some(model) ==> self.is_model_for(None, *model),
        {
            proof {
                let n: int = it.index();
                assert(it.seq().unref()[n] == *model);
                assert(it.seq().unref().to_set().contains(*model));
                assert(self.per_preset_fsrs@.values().contains(*model));
            }
            if first.is_none() {
                first = Some(model);
            }
        }
        proof {
            let id: i64 = choose|id: i64| #[trigger] self.per_preset_fsrs@.contains_key(id);
            assert(self.per_preset_fsrs@.dom().contains(id));
        }
        first.unwrap()
    }

    /// The memory model of the preset that the card follows. A card that follows none, or one
    /// without a model, gets some model.
    pub fn fsrs_for_card(&self, card_id: CardId) -> (model: &F)
        requires
            self.wf(),
        ensures
            self.is_model_for(self.preset_of_card(card_id), *model),
    {
        let fallback = self.any_fsrs();
        self.fsrs_or(self.config_of(card_id), fallback)
    }

    /// The preset that the card follows, if there is one.
    pub(crate) fn config_of(&self, card_id: CardId) -> (preset: Option<DeckConfigId>)
        ensures
            preset == self.preset_of_card(card_id),
    {
        match self.card_config_map.get(&card_id.0) {
            Some(preset) => Some(*preset),
            None => None,
        }
    }

    /// The memory model of the preset, or `fallback` for a preset without one.
    pub(crate) fn fsrs_or<'a>(&'a self, preset: Option<DeckConfigId>, fallback: &'a F) -> (model:
        &'a F)
        ensures
            *model == self.model_or(preset, *fallback),
    {
        if let Some(preset) = preset {
            if let Some(model) = self.per_preset_fsrs.get(&preset.0) {
                return model;
            }
        }
        fallback
    }
}

} // verus!
