//! The statistics of a collection, put together.

use crate::card::CardId;
use crate::card::DeckConfigId;
use crate::collection::Collection;
use crate::error::AnkiError;
use crate::graphs::context::blank;
use crate::graphs::context::is_context;
use crate::graphs::context::revlog_start;
use crate::graphs::context::same_but_searched;
use crate::graphs::context::GraphsContext;
use crate::graphs::context::SchedTimingToday;
use crate::graphs::history::ItemForMemoryState;
use crate::graphs::memorized::is_memorized;
use crate::graphs::memorized::MemorizedContext;
use crate::graphs::model::memory_states;
use crate::graphs::model::FsrsItem;
use crate::revlog::RevlogEntry;
use crate::timestamp::TimestampSecs;
use fsrs::MemoryState;
use fsrs::FSRS;
use std::collections::HashMap;
use vstd::prelude::*;

verus! {

/// What was remembered on each day, by day.
pub struct Added<V> {
    pub added: HashMap<i32, V>,
}

/// Draws the other graphs from what was read. Nothing is asked of the drawings.
pub trait Graphs {
    type Eases;

    type Difficulty;

    type Reviews;

    type TrueRetention;

    type FutureDue;

    type Intervals;

    type Stability;

    type Today;

    type Hours;

    type Buttons;

    type CardCounts;

    type Retrievability;

    /// The graphs of the eases and of the difficulties.
    fn eases(&self, ctx: &GraphsContext) -> (Self::Eases, Self::Difficulty);

    fn review_counts_and_times(&self, ctx: &GraphsContext) -> Self::Reviews;

    fn calculate_true_retention(&self, ctx: &GraphsContext) -> Self::TrueRetention;

    fn future_due(&self, ctx: &GraphsContext) -> Self::FutureDue;

    fn intervals(&self, ctx: &GraphsContext) -> Self::Intervals;

    fn stability(&self, ctx: &GraphsContext) -> Self::Stability;

    fn today(&self, ctx: &GraphsContext) -> Self::Today;

    fn hours(&self, ctx: &GraphsContext) -> Self::Hours;

    fn buttons(&self, ctx: &GraphsContext) -> Self::Buttons;

    fn card_counts(&self, ctx: &GraphsContext) -> Self::CardCounts;

    fn retrievability(&self, ctx: &GraphsContext) -> Self::Retrievability;
}

/// The statistics: `V` is how much was remembered on a day, `G` draws the other graphs.
pub struct GraphsResponse<V, G: Graphs> {
    pub added: Option<Added<V>>,
    pub reviews: Option<G::Reviews>,
    pub true_retention: Option<G::TrueRetention>,
    pub future_due: Option<G::FutureDue>,
    pub intervals: Option<G::Intervals>,
    pub stability: Option<G::Stability>,
    pub eases: Option<G::Eases>,
    pub difficulty: Option<G::Difficulty>,
    pub today: Option<G::Today>,
    pub hours: Option<G::Hours>,
    pub buttons: Option<G::Buttons>,
    pub card_counts: Option<G::CardCounts>,
    pub rollover_hour: u32,
    pub retrievability: Option<G::Retrievability>,
    pub fsrs: bool,
}

/// Every other graph is there, in its own place, as it was drawn from what was read.
pub open spec fn is_drawn<V, G: Graphs>(
    response: GraphsResponse<V, G>,
    graphs: G,
    ctx: GraphsContext,
) -> bool {
    &&& response.eases matches Some(eases)
    &&& response.difficulty matches Some(difficulty)
    &&& call_ensures(G::eases, (&graphs, &ctx), (eases, difficulty))
    &&& response.reviews matches Some(graph) && call_ensures(G::review_counts_and_times, (&graphs, &ctx), graph)
    &&& response.true_retention matches Some(graph) && call_ensures(G::calculate_true_retention, (&graphs, &ctx), graph)
    &&& response.future_due matches Some(graph) && call_ensures(G::future_due, (&graphs, &ctx), graph)
    &&& response.intervals matches Some(graph) && call_ensures(G::intervals, (&graphs, &ctx), graph)
    &&& response.stability matches Some(graph) && call_ensures(G::stability, (&graphs, &ctx), graph)
    &&& response.today matches Some(graph) && call_ensures(G::today, (&graphs, &ctx), graph)
    &&& response.hours matches Some(graph) && call_ensures(G::hours, (&graphs, &ctx), graph)
    &&& response.buttons matches Some(graph) && call_ensures(G::buttons, (&graphs, &ctx), graph)
    &&& response.card_counts matches Some(graph) && call_ensures(G::card_counts, (&graphs, &ctx), graph)
    &&& response.retrievability matches Some(graph) && call_ensures(G::retrievability, (&graphs, &ctx), graph)
}

/// The outcome of putting the statistics together, once it is settled what was remembered.
pub open spec fn is_put_together<V, G: Graphs>(
    r: Result<GraphsResponse<V, G>, AnkiError>,
    ctx: GraphsContext,
    added: Result<HashMap<i32, V>, AnkiError>,
    graphs: G,
    rollover_hour: Result<u8, AnkiError>,
    fsrs: bool,
) -> bool {
    match (added, rollover_hour) {
        (Err(e), _) => r == Err::<GraphsResponse<V, G>, AnkiError>(e),
        (_, Err(e)) => r == Err::<GraphsResponse<V, G>, AnkiError>(e),
        (Ok(added), Ok(hour)) => {
            &&& r matches Ok(response)
            &&& response.added == Some(Added { added })
            &&& is_drawn(response, graphs, ctx)
            &&& response.rollover_hour == hour
            &&& response.fsrs == fsrs
        },
    }
}

impl Collection {
    /// The outcome of the statistics for what was read: the memory models are joined with it, it
    /// is reckoned what was remembered, and the rest is put together. What fails first decides.
    pub open spec fn is_response<V, G, FItem, FAccrue>(
        &self,
        r: Result<GraphsResponse<V, G>, AnkiError>,
        ctx: GraphsContext,
        built: Result<Vec<(DeckConfigId, Result<FSRS, AnkiError>)>, AnkiError>,
        item_for: FItem,
        accrue: FAccrue,
        graphs: G,
        rollover_hour: Result<u8, AnkiError>,
    ) -> bool where
        FItem: Fn(&FSRS, Vec<RevlogEntry>, TimestampSecs) -> Result<
            Option<ItemForMemoryState<MemoryState, FsrsItem>>,
            AnkiError,
        >,
        FAccrue: Fn(Option<V>, &FSRS, &MemoryState, u32) -> V,
        G: Graphs,
     {
        exists|memorized: Result<MemorizedContext<FSRS>, AnkiError>|
            {
                &&& #[trigger] is_memorized(memorized, ctx, self.storage.decks(), built)
                &&& match memorized {
                    Err(e) => r == Err::<GraphsResponse<V, G>, AnkiError>(e),
                    Ok(memorized) => exists|added: Result<HashMap<i32, V>, AnkiError>|
                        #[trigger] memorized.is_history(item_for, memory_states, accrue, added)
                            && is_put_together(
                            r,
                            ctx,
                            added,
                            graphs,
                            rollover_hour,
                            self.config.fsrs,
                        ),
                }
            }
    }

    /// Puts the statistics together for what was read of the collection.
    ///
    /// `built` are the memory models of the presets, `item_for` and `accrue` are how they are put
    /// to use. `graphs` draws the other graphs, `rollover_hour` is the hour at which a day ends.
    pub fn graph_data<V, G, FItem, FAccrue>(
        &self,
        ctx: GraphsContext,
        built: Result<Vec<(DeckConfigId, Result<FSRS, AnkiError>)>, AnkiError>,
        item_for: &FItem,
        accrue: &FAccrue,
        graphs: &G,
        rollover_hour: Result<u8, AnkiError>,
    ) -> (r: Result<GraphsResponse<V, G>, AnkiError>) where
        FItem: Fn(&FSRS, Vec<RevlogEntry>, TimestampSecs) -> Result<
            Option<ItemForMemoryState<MemoryState, FsrsItem>>,
            AnkiError,
        >,
        FAccrue: Fn(Option<V>, &FSRS, &MemoryState, u32) -> V,
        G: Graphs,

        requires
            forall|model: &FSRS, log: Vec<RevlogEntry>, at: TimestampSecs|
                call_requires(*item_for, (model, log, at)),
            forall|before: Option<V>, model: &FSRS, state: &MemoryState, elapsed: u32|
                call_requires(*accrue, (before, model, state, elapsed)),
        ensures
            self.is_response(r, ctx, built, *item_for, *accrue, *graphs, rollover_hour),
    {
        let (eases, difficulty) = graphs.eases(&ctx);
        let memorized = self.build_memorized_context(ctx, built)?;
        let history = memorized.historical_fsrs(item_for, accrue);
        let ghost reckoned = history;
        assert(memorized.is_history(*item_for, memory_states, *accrue, reckoned));
        let added = history?;
        let ctx = memorized.graph_context;
        let hour: u8 = rollover_hour?;
        Ok(
            GraphsResponse {
                added: Some(Added { added }),
                reviews: Some(graphs.review_counts_and_times(&ctx)),
                true_retention: Some(graphs.calculate_true_retention(&ctx)),
                future_due: Some(graphs.future_due(&ctx)),
                intervals: Some(graphs.intervals(&ctx)),
                stability: Some(graphs.stability(&ctx)),
                eases: Some(eases),
                difficulty: Some(difficulty),
                today: Some(graphs.today(&ctx)),
                hours: Some(graphs.hours(&ctx)),
                buttons: Some(graphs.buttons(&ctx)),
                card_counts: Some(graphs.card_counts(&ctx)),
                rollover_hour: hour as u32,
                retrievability: Some(graphs.retrievability(&ctx)),
                fsrs: self.config.fsrs,
            },
        )
    }

    /// Reads what the statistics of the last `days` days need, of all days for 0, for the cards
    /// that `search` selects, and puts them together.
    pub fn graph_data_for_search<V, G, FItem, FAccrue>(
        &mut self,
        search: &str,
        days: u32,
        found: Result<Vec<CardId>, AnkiError>,
        timing: Result<SchedTimingToday, AnkiError>,
        utc_offset_secs: Result<i32, AnkiError>,
        built: Result<Vec<(DeckConfigId, Result<FSRS, AnkiError>)>, AnkiError>,
        item_for: &FItem,
        accrue: &FAccrue,
        graphs: &G,
        rollover_hour: Result<u8, AnkiError>,
    ) -> (r: Result<GraphsResponse<V, G>, AnkiError>) where
        FItem: Fn(&FSRS, Vec<RevlogEntry>, TimestampSecs) -> Result<
            Option<ItemForMemoryState<MemoryState, FsrsItem>>,
            AnkiError,
        >,
        FAccrue: Fn(Option<V>, &FSRS, &MemoryState, u32) -> V,
        G: Graphs,

        requires
            found is Ok && timing is Ok ==> revlog_start(days, timing->Ok_0.next_day_at)
                >= i64::MIN,
            forall|model: &FSRS, log: Vec<RevlogEntry>, at: TimestampSecs|
                call_requires(*item_for, (model, log, at)),
            forall|before: Option<V>, model: &FSRS, state: &MemoryState, elapsed: u32|
                call_requires(*accrue, (before, model, state, elapsed)),
        ensures
            match (found, timing, utc_offset_secs) {
                (Err(e), _, _) => r == Err::<GraphsResponse<V, G>, AnkiError>(e),
                (_, Err(e), _) => r == Err::<GraphsResponse<V, G>, AnkiError>(e),
                (_, _, Err(e)) => r == Err::<GraphsResponse<V, G>, AnkiError>(e),
                (Ok(found), Ok(timing), Ok(offset)) => exists|ctx: GraphsContext|
                    #[trigger] is_context(
                        ctx,
                        *old(self),
                        blank(search@),
                        found@,
                        days,
                        timing,
                        offset,
                    ) && old(self).is_response(
                        r,
                        ctx,
                        built,
                        *item_for,
                        *accrue,
                        *graphs,
                        rollover_hour,
                    ),
            },
            found is Err ==> *final(self) == *old(self),
            found is Ok ==> final(self).storage.searched() == Seq::<CardId>::empty(),
            same_but_searched(*final(self), *old(self)),
    {
        let ctx = self.graph_context(search, days, found, timing, utc_offset_secs)?;
        self.graph_data(ctx, built, item_for, accrue, graphs, rollover_hour)
    }
}

} // verus!
