use fsrs::FSRSItem;
use fsrs::FSRSReview;
use fsrs::MemoryState;
use fsrs::DEFAULT_PARAMETERS;
use fsrs::FSRS;
use revlog::card::Card;
use revlog::card::CardId;
use revlog::card::Deck;
use revlog::card::DeckConfigId;
use revlog::card::DeckId;
use revlog::collection::Collection;
use revlog::error::AnkiError;
use revlog::graphs::context::GraphsContext;
use revlog::graphs::context::SchedTimingToday;
use revlog::graphs::history::ItemForMemoryState;
use revlog::graphs::memorized::MemorizedContext;
use revlog::graphs::model::default_model;
use revlog::graphs::model::memory_states;
use revlog::graphs::model::to_anki_error;
use revlog::graphs::model::FsrsError;
use revlog::graphs::model::FsrsItem;
use revlog::graphs::model::FsrsReview;
use revlog::graphs::response::Graphs;
use revlog::graphs::response::GraphsResponse;
use revlog::revlog::RevlogEntry;
use revlog::revlog::RevlogId;
use revlog::timestamp::TimestampSecs;
use std::collections::HashMap;

const DAY: i64 = 86_400;

const TIMING: SchedTimingToday = SchedTimingToday {
    days_elapsed: 12,
    next_day_at: TimestampSecs(10 * DAY),
};

const REVIEWS: [FsrsReview; 2] = [
    FsrsReview {
        rating: 3,
        delta_t: 0,
    },
    FsrsReview {
        rating: 1,
        delta_t: 5,
    },
];

fn item(reviews: usize) -> FsrsItem {
    FsrsItem {
        reviews: REVIEWS[..reviews].to_vec(),
    }
}

fn state(stability: f32) -> MemoryState {
    MemoryState {
        stability,
        difficulty: 5.0,
    }
}

/// A model whose first interval after a good answer is `days`.
fn model(days: f32) -> FSRS {
    let mut parameters = DEFAULT_PARAMETERS;
    parameters[2] = days;
    FSRS::new(&parameters).unwrap()
}

fn first_interval(model: &FSRS) -> u64 {
    model.next_interval(None, 0.9, 3).round() as u64
}

#[test]
fn states_are_those_of_the_model() {
    let model = model(3.0);
    let items = vec![item(2), item(1), item(0)];
    let starting_states = vec![None, Some(state(4.0)), Some(state(6.0))];
    let lists = memory_states(&model, items, starting_states).unwrap();
    let direct = |reviews: usize, starting_state| {
        let reviews = REVIEWS[..reviews].iter().map(|r| FSRSReview {
            rating: r.rating,
            delta_t: r.delta_t,
        });
        let item = FSRSItem {
            reviews: reviews.collect(),
        };
        model.historical_memory_states(item, starting_state).unwrap()
    };
    assert_eq!(lists[0], direct(2, None));
    assert_eq!(lists[1], direct(1, Some(state(4.0))));
    assert_eq!(lists[2], vec![state(6.0)]);
    assert_eq!(lists[0].len(), 2);
    assert_eq!(lists[0][0].stability, 3.0);
    assert!(lists[0][1].stability < 3.0);
    assert_eq!(lists[1].len(), 2);
    assert_eq!(lists[1][0], state(4.0));
}

#[test]
fn states_need_one_starting_state_for_each_item() {
    let model = model(3.0);
    assert_eq!(memory_states(&model, vec![], vec![None, None]), Ok(vec![]));
    assert_eq!(
        memory_states(&model, vec![item(1)], vec![]),
        Err(AnkiError::InvalidInput)
    );
    assert_eq!(
        memory_states(&model, vec![item(1)], vec![Some(state(f32::NAN))]),
        Err(AnkiError::InvalidInput)
    );
    let unreviewed = memory_states(&model, vec![item(0)], vec![Some(state(f32::NAN))]);
    assert_eq!(unreviewed.unwrap()[0].len(), 1);
}

#[test]
fn failures_of_the_model_become_errors() {
    for (failure, error) in [
        (FsrsError::NotEnoughData, AnkiError::InvalidInput),
        (FsrsError::Interrupted, AnkiError::Interrupted),
        (FsrsError::InvalidParameters, AnkiError::FsrsParamsInvalid),
        (
            FsrsError::OptimalNotFound,
            AnkiError::FsrsUnableToDetermineDesiredRetention,
        ),
        (FsrsError::InvalidInput, AnkiError::InvalidInput),
        (FsrsError::InvalidDeckSize, AnkiError::InvalidInput),
    ] {
        assert_eq!(to_anki_error(failure), error);
    }
}

#[test]
fn default_model_has_the_default_parameters() {
    let model = default_model().unwrap();
    assert_eq!(
        model.next_interval(None, 0.9, 3),
        FSRS::default().next_interval(None, 0.9, 3)
    );
    assert_eq!(first_interval(&model), 2);
}

/// An entry of the card made `ago` days before the next day starts.
fn review(cid: i64, ago: i64) -> RevlogEntry {
    RevlogEntry {
        id: RevlogId((10 - ago) * DAY * 1000 + cid),
        cid: CardId(cid),
        button_chosen: 3,
        ..Default::default()
    }
}

/// Decks 1 and 2 with the presets 10 and 20, a card in each, and one in a filtered deck that
/// came from deck 2.
fn collection() -> Collection {
    let mut col = Collection::new();
    for (id, config) in [(1, Some(10)), (2, Some(20)), (3, None)] {
        let deck = Deck {
            id: DeckId(id),
            config_id: config.map(DeckConfigId),
        };
        col.storage.add_or_update_deck(&deck).unwrap();
    }
    for (id, deck, original) in [(1, 1, 0), (2, 2, 0), (3, 3, 2)] {
        let card = Card {
            id: CardId(id),
            deck_id: DeckId(deck),
            original_deck_id: DeckId(original),
            interval: 1,
            ease_factor: 2500,
            memory_state: None,
        };
        col.storage.add_or_update_card(&card).unwrap();
    }
    for entry in [review(3, 4), review(1, 3), review(2, 2), review(1, 1)] {
        col.storage.add_revlog_entry(&entry, false).unwrap();
    }
    col
}

fn found(ids: &[i64]) -> Result<Vec<CardId>, AnkiError> {
    Ok(ids.iter().map(|id| CardId(*id)).collect())
}

type Models = Result<Vec<(DeckConfigId, Result<FSRS, AnkiError>)>, AnkiError>;

fn models() -> Models {
    Ok(vec![
        (DeckConfigId(10), Ok(model(1.0))),
        (DeckConfigId(20), Ok(model(50.0))),
    ])
}

#[test]
fn models_are_joined_with_the_presets_of_the_cards() -> Result<(), AnkiError> {
    let mut col = collection();
    let ctx = col.memorized_context("", found(&[1, 2, 3]), Ok(TIMING), Ok(0), models())?;
    assert_eq!(first_interval(ctx.fsrs_for_card(CardId(1))), 1);
    assert_eq!(first_interval(ctx.fsrs_for_card(CardId(2))), 50);
    assert_eq!(first_interval(ctx.fsrs_for_card(CardId(3))), 50);
    assert_eq!(ctx.graph_context.revlog.len(), 4);
    Ok(())
}

#[test]
fn collection_without_presets_gets_the_default_model() -> Result<(), AnkiError> {
    let mut col = collection();
    let ctx = col.memorized_context("", found(&[1]), Ok(TIMING), Ok(0), Ok(vec![]))?;
    assert_eq!(ctx.per_preset_fsrs.len(), 1);
    assert_eq!(first_interval(&ctx.per_preset_fsrs[&0]), 2);
    assert_eq!(first_interval(ctx.fsrs_for_card(CardId(1))), 2);
    Ok(())
}

#[test]
fn first_failure_of_the_memorized_context_decides() {
    let fails = |found, built| {
        let mut col = collection();
        col.memorized_context("", found, Ok(TIMING), Ok(0), built).err()
    };
    let broken = || Ok(vec![(DeckConfigId(10), Err(AnkiError::FsrsParamsInvalid))]);
    assert_eq!(
        fails(Err(AnkiError::SearchError), broken()),
        Some(AnkiError::SearchError)
    );
    assert_eq!(fails(found(&[1]), broken()), Some(AnkiError::FsrsParamsInvalid));
    assert_eq!(fails(found(&[1]), Err(AnkiError::DbError)), Some(AnkiError::DbError));
    assert_eq!(fails(found(&[1]), models()), None);
}

/// All answers were good, a day apart.
fn item_for(
    _model: &FSRS,
    log: Vec<RevlogEntry>,
    at: TimestampSecs,
) -> Result<Option<ItemForMemoryState<MemoryState, FsrsItem>>, AnkiError> {
    assert_eq!(at, TIMING.next_day_at);
    let reviews = (0..log.len() as u32).map(|n| FsrsReview {
        rating: 3,
        delta_t: n.min(1),
    });
    Ok(Some(ItemForMemoryState {
        item: FsrsItem {
            reviews: reviews.collect(),
        },
        starting_state: None,
        filtered_revlogs: log,
    }))
}

/// Fails on the log of card 3, which the model cannot go on from.
fn item_for_broken(
    model: &FSRS,
    log: Vec<RevlogEntry>,
    at: TimestampSecs,
) -> Result<Option<ItemForMemoryState<MemoryState, FsrsItem>>, AnkiError> {
    let broken = log[0].cid == CardId(3);
    let mut item = item_for(model, log, at)?;
    if broken {
        item.as_mut().unwrap().starting_state = Some(state(f32::NAN));
    }
    Ok(item)
}

/// Counts the states by their models.
fn accrue(before: Option<u64>, model: &FSRS, state: &MemoryState, elapsed: u32) -> u64 {
    assert!(state.stability > 0.0 && elapsed < 4);
    before.unwrap_or(0) + first_interval(model)
}

fn memorized() -> MemorizedContext<FSRS> {
    let mut col = collection();
    col.memorized_context("", found(&[1, 2, 3]), Ok(TIMING), Ok(0), models()).unwrap()
}

#[test]
fn memory_of_all_cards_is_summed_up_by_day() {
    // the reviews of card 1 are two logs, as another card was reviewed in between
    assert_eq!(
        memorized().historical_fsrs(&item_for, &accrue),
        Ok(HashMap::from([(0, 102), (-1, 101), (-2, 51), (-3, 50)]))
    );
    assert_eq!(
        memorized().historical_fsrs(&item_for_broken, &accrue),
        Err(AnkiError::InvalidInput)
    );
}

#[test]
fn retrievability_is_summed_up_by_day() {
    let retrievability = |before: Option<f32>, _: &FSRS, state: &MemoryState, elapsed: u32| {
        before.unwrap_or_default() + fsrs::current_retrievability(*state, elapsed as f32, 0.2)
    };
    let mut ctx = memorized();
    ctx.graph_context.revlog = vec![review(2, 2)];
    let sums = ctx.historical_fsrs(&item_for, &retrievability).unwrap();
    let mut days: Vec<i32> = sums.keys().copied().collect();
    days.sort_unstable();
    assert_eq!(days, vec![-1, 0]);
    assert_eq!(sums[&0], 1.0);
    assert!(sums[&-1] < 1.0 && sums[&-1] > 0.99);
}

/// Draws each graph as its own number and the number of entries and cards.
struct Drawing;

type Drawn = (u8, usize, usize);

fn drawn(graph: u8, ctx: &GraphsContext) -> Drawn {
    (graph, ctx.revlog.len(), ctx.cards.len())
}

impl Graphs for Drawing {
    type Eases = Drawn;
    type Difficulty = Drawn;
    type Reviews = Drawn;
    type TrueRetention = Drawn;
    type FutureDue = Drawn;
    type Intervals = Drawn;
    type Stability = Drawn;
    type Today = Drawn;
    type Hours = Drawn;
    type Buttons = Drawn;
    type CardCounts = Drawn;
    type Retrievability = Drawn;

    fn eases(&self, ctx: &GraphsContext) -> (Drawn, Drawn) {
        (drawn(1, ctx), drawn(2, ctx))
    }
    fn review_counts_and_times(&self, ctx: &GraphsContext) -> Drawn {
        drawn(3, ctx)
    }
    fn calculate_true_retention(&self, ctx: &GraphsContext) -> Drawn {
        drawn(4, ctx)
    }
    fn future_due(&self, ctx: &GraphsContext) -> Drawn {
        drawn(5, ctx)
    }
    fn intervals(&self, ctx: &GraphsContext) -> Drawn {
        drawn(6, ctx)
    }
    fn stability(&self, ctx: &GraphsContext) -> Drawn {
        drawn(7, ctx)
    }
    fn today(&self, ctx: &GraphsContext) -> Drawn {
        drawn(8, ctx)
    }
    fn hours(&self, ctx: &GraphsContext) -> Drawn {
        drawn(9, ctx)
    }
    fn buttons(&self, ctx: &GraphsContext) -> Drawn {
        drawn(10, ctx)
    }
    fn card_counts(&self, ctx: &GraphsContext) -> Drawn {
        drawn(11, ctx)
    }
    fn retrievability(&self, ctx: &GraphsContext) -> Drawn {
        drawn(12, ctx)
    }
}

fn data(
    col: &mut Collection,
    found: Result<Vec<CardId>, AnkiError>,
    built: Models,
    rollover_hour: Result<u8, AnkiError>,
) -> Result<GraphsResponse<u64, Drawing>, AnkiError> {
    col.graph_data_for_search(
        "x",
        0,
        found,
        Ok(TIMING),
        Ok(0),
        built,
        &item_for_broken,
        &accrue,
        &Drawing,
        rollover_hour,
    )
}

#[test]
fn statistics_are_put_together() -> Result<(), AnkiError> {
    let mut col = collection();
    col.config.fsrs = true;
    let response = data(&mut col, found(&[1]), models(), Ok(4))?;
    assert_eq!(
        response.added.unwrap().added,
        HashMap::from([(0, 1), (-1, 1), (-2, 1)])
    );
    assert_eq!(response.reviews, Some((3, 2, 1)));
    assert_eq!(response.rollover_hour, 4);
    assert!(response.fsrs);
    assert_eq!(col.storage.all_searched_cards()?, vec![]);

    let mut col = collection();
    let ctx = col.graph_context("x", 0, found(&[1, 2]), Ok(TIMING), Ok(0))?;
    let response = col.graph_data(ctx, models(), &item_for, &accrue, &Drawing, Ok(0))?;
    assert_eq!(response.added.unwrap().added[&0], 52);
    assert!(!response.fsrs);
    Ok(())
}

#[test]
fn each_graph_has_its_place() -> Result<(), AnkiError> {
    let response = data(&mut collection(), found(&[1, 2]), models(), Ok(4))?;
    let places = [
        response.eases,
        response.difficulty,
        response.reviews,
        response.true_retention,
        response.future_due,
        response.intervals,
        response.stability,
        response.today,
        response.hours,
        response.buttons,
        response.card_counts,
        response.retrievability,
    ];
    for (n, place) in places.into_iter().enumerate() {
        assert_eq!(place, Some((n as u8 + 1, 3, 2)));
    }
    Ok(())
}

#[test]
fn empty_log_needs_no_model() {
    let mut ctx = memorized();
    ctx.graph_context.revlog = vec![];
    ctx.per_preset_fsrs = HashMap::new();
    ctx.card_config_map = HashMap::new();
    assert_eq!(ctx.historical_fsrs(&item_for, &accrue), Ok(HashMap::new()));
}

#[test]
fn first_failure_of_the_statistics_decides() {
    let fails =
        |found, built, rollover| data(&mut collection(), found, built, rollover).err();
    let late = Err(AnkiError::SchedulerUpgradeRequired);
    let broken = || Ok(vec![(DeckConfigId(10), Err(AnkiError::DbError))]);
    assert_eq!(
        fails(Err(AnkiError::SearchError), broken(), late),
        Some(AnkiError::SearchError)
    );
    assert_eq!(fails(found(&[1, 3]), broken(), late), Some(AnkiError::DbError));
    assert_eq!(fails(found(&[1, 3]), models(), late), Some(AnkiError::InvalidInput));
    assert_eq!(
        fails(found(&[1, 2]), models(), late),
        Some(AnkiError::SchedulerUpgradeRequired)
    );
    assert_eq!(fails(found(&[1, 2]), models(), Ok(4)), None);
}
