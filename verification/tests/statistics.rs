use revlog::card::Card;
use revlog::card::CardId;
use revlog::card::Deck;
use revlog::card::DeckConfigId;
use revlog::card::DeckId;
use revlog::collection::Collection;
use revlog::config::Config;
use revlog::config::Weekday;
use revlog::error::AnkiError;
use revlog::graphs::context::GraphsContext;
use revlog::graphs::context::SchedTimingToday;
use revlog::graphs::history::card_logs;
use revlog::graphs::history::spread_over_days;
use revlog::graphs::history::Contribution;
use revlog::graphs::history::ItemForMemoryState;
use revlog::graphs::memorized::MemorizedContext;
use revlog::graphs::preferences::GraphPreferences;
use revlog::revlog::RevlogEntry;
use revlog::revlog::RevlogId;
use revlog::timestamp::TimestampSecs;
use std::collections::HashMap;

const DAY: i64 = 86_400;

const TIMING: SchedTimingToday = SchedTimingToday {
    days_elapsed: 12,
    next_day_at: TimestampSecs(10 * DAY),
};

/// An entry of the card made `ago` days before the next day starts.
fn review(cid: i64, ago: i64) -> RevlogEntry {
    RevlogEntry {
        id: RevlogId((10 - ago) * DAY * 1000 + cid),
        cid: CardId(cid),
        button_chosen: 3,
        ..Default::default()
    }
}

fn card(id: i64, deck: i64, original: i64) -> Card {
    Card {
        id: CardId(id),
        deck_id: DeckId(deck),
        original_deck_id: DeckId(original),
        interval: 1,
        ease_factor: 2500,
        memory_state: None,
    }
}

/// Decks 1 and 2 with the presets 10 and 20, filtered deck 3, and cards 1 to 4.
fn collection() -> Collection {
    let mut col = Collection::new();
    for (id, config) in [(1, Some(10)), (2, Some(20)), (3, None)] {
        let deck = Deck {
            id: DeckId(id),
            config_id: config.map(DeckConfigId),
        };
        col.storage.add_or_update_deck(&deck).unwrap();
    }
    for card in [card(1, 1, 0), card(2, 3, 2), card(3, 3, 0), card(4, 9, 0)] {
        col.storage.add_or_update_card(&card).unwrap();
    }
    for entry in [review(1, 3), review(2, 3), review(1, 1), review(2, 8), review(3, 2)] {
        col.storage.add_revlog_entry(&entry, false).unwrap();
    }
    col
}

fn all_cards() -> Result<Vec<CardId>, AnkiError> {
    Ok(vec![CardId(1), CardId(2), CardId(3), CardId(4)])
}

fn context(search: &str, days: u32, found: &[i64]) -> GraphsContext {
    let mut col = collection();
    let found = found.iter().map(|id| CardId(*id)).collect();
    let ctx = col.graph_context(search, days, Ok(found), Ok(TIMING), Ok(-3600)).unwrap();
    assert_eq!(col.storage.all_searched_cards().unwrap(), vec![]);
    ctx
}

fn days_and_cards(ctx: &GraphsContext) -> (Vec<(i64, u32)>, Vec<i64>) {
    let entries = ctx.revlog.iter();
    (
        entries.map(|e| (e.cid.0, e.days_elapsed(TIMING.next_day_at))).collect(),
        ctx.cards.iter().map(|c| c.id.0).collect(),
    )
}

#[test]
fn blank_search_reads_the_whole_log() {
    for search in ["", "  ", "\t\n", "\u{3000}"] {
        let ctx = context(search, 0, &[1, 2, 3, 4]);
        let (log, cards) = days_and_cards(&ctx);
        assert_eq!(log, vec![(2, 8), (1, 3), (2, 3), (3, 2), (1, 1)]);
        assert_eq!(cards, vec![1, 2, 3, 4]);
        assert_eq!(ctx.days_elapsed, 12);
        assert_eq!(ctx.next_day_start, TIMING.next_day_at);
        assert_eq!(ctx.local_offset_secs, -3600);
    }
}

#[test]
fn search_reads_the_log_of_the_cards_found() {
    let (log, cards) = days_and_cards(&context("deck:b", 0, &[2]));
    assert_eq!(log, vec![(2, 8), (2, 3)]);
    assert_eq!(cards, vec![2]);
    let (log, cards) = days_and_cards(&context("  x ", 0, &[]));
    assert_eq!(log, vec![]);
    assert_eq!(cards, Vec::<i64>::new());
}

#[test]
fn days_limit_the_log() {
    // one day more than asked for is read
    let (log, _) = days_and_cards(&context("", 1, &[]));
    assert_eq!(log, vec![(3, 2), (1, 1)]);
    let (log, _) = days_and_cards(&context("", 2, &[]));
    assert_eq!(log, vec![(1, 3), (2, 3), (3, 2), (1, 1)]);
    let (log, _) = days_and_cards(&context("x", 2, &[2]));
    assert_eq!(log, vec![(2, 3)]);
    let (log, _) = days_and_cards(&context("", u32::MAX, &[]));
    assert_eq!(log.len(), 5);
}

#[test]
fn first_failure_of_the_context_decides() {
    let mut col = collection();
    let search = Err(AnkiError::SearchError);
    let timing = Err(AnkiError::DbError);
    let offset = Err(AnkiError::InvalidInput);
    let fails = |col: &mut Collection, found, timing, offset| {
        col.graph_context("", 0, found, timing, offset).err()
    };
    assert_eq!(
        fails(&mut col, search, timing, offset),
        Some(AnkiError::SearchError)
    );
    assert_eq!(fails(&mut col, all_cards(), timing, offset), Some(AnkiError::DbError));
    assert_eq!(
        fails(&mut col, all_cards(), Ok(TIMING), offset),
        Some(AnkiError::InvalidInput)
    );
    assert_eq!(fails(&mut col, all_cards(), Ok(TIMING), Ok(0)), None);
}

#[test]
fn blank_means_nothing_but_white_space() {
    let mut col = Collection::new();
    col.storage.add_revlog_entry(&review(1, 1), false).unwrap();
    let mut blank = vec![];
    for c in '\0'..='\u{ffff}' {
        let mut buffer = [0; 4];
        let search: &str = c.encode_utf8(&mut buffer);
        let ctx = col.graph_context(search, 0, Ok(vec![]), Ok(TIMING), Ok(0)).unwrap();
        if ctx.revlog.len() == 1 {
            blank.push(c as u32);
        }
    }
    let mut expected: Vec<u32> = (0x9..=0xd).collect();
    expected.extend([0x20, 0x85, 0xa0, 0x1680]);
    expected.extend(0x2000..=0x200a);
    expected.extend([0x2028, 0x2029, 0x202f, 0x205f, 0x3000]);
    assert_eq!(blank, expected);
}

#[test]
fn preferences_are_got_back() -> Result<(), AnkiError> {
    let mut col = Collection::new();
    assert_eq!(
        col.get_graph_preferences(),
        GraphPreferences {
            calendar_first_day_of_week: 0,
            card_counts_separate_inactive: true,
            browser_links_supported: true,
            future_due_show_backlog: true,
        }
    );
    for (day, kept, weekday) in [
        (1, 1, Weekday::Monday),
        (5, 5, Weekday::Friday),
        (6, 6, Weekday::Saturday),
        (0, 0, Weekday::Sunday),
        (2, 0, Weekday::Sunday),
        (-1, 0, Weekday::Sunday),
    ] {
        let prefs = GraphPreferences {
            calendar_first_day_of_week: day,
            card_counts_separate_inactive: day > 1,
            browser_links_supported: false,
            future_due_show_backlog: day == 1,
        };
        col.set_graph_preferences(prefs)?;
        let got = col.get_graph_preferences();
        assert_eq!(
            got,
            GraphPreferences {
                calendar_first_day_of_week: kept,
                browser_links_supported: true,
                ..prefs
            }
        );
        assert_eq!(col.config.first_day_of_week, weekday);
        assert_eq!(weekday.as_number(), kept);
        let config: Config = col.config;
        col.set_graph_preferences(got)?;
        assert_eq!(col.config, config);
    }
    Ok(())
}

type Models = Vec<(DeckConfigId, Result<u64, AnkiError>)>;

fn models() -> Models {
    vec![(DeckConfigId(10), Ok(1)), (DeckConfigId(20), Ok(100))]
}

fn memorized(built: Models, fallback: Result<u64, AnkiError>) -> Result<MemorizedContext<u64>, AnkiError> {
    let mut col = collection();
    let ctx = col.graph_context("", 0, all_cards(), Ok(TIMING), Ok(0))?;
    col.build_memorized_context_with(ctx, built, fallback)
}

#[test]
fn cards_follow_the_presets_of_their_home_decks() -> Result<(), AnkiError> {
    let ctx = memorized(models(), Err(AnkiError::FsrsParamsInvalid))?;
    assert_eq!(ctx.per_preset_fsrs, HashMap::from([(10, 1), (20, 100)]));
    assert_eq!(
        ctx.card_config_map,
        HashMap::from([(1, DeckConfigId(10)), (2, DeckConfigId(20))])
    );
    assert_eq!(*ctx.fsrs_for_card(CardId(1)), 1);
    assert_eq!(*ctx.fsrs_for_card(CardId(2)), 100);
    assert!([1, 100].contains(ctx.fsrs_for_card(CardId(3))));
    assert_eq!(ctx.config_for_card(CardId(2)), DeckConfigId(20));
    assert_eq!(ctx.config_for_card(CardId(3)), DeckConfigId(0));
    assert_eq!(ctx.graph_context.revlog.len(), 5);
    Ok(())
}

#[test]
fn collection_without_presets_gets_the_fallback() -> Result<(), AnkiError> {
    let ctx = memorized(vec![], Ok(7))?;
    assert_eq!(ctx.per_preset_fsrs, HashMap::from([(0, 7)]));
    assert_eq!(*ctx.fsrs_for_card(CardId(1)), 7);
    Ok(())
}

#[test]
fn first_failing_model_decides() {
    let invalid = Err(AnkiError::FsrsParamsInvalid);
    let built = vec![
        (DeckConfigId(10), Ok(1)),
        (DeckConfigId(20), invalid),
        (DeckConfigId(30), Err(AnkiError::DbError)),
    ];
    assert_eq!(memorized(built, Ok(7)).err(), Some(AnkiError::FsrsParamsInvalid));
    assert_eq!(memorized(vec![], invalid).err(), Some(AnkiError::FsrsParamsInvalid));
}

#[test]
fn log_is_split_where_the_card_changes() {
    let log = vec![review(1, 9), review(1, 8), review(2, 7), review(1, 6)];
    let logs = card_logs(&log);
    let split: Vec<(i64, usize)> = logs.iter().map(|l| (l.cid.0, l.entries.len())).collect();
    assert_eq!(split, vec![(1, 2), (2, 1), (1, 1)]);
    assert_eq!(logs[0].entries, log[..2]);
    assert_eq!(logs[1].entries, log[2..3]);
    assert!(card_logs(&vec![]).is_empty());
    // in card order each card has one log
    let log = vec![review(1, 9), review(1, 8), review(2, 7), review(5, 9)];
    let split: Vec<i64> = card_logs(&log).iter().map(|l| l.cid.0).collect();
    assert_eq!(split, vec![1, 2, 5]);
}

fn item(n: u32, log: Vec<RevlogEntry>) -> ItemForMemoryState<u8, u32> {
    ItemForMemoryState {
        item: n,
        starting_state: if n % 2 == 0 { Some(n as u8) } else { None },
        filtered_revlogs: log,
    }
}

#[test]
fn items_are_grouped_by_preset() -> Result<(), AnkiError> {
    let ctx = memorized(models(), Ok(7))?;
    let items = vec![
        (CardId(1), Ok(Some(item(1, vec![review(1, 4)])))),
        (CardId(2), Ok(Some(item(2, vec![])))),
        (CardId(1), Err(AnkiError::InvalidInput)),
        (CardId(4), Ok(None)),
        (CardId(1), Ok(Some(item(4, vec![])))),
        (CardId(3), Ok(Some(item(3, vec![])))),
    ];
    let groups = ctx.group_by_config(items);
    let mut ids: Vec<i64> = groups.keys().copied().collect();
    ids.sort_unstable();
    assert_eq!(ids, vec![0, 10, 20]);
    assert_eq!(groups[&10].fsrs_items, vec![1, 4]);
    assert_eq!(groups[&10].starting_states, vec![None, Some(4)]);
    assert_eq!(groups[&10].filtered_revlogs, vec![vec![review(1, 4)], vec![]]);
    assert_eq!(groups[&20].fsrs_items, vec![2]);
    assert_eq!(groups[&0].fsrs_items, vec![3]);
    Ok(())
}

fn contribution(day: i32, state: usize, elapsed: u32) -> Contribution {
    Contribution { day, state, elapsed }
}

#[test]
fn states_count_from_one_review_to_the_next() {
    let log = vec![review(0, 5), review(0, 2)];
    let expected = vec![
        contribution(-2, 0, 0),
        contribution(-3, 0, 1),
        contribution(-4, 0, 2),
        contribution(0, 1, 0),
        contribution(-1, 1, 1),
    ];
    assert_eq!(spread_over_days(&log, 2, TIMING.next_day_at), expected);
    assert_eq!(spread_over_days(&log, 9, TIMING.next_day_at), expected);
    assert_eq!(spread_over_days(&log, 1, TIMING.next_day_at), expected[..3]);
    assert_eq!(spread_over_days(&log, 0, TIMING.next_day_at), vec![]);
    assert_eq!(spread_over_days(&vec![], 3, TIMING.next_day_at), vec![]);
    // two reviews on one day, and one yet to come
    let log = vec![review(0, 1), review(0, 1), review(0, -3)];
    assert_eq!(
        spread_over_days(&log, 3, TIMING.next_day_at),
        vec![contribution(0, 1, 0)]
    );
}

#[test]
fn each_day_counts_once() {
    let log = vec![review(0, 9), review(0, 7), review(0, 7), review(0, 1)];
    let mut days: Vec<i32> = spread_over_days(&log, 4, TIMING.next_day_at)
        .iter()
        .map(|c| c.day)
        .collect();
    days.sort_unstable();
    assert_eq!(days, (-8..=0).collect::<Vec<i32>>());
}

/// One state per entry, numbered from 1; the log of card 3 has no item, that of card 9 none
/// either, by an error.
fn item_for(
    model: &u64,
    log: Vec<RevlogEntry>,
    at: TimestampSecs,
) -> Result<Option<ItemForMemoryState<u64, usize>>, AnkiError> {
    assert_eq!(at, TIMING.next_day_at);
    match log[0].cid.0 {
        3 => Ok(None),
        9 => Err(AnkiError::InvalidInput),
        _ => Ok(Some(ItemForMemoryState {
            item: log.len(),
            starting_state: Some(*model),
            filtered_revlogs: log,
        })),
    }
}

fn batch(
    model: &u64,
    items: Vec<usize>,
    starting_states: Vec<Option<u64>>,
) -> Result<Vec<Vec<u64>>, AnkiError> {
    assert_eq!(items.len(), starting_states.len());
    assert!(starting_states.iter().all(|s| *s == Some(*model)));
    if *model == 666 {
        return Err(AnkiError::FsrsParamsInvalid);
    }
    Ok(items.iter().map(|n| (1..=*n as u64).collect()).collect())
}

fn accrue(before: Option<u64>, model: &u64, state: &u64, elapsed: u32) -> u64 {
    before.unwrap_or(0) + model * (10 * state + elapsed as u64)
}

fn memorized_log(revlog: Vec<RevlogEntry>, models: &[(i64, u64)]) -> MemorizedContext<u64> {
    MemorizedContext {
        graph_context: GraphsContext {
            revlog,
            cards: vec![],
            next_day_start: TIMING.next_day_at,
            days_elapsed: 12,
            local_offset_secs: 0,
        },
        per_preset_fsrs: models.iter().copied().collect(),
        card_config_map: HashMap::from([(0, DeckConfigId(10)), (-5, DeckConfigId(20))]),
    }
}

#[test]
fn memory_is_summed_up_by_day() -> Result<(), AnkiError> {
    let log = vec![
        review(0, 3),
        review(0, 1),
        review(-5, 2),
        review(3, 5),
        review(9, 5),
    ];
    let ctx = memorized_log(log, &[(10, 1), (20, 1000)]);
    let sums = ctx.history_with(&item_for, &batch, &accrue)?;
    // card 0: the first state on -1 and -2, the second on 0; card -5: its state on 0 and -1
    assert_eq!(
        sums,
        HashMap::from([(0, 20 + 10_000), (-1, 10 + 11_000), (-2, 11)])
    );
    let none = memorized_log(vec![], &[(10, 1)]);
    assert_eq!(none.history_with(&item_for, &batch, &accrue)?, HashMap::new());
    Ok(())
}

#[test]
fn card_without_preset_is_summed_with_some_model() -> Result<(), AnkiError> {
    let ctx = memorized_log(vec![review(4, 2)], &[(0, 3)]);
    let sums = ctx.history_with(&item_for, &batch, &accrue)?;
    assert_eq!(sums, HashMap::from([(0, 30), (-1, 33)]));
    Ok(())
}

#[test]
fn cards_without_preset_share_one_model() -> Result<(), AnkiError> {
    // the items of cards 4 to 7 and their group go to the same one of the models
    let log = (4..8).map(|cid| review(cid, 1)).collect();
    let models: Vec<(i64, u64)> = (10..30).map(|id| (id, id as u64)).collect();
    let sums = memorized_log(log, &models).history_with(&item_for, &batch, &accrue)?;
    assert_eq!(sums.len(), 1);
    assert_eq!(sums[&0] % 40, 0);
    assert!((10..30).contains(&(sums[&0] / 40)));
    Ok(())
}

#[test]
fn failing_model_ends_the_reckoning() {
    let log = vec![review(0, 3), review(-5, 2)];
    let ctx = memorized_log(log.clone(), &[(10, 1), (20, 666)]);
    assert_eq!(
        ctx.history_with(&item_for, &batch, &accrue),
        Err(AnkiError::FsrsParamsInvalid)
    );
    // a model that no card is put to does not matter
    let ctx = memorized_log(log, &[(10, 1), (20, 2), (30, 666)]);
    assert!(ctx.history_with(&item_for, &batch, &accrue).is_ok());
}

fn sums(revlog: Vec<RevlogEntry>, models: &[(i64, u64)]) -> HashMap<i32, u64> {
    let ctx = memorized_log(revlog, models);
    ctx.history_with(&item_for, &batch, &accrue).unwrap()
}

#[test]
fn days_of_all_cards_have_no_gap() {
    let log = vec![review(0, 4), review(0, 4), review(0, 1), review(-5, 7)];
    let mut days: Vec<i32> = sums(log, &[(10, 1), (20, 2)]).into_keys().collect();
    days.sort_unstable();
    assert_eq!(days, (-6..=0).collect::<Vec<i32>>());
}

#[test]
fn card_counts_once_a_day() {
    let count = |before: Option<u64>, _: &u64, _: &u64, _: u32| before.unwrap_or(0) + 1;
    let log = vec![review(0, 4), review(0, 2), review(0, 2), review(-5, 3)];
    let ctx = memorized_log(log, &[(10, 1), (20, 2)]);
    assert_eq!(
        ctx.history_with(&item_for, &batch, &count),
        Ok(HashMap::from([(0, 2), (-1, 2), (-2, 2), (-3, 1)]))
    );
}

#[test]
fn card_without_item_changes_nothing() {
    let models = [(10, 1), (20, 1000)];
    let with = vec![review(0, 3), review(3, 9), review(9, 8), review(-5, 2)];
    let without = vec![review(0, 3), review(-5, 2)];
    assert_eq!(sums(with, &models), sums(without, &models));
}

#[test]
fn one_model_makes_presets_equal() {
    let log = vec![review(0, 3), review(0, 1), review(-5, 2), review(4, 5)];
    let expected = sums(log.clone(), &[(10, 7)]);
    for presets in [vec![], vec![(0, 10), (-5, 10), (4, 10)], vec![(0, 77), (4, 0)]] {
        let mut ctx = memorized_log(log.clone(), &[(10, 7)]);
        ctx.card_config_map = presets.iter().map(|(c, p)| (*c, DeckConfigId(*p))).collect();
        assert_eq!(ctx.history_with(&item_for, &batch, &accrue), Ok(expected.clone()));
    }
}

#[test]
fn logs_without_a_common_card_add_up() {
    let models = [(10, 1), (20, 1000)];
    let a = vec![review(0, 3), review(0, 1)];
    let b = vec![review(-5, 2)];
    let both = [a.clone(), b.clone()].concat();
    let mut added = sums(a, &models);
    for (day, sum) in sums(b, &models) {
        *added.entry(day).or_default() += sum;
    }
    assert_eq!(sums(both, &models), added);
}
