//! How much was remembered on each day: the memory states of all cards, spread over the days
//! and summed up day by day.
//!
//! How an item is made of a card's log, and what a state adds to the sum of a day, is handed in.
//! The states come from the memory model of the preset, or, in `history_with`, from any.

use crate::card::DeckConfigId;
use crate::error::AnkiError;
use crate::graphs::history::are_groups_of;
use crate::graphs::history::card_logs;
use crate::graphs::history::contributions_of;
use crate::graphs::history::is_group_of;
use crate::graphs::history::is_split_by_card;
use crate::graphs::history::items_under;
use crate::graphs::history::joined;
use crate::graphs::history::law_contributions_lie_in_span;
use crate::graphs::history::spread_over_days;
use crate::graphs::history::CardItem;
use crate::graphs::history::CardLog;
use crate::graphs::history::ConfigGroup;
use crate::graphs::history::Contribution;
use crate::graphs::history::ItemForMemoryState;
use crate::graphs::memorized::MemorizedContext;
use crate::graphs::model::is_state_list;
use crate::graphs::model::memory_states;
use crate::graphs::model::FsrsItem;
use crate::revlog::RevlogEntry;
use crate::timestamp::TimestampSecs;
use fsrs::MemoryState;
use fsrs::FSRS;
use std::collections::HashMap;
use vstd::prelude::*;

verus! {

broadcast use vstd::std_specs::hash::group_hash_axioms;

/// One preset's turn: the model that was asked, what it was asked, and the states it gave.
pub struct GroupRun<F, S, I, M> {
    pub config_id: i64,
    pub model: F,
    pub group: ConfigGroup<S, I>,
    pub states: Vec<Vec<M>>,
}

/// What is added to the sum of a day.
pub struct Term<F, M> {
    pub day: i32,
    pub model: F,
    pub state: M,
    pub elapsed: u32,
}

/// What the states of one card add to the days on which they count.
pub open spec fn terms_of_card<F, M>(
    model: F,
    revlogs: Seq<RevlogEntry>,
    states: Seq<M>,
    next_day_start: TimestampSecs,
) -> Seq<Term<F, M>> {
    let n = if states.len() <= revlogs.len() {
        states.len()
    } else {
        revlogs.len()
    };
    contributions_of(revlogs, next_day_start, n as int).map_values(
        |c: Contribution|
            Term { day: c.day, model, state: states[c.state as int], elapsed: c.elapsed },
    )
}

/// What the first `n` cards of the group add, card by card.
pub open spec fn terms_of_cards<F, S, I, M>(
    run: GroupRun<F, S, I, M>,
    next_day_start: TimestampSecs,
    n: int,
) -> Seq<Term<F, M>>
    decreases n,
{
    if n <= 0 {
        Seq::empty()
    } else {
        terms_of_cards(run, next_day_start, n - 1) + terms_of_card(
            run.model,
            run.group.filtered_revlogs@[n - 1]@,
            run.states@[n - 1]@,
            next_day_start,
        )
    }
}

/// What a preset's turn adds. A card for which there is no list of states adds nothing.
pub open spec fn terms_of_run<F, S, I, M>(
    run: GroupRun<F, S, I, M>,
    next_day_start: TimestampSecs,
) -> Seq<Term<F, M>> {
    let cards = run.group.filtered_revlogs@.len();
    let lists = run.states@.len();
    terms_of_cards(
        run,
        next_day_start,
        if lists <= cards {
            lists as int
        } else {
            cards as int
        },
    )
}

/// What the turns add, turn by turn.
pub open spec fn terms_of_runs<F, S, I, M>(
    runs: Seq<GroupRun<F, S, I, M>>,
    next_day_start: TimestampSecs,
) -> Seq<Term<F, M>>
    decreases runs.len(),
{
    if runs.len() == 0 {
        Seq::empty()
    } else {
        terms_of_runs(runs.drop_last(), next_day_start) + terms_of_run(runs.last(), next_day_start)
    }
}

/// The sum of the day after the first `n` terms, where `sums` are the sums that the terms led
/// to; none if none of them is of that day.
pub open spec fn sum_of_day<F, M, V>(
    terms: Seq<Term<F, M>>,
    sums: Seq<V>,
    n: int,
    day: i32,
) -> Option<V>
    decreases n,
{
    if n <= 0 {
        None
    } else if terms[n - 1].day == day {
        Some(sums[n - 1])
    } else {
        sum_of_day(terms, sums, n - 1, day)
    }
}

/// `map` holds the sums of the days.
pub open spec fn holds_sums<F, M, V>(
    map: Map<i32, V>,
    terms: Seq<Term<F, M>>,
    sums: Seq<V>,
) -> bool {
    &&& sums.len() == terms.len()
    &&& forall|day: i32|
        {
            let sum = sum_of_day(terms, sums, terms.len() as int, day);
            &&& #[trigger] map.contains_key(day) <==> sum is Some
            &&& sum is Some ==> map[day] == sum->0
        }
}

/// `sum` is what `accrue` made of the term and of the sum before it, if there was one.
pub open spec fn accrues<F, M, V, FAccrue: Fn(Option<V>, &F, &M, u32) -> V>(
    accrue: FAccrue,
    before: Option<V>,
    term: Term<F, M>,
    sum: V,
) -> bool {
    call_ensures(accrue, (before, &term.model, &term.state, term.elapsed), sum)
}

/// Each of the sums is what `accrue` made of the term and of the sum of its day before it.
pub open spec fn are_sums_of<F, M, V, FAccrue: Fn(Option<V>, &F, &M, u32) -> V>(
    accrue: FAccrue,
    terms: Seq<Term<F, M>>,
    sums: Seq<V>,
) -> bool {
    &&& sums.len() == terms.len()
    &&& forall|t: int|
        0 <= t < terms.len() ==> accrues(
            accrue,
            sum_of_day(terms, sums, t, terms[t].day),
            #[trigger] terms[t],
            sums[t],
        )
}

/// `map` holds what the terms add up to on each day, as `accrue` adds; a day without a term has
/// no sum.
pub open spec fn adds_up<F, M, V, FAccrue: Fn(Option<V>, &F, &M, u32) -> V>(
    accrue: FAccrue,
    terms: Seq<Term<F, M>>,
    map: Map<i32, V>,
) -> bool {
    exists|sums: Seq<V>| #[trigger] are_sums_of(accrue, terms, sums) && holds_sums(map, terms, sums)
}

/// A term is of the day.
pub open spec fn has_term<F, M>(terms: Seq<Term<F, M>>, day: i32) -> bool {
    exists|t: int| 0 <= t < terms.len() && (#[trigger] terms[t]).day == day
}

/// A day has a sum if and only if a state counts on it.
pub proof fn law_day_has_sum_where_state_counts<
    F,
    M,
    V,
    FAccrue: Fn(Option<V>, &F, &M, u32) -> V,
>(accrue: FAccrue, terms: Seq<Term<F, M>>, map: Map<i32, V>)
    requires
        adds_up(accrue, terms, map),
    ensures
        forall|day: i32| #[trigger] map.contains_key(day) <==> has_term(terms, day),
{
    let sums = choose|sums: Seq<V>| #[trigger]
        are_sums_of(accrue, terms, sums) && holds_sums(map, terms, sums);
    assert forall|day: i32| #[trigger] map.contains_key(day) <==> has_term(terms, day) by {
        lemma_sum_iff_term(terms, sums, terms.len() as int, day);
    }
}

proof fn lemma_sum_iff_term<F, M, V>(terms: Seq<Term<F, M>>, sums: Seq<V>, n: int, day: i32)
    requires
        0 <= n <= terms.len(),
    ensures
        sum_of_day(terms, sums, n, day) is Some <==> exists|t: int|
            0 <= t < n && (#[trigger] terms[t]).day == day,
    decreases n,
{
    if n > 0 {
        lemma_sum_iff_term(terms, sums, n - 1, day);
    }
}

/// The number that a sum stands for, 0 where there is no sum yet.
pub open spec fn value_before<V>(value: spec_fn(V) -> int, before: Option<V>) -> int {
    match before {
        Some(sum) => value(sum),
        None => 0,
    }
}

/// `accrue` adds what a term is worth to the number that the sum before it stands for, as long
/// as the outcome is no more than `cap`.
pub open spec fn adds_worth<F, M, V, FAccrue: Fn(Option<V>, &F, &M, u32) -> V>(
    accrue: FAccrue,
    worth: spec_fn(Term<F, M>) -> int,
    value: spec_fn(V) -> int,
    cap: int,
) -> bool {
    &&& forall|term: Term<F, M>| #[trigger] worth(term) >= 0
    &&& forall|before: Option<V>, term: Term<F, M>, sum: V| #[trigger]
        accrues(accrue, before, term, sum) && worth(term) + value_before(value, before) <= cap
            ==> value(sum) == worth(term) + value_before(value, before)
}

/// The sum of a day is the total of what the terms of that day are worth, as long as that can be
/// held.
pub proof fn law_sum_is_total<F, M, V, FAccrue: Fn(Option<V>, &F, &M, u32) -> V>(
    accrue: FAccrue,
    worth: spec_fn(Term<F, M>) -> int,
    value: spec_fn(V) -> int,
    cap: int,
    terms: Seq<Term<F, M>>,
    map: Map<i32, V>,
    day: i32,
)
    requires
        adds_up(accrue, terms, map),
        adds_worth(accrue, worth, value, cap),
        map.contains_key(day),
        total_of_day(worth, terms, terms.len() as int, day) <= cap,
    ensures
        value(map[day]) == total_of_day(worth, terms, terms.len() as int, day),
{
    let sums = choose|sums: Seq<V>| #[trigger]
        are_sums_of(accrue, terms, sums) && holds_sums(map, terms, sums);
    lemma_sum_is_total(accrue, worth, value, cap, terms, sums, terms.len() as int, day);
}

/// What the terms of the day among the first `n` are worth together.
pub open spec fn total_of_day<F, M>(
    worth: spec_fn(Term<F, M>) -> int,
    terms: Seq<Term<F, M>>,
    n: int,
    day: i32,
) -> int
    decreases n,
{
    if n <= 0 {
        0
    } else if terms[n - 1].day == day {
        worth(terms[n - 1]) + total_of_day(worth, terms, n - 1, day)
    } else {
        total_of_day(worth, terms, n - 1, day)
    }
}

proof fn lemma_sum_is_total<F, M, V, FAccrue: Fn(Option<V>, &F, &M, u32) -> V>(
    accrue: FAccrue,
    worth: spec_fn(Term<F, M>) -> int,
    value: spec_fn(V) -> int,
    cap: int,
    terms: Seq<Term<F, M>>,
    sums: Seq<V>,
    n: int,
    day: i32,
)
    requires
        0 <= n <= terms.len(),
        are_sums_of(accrue, terms, sums),
        adds_worth(accrue, worth, value, cap),
        total_of_day(worth, terms, n, day) <= cap,
    ensures
        total_of_day(worth, terms, n, day) == value_before(
            value,
            sum_of_day(terms, sums, n, day),
        ),
    decreases n,
{
    if n > 0 {
        assert(worth(terms[n - 1]) >= 0);
        lemma_sum_is_total(accrue, worth, value, cap, terms, sums, n - 1, day);
        assert(accrues(
            accrue,
            sum_of_day(terms, sums, n - 1, terms[n - 1].day),
            terms[n - 1],
            sums[n - 1],
        ));
    }
}

/// Further terms leave the sums after the earlier ones as they are.
proof fn lemma_sums_keep<F, M, V>(
    terms: Seq<Term<F, M>>,
    sums: Seq<V>,
    term: Term<F, M>,
    sum: V,
    n: int,
    day: i32,
)
    requires
        n <= terms.len() == sums.len(),
    ensures
        sum_of_day(terms.push(term), sums.push(sum), n, day) == sum_of_day(terms, sums, n, day),
    decreases n,
{
    if n > 0 {
        lemma_sums_keep(terms, sums, term, sum, n - 1, day);
        assert(terms.push(term)[n - 1] == terms[n - 1]);
    }
}

/// Adds what one state adds to the sum of a day.
fn add_term<F, M, V, FAccrue: Fn(Option<V>, &F, &M, u32) -> V>(
    retention: &mut HashMap<i32, V>,
    day: i32,
    model: &F,
    state: &M,
    elapsed: u32,
    accrue: &FAccrue,
    Ghost(terms): Ghost<Seq<Term<F, M>>>,
    Ghost(sums): Ghost<Seq<V>>,
) -> (longer: Ghost<Seq<V>>)
    requires
        holds_sums(old(retention)@, terms, sums),
        are_sums_of(*accrue, terms, sums),
        forall|before: Option<V>, model: &F, state: &M, elapsed: u32|
            call_requires(*accrue, (before, model, state, elapsed)),
    ensures
        holds_sums(
            final(retention)@,
            terms.push((Term { day, model: *model, state: *state, elapsed })),
            longer@,
        ),
        are_sums_of(
            *accrue,
            terms.push((Term { day, model: *model, state: *state, elapsed })),
            longer@,
        ),
{
    let ghost held = retention@;
    let before = retention.remove(&day);
    let ghost prior = before;
    let sum = accrue(before, model, state, elapsed);
    let ghost term = Term { day, model: *model, state: *state, elapsed };
    let ghost total = sum;
    retention.insert(day, sum);
    proof {
        let more = terms.push(term);
        let longer = sums.push(total);
        let n: int = terms.len() as int;
        assert(prior == sum_of_day(terms, sums, n, day)) by {
            assert(held.contains_key(day) <==> sum_of_day(terms, sums, n, day) is Some);
        }
        assert forall|d: i32|
            {
                let sum = sum_of_day(more, longer, more.len() as int, d);
                &&& #[trigger] retention@.contains_key(d) <==> sum is Some
                &&& sum is Some ==> retention@[d] == sum->0
            } by {
            lemma_sums_keep(terms, sums, term, total, n, d);
            assert(held.contains_key(d) <==> sum_of_day(terms, sums, n, d) is Some);
        }
        assert(accrues(*accrue, prior, term, total));
        assert forall|t: int| 0 <= t < more.len() implies accrues(
            *accrue,
            sum_of_day(more, longer, t, more[t].day),
            #[trigger] more[t],
            longer[t],
        ) by {
            lemma_sums_keep(terms, sums, term, total, t, more[t].day);
            if t < n {
                assert(more[t] == terms[t]);
                assert(longer[t] == sums[t]);
            }
        }
    }
    Ghost(sums.push(total))
}

/// Adds what the states of one card add.
fn add_card<F, M, V, FAccrue: Fn(Option<V>, &F, &M, u32) -> V>(
    retention: &mut HashMap<i32, V>,
    model: &F,
    revlogs: &Vec<RevlogEntry>,
    states: &Vec<M>,
    next_day_start: TimestampSecs,
    accrue: &FAccrue,
    Ghost(terms): Ghost<Seq<Term<F, M>>>,
    Ghost(sums): Ghost<Seq<V>>,
) -> (longer: Ghost<Seq<V>>)
    requires
        holds_sums(old(retention)@, terms, sums),
        are_sums_of(*accrue, terms, sums),
        forall|before: Option<V>, model: &F, state: &M, elapsed: u32|
            call_requires(*accrue, (before, model, state, elapsed)),
    ensures
        holds_sums(
            final(retention)@,
            terms + terms_of_card(*model, revlogs@, states@, next_day_start),
            longer@,
        ),
        are_sums_of(
            *accrue,
            terms + terms_of_card(*model, revlogs@, states@, next_day_start),
            longer@,
        ),
{
    let contributions = spread_over_days(revlogs, states.len(), next_day_start);
    let ghost card_terms = terms_of_card(*model, revlogs@, states@, next_day_start);
    let ghost mut longer = sums;
    let mut i: usize = 0;
    proof {
        let n: int = if states@.len() <= revlogs@.len() {
            states@.len() as int
        } else {
            revlogs@.len() as int
        };
        assert(revlogs.len() == revlogs@.len());
        law_contributions_lie_in_span(revlogs@, next_day_start, n);
        assert(terms + card_terms.take(0) =~= terms);
    }
    while i < contributions.len()
        invariant
            i <= contributions@.len(),
            card_terms == terms_of_card(*model, revlogs@, states@, next_day_start),
            card_terms == contributions@.map_values(
                |c: Contribution|
                    Term {
                        day: c.day,
                        model: *model,
                        state: states@[c.state as int],
                        elapsed: c.elapsed,
                    },
            ),
            forall|k: int|
                0 <= k < contributions@.len() ==> (#[trigger] contributions@[k]).state
                    < states@.len(),
            forall|before: Option<V>, model: &F, state: &M, elapsed: u32|
                call_requires(*accrue, (before, model, state, elapsed)),
            holds_sums(retention@, terms + card_terms.take(i as int), longer),
            are_sums_of(*accrue, terms + card_terms.take(i as int), longer),
        decreases contributions@.len() - i,
    {
        let c = contributions[i];
        assert(contributions@[i as int].state < states@.len());
        let Ghost(next) = add_term(
            retention,
            c.day,
            model,
            &states[c.state],
            c.elapsed,
            accrue,
            Ghost(terms + card_terms.take(i as int)),
            Ghost(longer),
        );
        proof {
            longer = next;
            assert((terms + card_terms.take(i as int)).push(card_terms[i as int])
                =~= terms + card_terms.take(i + 1));
        }
        i = i + 1;
    }
    assert(card_terms.take(i as int) =~= card_terms);
    Ghost(longer)
}

/// Adds what the states of a preset's turn add.
fn add_run<F, S, I, M, V, FAccrue: Fn(Option<V>, &F, &M, u32) -> V>(
    retention: &mut HashMap<i32, V>,
    model: &F,
    filtered_revlogs: &Vec<Vec<RevlogEntry>>,
    states: &Vec<Vec<M>>,
    next_day_start: TimestampSecs,
    accrue: &FAccrue,
    Ghost(run): Ghost<GroupRun<F, S, I, M>>,
    Ghost(terms): Ghost<Seq<Term<F, M>>>,
    Ghost(sums): Ghost<Seq<V>>,
) -> (longer: Ghost<Seq<V>>)
    requires
        run.model == *model,
        run.group.filtered_revlogs == *filtered_revlogs,
        run.states == *states,
        holds_sums(old(retention)@, terms, sums),
        are_sums_of(*accrue, terms, sums),
        forall|before: Option<V>, model: &F, state: &M, elapsed: u32|
            call_requires(*accrue, (before, model, state, elapsed)),
    ensures
        holds_sums(final(retention)@, terms + terms_of_run(run, next_day_start), longer@),
        are_sums_of(*accrue, terms + terms_of_run(run, next_day_start), longer@),
{
    let ghost mut longer = sums;
    let mut i: usize = 0;
    assert(terms + terms_of_cards(run, next_day_start, 0) =~= terms);
    while i < filtered_revlogs.len() && i < states.len()
        invariant
            i <= filtered_revlogs@.len(),
            i <= states@.len(),
            run.model == *model,
            run.group.filtered_revlogs == *filtered_revlogs,
            run.states == *states,
            forall|before: Option<V>, model: &F, state: &M, elapsed: u32|
                call_requires(*accrue, (before, model, state, elapsed)),
            holds_sums(
                retention@,
                terms + terms_of_cards(run, next_day_start, i as int),
                longer,
            ),
            are_sums_of(
                *accrue,
                terms + terms_of_cards(run, next_day_start, i as int),
                longer,
            ),
        decreases filtered_revlogs@.len() - i,
    {
        let ghost before = terms + terms_of_cards(run, next_day_start, i as int);
        let Ghost(next) = add_card(
            retention,
            model,
            &filtered_revlogs[i],
            &states[i],
            next_day_start,
            accrue,
            Ghost(before),
            Ghost(longer),
        );
        proof {
            longer = next;
            assert(before + terms_of_card(
                *model,
                filtered_revlogs@[i as int]@,
                states@[i as int]@,
                next_day_start,
            ) =~= terms + terms_of_cards(run, next_day_start, i + 1));
        }
        i = i + 1;
    }
    Ghost(longer)
}

/// The keys of the map, each once, in no particular order.
fn keys_of<T>(map: &HashMap<i64, T>) -> (keys: Vec<i64>)
    ensures
        keys@.no_duplicates(),
        keys@.to_set() == map@.dom(),
{
    let mut keys: Vec<i64> = Vec::new();
    for key in it: map.keys()
        invariant
            it.seq().unref().to_set() == map@.dom(),
            it.seq().no_duplicates(),
            keys@.len() == it.index(),
            keys@ =~= it.seq().unref().take(it.index()),
            it.index() == it.seq().len() ==> keys@ =~= it.seq().unref(),
    {
        keys.push(*key);
    }
    keys
}

/// `outcome` is what `batch` gave for the items of the group and their starting states.
pub open spec fn is_answer<F, S, I, M, FBatch>(
    batch: FBatch,
    model: F,
    group: ConfigGroup<S, I>,
    outcome: Result<Vec<Vec<M>>, AnkiError>,
) -> bool where FBatch: Fn(&F, Vec<I>, Vec<Option<S>>) -> Result<Vec<Vec<M>>, AnkiError> {
    call_ensures(batch, (&model, group.fsrs_items, group.starting_states), outcome)
}

impl<F> MemorizedContext<F> {
    /// It is the preset's turn: the group holds the items under it, and the model is its own, or
    /// `fallback` where it has none.
    pub open spec fn is_turn<S, I>(
        &self,
        fallback: F,
        items: Seq<CardItem<S, I, AnkiError>>,
        config_id: i64,
        model: F,
        group: ConfigGroup<S, I>,
    ) -> bool {
        &&& items_under(*self, items, config_id).len() > 0
        &&& is_group_of(group, items_under(*self, items, config_id))
        &&& model == self.model_or(Some(DeckConfigId(config_id)), fallback)
    }

    /// The turns are those of different presets, and the states are what `batch` gave.
    pub open spec fn are_runs_of<S, I, M, FBatch>(
        &self,
        fallback: F,
        batch: FBatch,
        items: Seq<CardItem<S, I, AnkiError>>,
        runs: Seq<GroupRun<F, S, I, M>>,
    ) -> bool where
        FBatch: Fn(&F, Vec<I>, Vec<Option<S>>) -> Result<Vec<Vec<M>>, AnkiError>,
     {
        &&& forall|i: int, j: int|
            0 <= i < j < runs.len() ==> (#[trigger] runs[i]).config_id != (
            #[trigger] runs[j]).config_id
        &&& forall|k: int|
            0 <= k < runs.len() ==> {
                let run = #[trigger] runs[k];
                &&& self.is_turn(fallback, items, run.config_id, run.model, run.group)
                &&& is_answer(batch, run.model, run.group, Ok(run.states))
            }
    }

    /// Every preset with items has had its turn.
    pub open spec fn all_had_turn<S, I, M>(
        &self,
        items: Seq<CardItem<S, I, AnkiError>>,
        runs: Seq<GroupRun<F, S, I, M>>,
    ) -> bool {
        forall|id: i64|
            (#[trigger] items_under(*self, items, id)).len() > 0 ==> exists|k: int|
                0 <= k < runs.len() && (#[trigger] runs[k]).config_id == id
    }

    /// The item is what `item_for` made of the log, with the model of the card's preset, or
    /// `fallback` where it has none.
    pub open spec fn is_item_of<S, I, FItem>(
        &self,
        fallback: F,
        item_for: FItem,
        log: CardLog,
        item: CardItem<S, I, AnkiError>,
    ) -> bool where
        FItem: Fn(&F, Vec<RevlogEntry>, TimestampSecs) -> Result<
            Option<ItemForMemoryState<S, I>>,
            AnkiError,
        >,
     {
        &&& item.0 == log.cid
        &&& exists|model: F, outcome: Result<Option<ItemForMemoryState<S, I>>, AnkiError>|
            {
                &&& model == self.model_or(self.preset_of_card(log.cid), fallback)
                &&& outcome == item.1
                &&& #[trigger] call_ensures(
                    item_for,
                    (&model, log.entries, self.graph_context.next_day_start),
                    outcome,
                )
            }
    }

    /// The items are what `item_for` made of the cards' logs.
    pub open spec fn are_items_of<S, I, FItem>(
        &self,
        fallback: F,
        item_for: FItem,
        logs: Seq<CardLog>,
        items: Seq<CardItem<S, I, AnkiError>>,
    ) -> bool where
        FItem: Fn(&F, Vec<RevlogEntry>, TimestampSecs) -> Result<
            Option<ItemForMemoryState<S, I>>,
            AnkiError,
        >,
     {
        &&& items.len() == logs.len()
        &&& forall|i: int|
            0 <= i < items.len() ==> self.is_item_of(
                fallback,
                item_for,
                logs[i],
                #[trigger] items[i],
            )
    }

    /// Makes an item of each card's log.
    fn items_of_logs<S, I, FItem>(&self, fallback: &F, item_for: &FItem) -> (items: Vec<
        CardItem<S, I, AnkiError>,
    >) where
        FItem: Fn(&F, Vec<RevlogEntry>, TimestampSecs) -> Result<
            Option<ItemForMemoryState<S, I>>,
            AnkiError,
        >,

        requires
            forall|model: &F, log: Vec<RevlogEntry>, at: TimestampSecs|
                call_requires(*item_for, (model, log, at)),
        ensures
            exists|logs: Seq<CardLog>|
                #[trigger] is_split_by_card(logs, self.graph_context.revlog@) && self.are_items_of(
                    *fallback,
                    *item_for,
                    logs,
                    items@,
                ),
    {
        let logs = card_logs(&self.graph_context.revlog);
        let ghost all = logs@;
        let mut items: Vec<CardItem<S, I, AnkiError>> = Vec::new();
        for log in it: logs.into_iter()
            invariant
                it.seq() == all,
                forall|model: &F, log: Vec<RevlogEntry>, at: TimestampSecs|
                    call_requires(*item_for, (model, log, at)),
                items@.len() == it.index(),
                forall|i: int|
                    0 <= i < items@.len() ==> self.is_item_of(
                        *fallback,
                        *item_for,
                        all[i],
                        #[trigger] items@[i],
                    ),
        {
            assert(log == all[it.index()]);
            let cid = log.cid;
            let model = self.fsrs_or(self.config_of(cid), fallback);
            let outcome = item_for(model, log.entries, self.graph_context.next_day_start);
            assert(self.is_item_of(*fallback, *item_for, log, (cid, outcome)));
            items.push((cid, outcome));
        }
        assert(self.are_items_of(*fallback, *item_for, all, items@));
        items
    }

    /// `r` is what the items come to: the sums of the days, once every preset with items has had
    /// its turn; or the error that one of them met.
    pub open spec fn is_summed<S, I, M, V, FBatch, FAccrue>(
        &self,
        fallback: F,
        batch: FBatch,
        accrue: FAccrue,
        items: Seq<CardItem<S, I, AnkiError>>,
        r: Result<HashMap<i32, V>, AnkiError>,
    ) -> bool where
        FBatch: Fn(&F, Vec<I>, Vec<Option<S>>) -> Result<Vec<Vec<M>>, AnkiError>,
        FAccrue: Fn(Option<V>, &F, &M, u32) -> V,
     {
        match r {
            Ok(retention) => exists|runs: Seq<GroupRun<F, S, I, M>>|
                {
                    &&& #[trigger] self.are_runs_of(fallback, batch, items, runs)
                    &&& self.all_had_turn(items, runs)
                    &&& adds_up(
                        accrue,
                        terms_of_runs(runs, self.graph_context.next_day_start),
                        retention@,
                    )
                },
            Err(e) => exists|config_id: i64, model: F, group: ConfigGroup<S, I>|
                #[trigger] self.is_turn(fallback, items, config_id, model, group) && is_answer(
                    batch,
                    model,
                    group,
                    Err(e),
                ),
        }
    }

    /// `r` is what the review log comes to: split by card, made into items, and summed up. One of
    /// the models stands in wherever a card or a group has none of its own.
    pub open spec fn is_history<S, I, M, V, FItem, FBatch, FAccrue>(
        &self,
        item_for: FItem,
        batch: FBatch,
        accrue: FAccrue,
        r: Result<HashMap<i32, V>, AnkiError>,
    ) -> bool where
        FItem: Fn(&F, Vec<RevlogEntry>, TimestampSecs) -> Result<
            Option<ItemForMemoryState<S, I>>,
            AnkiError,
        >,
        FBatch: Fn(&F, Vec<I>, Vec<Option<S>>) -> Result<Vec<Vec<M>>, AnkiError>,
        FAccrue: Fn(Option<V>, &F, &M, u32) -> V,
     {
        exists|fallback: F, logs: Seq<CardLog>, items: Seq<CardItem<S, I, AnkiError>>|
            {
                &&& logs.len() > 0 ==> self.is_model_for(None, fallback)
                &&& is_split_by_card(logs, self.graph_context.revlog@)
                &&& #[trigger] self.are_items_of(fallback, item_for, logs, items)
                &&& self.is_summed(fallback, batch, accrue, items, r)
            }
    }

    /// Nothing comes of an empty review log.
    proof fn lemma_history_of_nothing<S, I, M, V, FItem, FBatch, FAccrue>(
        &self,
        item_for: FItem,
        batch: FBatch,
        accrue: FAccrue,
        map: HashMap<i32, V>,
    ) where
        FItem: Fn(&F, Vec<RevlogEntry>, TimestampSecs) -> Result<
            Option<ItemForMemoryState<S, I>>,
            AnkiError,
        >,
        FBatch: Fn(&F, Vec<I>, Vec<Option<S>>) -> Result<Vec<Vec<M>>, AnkiError>,
        FAccrue: Fn(Option<V>, &F, &M, u32) -> V,

        requires
            self.graph_context.revlog@.len() == 0,
            map@ == Map::<i32, V>::empty(),
        ensures
            self.is_history(item_for, batch, accrue, Ok(map)),
    {
        let fallback: F = arbitrary();
        let logs: Seq<CardLog> = Seq::empty();
        let items: Seq<CardItem<S, I, AnkiError>> = Seq::empty();
        let runs: Seq<GroupRun<F, S, I, M>> = Seq::empty();
        let sums: Seq<V> = Seq::empty();
        let terms = terms_of_runs(runs, self.graph_context.next_day_start);
        assert(joined(logs) =~= self.graph_context.revlog@);
        assert(are_sums_of(accrue, terms, sums));
        assert(holds_sums(map@, terms, sums));
        assert(self.are_runs_of(fallback, batch, items, runs));
        assert(self.are_items_of(fallback, item_for, logs, items));
    }

    /// How much was remembered on each day: 0 is today, -1 yesterday.
    ///
    /// `item_for` makes an item of the log of a card, up to the given time; a card for which it
    /// gives none or an error is left out. `batch` gives the states after each review of the
    /// items of one preset; its error ends the reckoning. `accrue` adds to the sum of a day,
    /// where there is one, what a state is worth after the given days.
    pub fn history_with<S, I, M, V, FItem, FBatch, FAccrue>(
        &self,
        item_for: &FItem,
        batch: &FBatch,
        accrue: &FAccrue,
    ) -> (r: Result<HashMap<i32, V>, AnkiError>) where
        FItem: Fn(&F, Vec<RevlogEntry>, TimestampSecs) -> Result<
            Option<ItemForMemoryState<S, I>>,
            AnkiError,
        >,
        FBatch: Fn(&F, Vec<I>, Vec<Option<S>>) -> Result<Vec<Vec<M>>, AnkiError>,
        FAccrue: Fn(Option<V>, &F, &M, u32) -> V,

        requires
            self.graph_context.revlog@.len() > 0 ==> self.wf(),
            forall|model: &F, log: Vec<RevlogEntry>, at: TimestampSecs|
                call_requires(*item_for, (model, log, at)),
            forall|model: &F, items: Vec<I>, starting_states: Vec<Option<S>>|
                call_requires(*batch, (model, items, starting_states)),
            forall|before: Option<V>, model: &F, state: &M, elapsed: u32|
                call_requires(*accrue, (before, model, state, elapsed)),
        ensures
            self.is_history(*item_for, *batch, *accrue, r),
            self.graph_context.revlog@.len() == 0 ==> (r matches Ok(map) && map@ == Map::<
                i32,
                V,
            >::empty()),
    {
        if self.graph_context.revlog.len() == 0 {
            let retention: HashMap<i32, V> = HashMap::new();
            proof {
                self.lemma_history_of_nothing::<S, I, M, V, FItem, FBatch, FAccrue>(
                    *item_for,
                    *batch,
                    *accrue,
                    retention,
                );
            }
            return Ok(retention);
        }
        let next_day_start = self.graph_context.next_day_start;
        let fallback = self.any_fsrs();
        let items = self.items_of_logs(fallback, item_for);
        let ghost all = items@;
        let mut groups = self.group_by_config(items);
        let ghost listed = groups@;
        let keys = keys_of(&groups);
        let mut retention: HashMap<i32, V> = HashMap::new();
        let ghost mut runs: Seq<GroupRun<F, S, I, M>> = Seq::empty();
        let ghost mut sums: Seq<V> = Seq::empty();
        let mut k: usize = 0;
        while k < keys.len()
            invariant
                self.graph_context.revlog@.len() > 0,
                self.is_model_for(None, *fallback),
                next_day_start == self.graph_context.next_day_start,
                exists|logs: Seq<CardLog>|
                    #[trigger] is_split_by_card(logs, self.graph_context.revlog@)
                        && self.are_items_of(*fallback, *item_for, logs, all),
                are_groups_of(listed, *self, all),
                keys@.no_duplicates(),
                keys@.to_set() == listed.dom(),
                k <= keys@.len(),
                forall|j: int|
                    k <= j < keys@.len() ==> groups@.contains_key(#[trigger] keys@[j])
                        && groups@[keys@[j]] == listed[keys@[j]],
                runs.len() == k,
                forall|j: int| 0 <= j < k ==> (#[trigger] runs[j]).config_id == keys@[j],
                self.are_runs_of(*fallback, *batch, all, runs),
                are_sums_of(*accrue, terms_of_runs(runs, next_day_start), sums),
                holds_sums(retention@, terms_of_runs(runs, next_day_start), sums),
                forall|model: &F, items: Vec<I>, starting_states: Vec<Option<S>>|
                    call_requires(*batch, (model, items, starting_states)),
                forall|before: Option<V>, model: &F, state: &M, elapsed: u32|
                    call_requires(*accrue, (before, model, state, elapsed)),
            decreases keys@.len() - k,
        {
            let config_id = keys[k];
            assert(keys@.to_set().contains(config_id));
            assert(groups@.contains_key(keys@[k as int]));
            if let Some(group) = groups.remove(&config_id) {
                let model = self.fsrs_or(Some(DeckConfigId(config_id)), fallback);
                let ghost fed = group;
                assert(self.is_turn(*fallback, all, config_id, *model, fed));
                match batch(model, group.fsrs_items, group.starting_states) {
                    Ok(states) => {
                        let ghost run = GroupRun { config_id, model: *model, group: fed, states };
                        let ghost terms = terms_of_runs(runs, next_day_start);
                        let Ghost(longer) = add_run::<F, S, I, M, V, FAccrue>(
                            &mut retention,
                            model,
                            &group.filtered_revlogs,
                            &states,
                            next_day_start,
                            accrue,
                            Ghost(run),
                            Ghost(terms),
                            Ghost(sums),
                        );
                        proof {
                            assert(runs.push(run).drop_last() =~= runs);
                            runs = runs.push(run);
                            sums = longer;
                        }
                    },
                    Err(e) => {
                        return Err(e);
                    },
                }
            }
            k = k + 1;
        }
        proof {
            assert forall|id: i64| (#[trigger] items_under(*self, all, id)).len() > 0 implies exists|
                j: int,
            |
                0 <= j < runs.len() && (#[trigger] runs[j]).config_id == id by {
                assert(listed.contains_key(id));
                assert(keys@.to_set().contains(id));
                let j: int = choose|j: int| 0 <= j < keys@.len() && keys@[j] == id;
                assert(runs[j].config_id == id);
            }
        }
        Ok(retention)
    }
}

/// Every card of a group has a list of states: the starting state, where there is one, and one
/// after each review. No answer fails otherwise than by invalid input, and then a card of the
/// group has a review.
pub proof fn law_each_card_has_states(
    model: FSRS,
    group: ConfigGroup<MemoryState, FsrsItem>,
    items: Seq<ItemForMemoryState<MemoryState, FsrsItem>>,
    outcome: Result<Vec<Vec<MemoryState>>, AnkiError>,
)
    requires
        is_group_of(group, items),
        is_answer(memory_states, model, group, outcome),
    ensures
        match outcome {
            Ok(lists) => {
                &&& lists@.len() == items.len()
                &&& forall|i: int|
                    0 <= i < items.len() ==> is_state_list(
                        (#[trigger] lists@[i])@,
                        items[i].item,
                        items[i].starting_state,
                    )
            },
            Err(e) => {
                &&& e == AnkiError::InvalidInput
                &&& exists|i: int|
                    0 <= i < items.len() && (#[trigger] items[i]).item.reviews@.len() > 0
            },
        },
{
    if let Err(_) = outcome {
        let i: int = choose|i: int|
            0 <= i < group.fsrs_items@.len() && (
            #[trigger] group.fsrs_items@[i]).reviews@.len() > 0;
        assert(items[i].item == group.fsrs_items@[i]);
    }
}

impl MemorizedContext<FSRS> {
    /// How much was remembered on each day: 0 is today, -1 yesterday.
    ///
    /// `item_for` makes an item of the log of a card, up to the given time; a card for which it
    /// gives none or an error is left out. `accrue` adds to the sum of a day, where there is
    /// one, what a state is worth after the given days.
    pub fn historical_fsrs<V, FItem, FAccrue>(&self, item_for: &FItem, accrue: &FAccrue) -> (r:
        Result<HashMap<i32, V>, AnkiError>) where
        FItem: Fn(&FSRS, Vec<RevlogEntry>, TimestampSecs) -> Result<
            Option<ItemForMemoryState<MemoryState, FsrsItem>>,
            AnkiError,
        >,
        FAccrue: Fn(Option<V>, &FSRS, &MemoryState, u32) -> V,

        requires
            self.graph_context.revlog@.len() > 0 ==> self.wf(),
            forall|model: &FSRS, log: Vec<RevlogEntry>, at: TimestampSecs|
                call_requires(*item_for, (model, log, at)),
            forall|before: Option<V>, model: &FSRS, state: &MemoryState, elapsed: u32|
                call_requires(*accrue, (before, model, state, elapsed)),
        ensures
            self.is_history(*item_for, memory_states, *accrue, r),
            self.graph_context.revlog@.len() == 0 ==> (r matches Ok(map) && map@ == Map::<
                i32,
                V,
            >::empty()),
    {
        self.history_with(item_for, &memory_states, accrue)
    }
}

} // verus!
