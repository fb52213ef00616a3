//! What was remembered, told card by card: on which days the reviews of a card count, and how
//! the sums of the days come about from the cards.

use crate::error::AnkiError;
use crate::graphs::historical::adds_up;
use crate::graphs::historical::adds_worth;
use crate::graphs::historical::has_term;
use crate::graphs::historical::is_answer;
use crate::graphs::historical::law_day_has_sum_where_state_counts;
use crate::graphs::historical::law_sum_is_total;
use crate::graphs::historical::terms_of_card;
use crate::graphs::historical::terms_of_cards;
use crate::graphs::historical::terms_of_run;
use crate::graphs::historical::terms_of_runs;
use crate::graphs::historical::total_of_day;
use crate::graphs::historical::GroupRun;
use crate::graphs::historical::Term;
use crate::graphs::history::contributions_of;
use crate::graphs::history::day_number;
use crate::graphs::history::days_ago;
use crate::graphs::history::is_split_by_card;
use crate::graphs::history::items_under;
use crate::graphs::history::law_item_is_counted;
use crate::graphs::history::state_contributions;
use crate::graphs::history::CardItem;
use crate::graphs::history::CardLog;
use crate::graphs::history::Contribution;
use crate::graphs::history::ItemForMemoryState;
use crate::graphs::memorized::MemorizedContext;
use crate::revlog::RevlogEntry;
use crate::timestamp::TimestampSecs;
use std::collections::HashMap;
use vstd::prelude::*;

verus! {

/// The turn of one card: the model it was put to, the entries that the states belong to, and
/// the states.
pub struct CardTurn<F, M> {
    pub model: F,
    pub revlogs: Seq<RevlogEntry>,
    pub states: Seq<M>,
}

/// How many days ago the day was.
pub open spec fn ago_of(day: i32) -> int {
    if day <= 0 {
        -day
    } else {
        0x1_0000_0000 - day
    }
}

/// The state after review `k` of the card counts on the day that was `ago` days ago: the review
/// was before, and the next was not.
pub open spec fn counts_on<F, M>(
    turn: CardTurn<F, M>,
    next_day_start: TimestampSecs,
    k: int,
    ago: int,
) -> bool {
    &&& 0 <= k < turn.states.len()
    &&& k < turn.revlogs.len()
    &&& days_ago(turn.revlogs, next_day_start, k + 1) <= ago < days_ago(
        turn.revlogs,
        next_day_start,
        k,
    )
}

/// What the state after review `k` adds to the sum of the day.
pub open spec fn review_worth<F, M>(
    worth: spec_fn(Term<F, M>) -> int,
    turn: CardTurn<F, M>,
    next_day_start: TimestampSecs,
    k: int,
    day: i32,
) -> int {
    let ago = ago_of(day);
    if counts_on(turn, next_day_start, k, ago) {
        worth(
            Term {
                day,
                model: turn.model,
                state: turn.states[k],
                elapsed: (ago - days_ago(turn.revlogs, next_day_start, k + 1)) as u32,
            },
        )
    } else {
        0
    }
}

/// What the states after the first `n` reviews of the card add to the sum of the day.
pub open spec fn reviews_worth<F, M>(
    worth: spec_fn(Term<F, M>) -> int,
    turn: CardTurn<F, M>,
    next_day_start: TimestampSecs,
    n: int,
    day: i32,
) -> int
    decreases n,
{
    if n <= 0 {
        0
    } else {
        reviews_worth(worth, turn, next_day_start, n - 1, day) + review_worth(
            worth,
            turn,
            next_day_start,
            n - 1,
            day,
        )
    }
}

/// What the card adds to the sum of the day; nothing without a turn.
pub open spec fn card_worth<F, M>(
    worth: spec_fn(Term<F, M>) -> int,
    turn: Option<CardTurn<F, M>>,
    next_day_start: TimestampSecs,
    day: i32,
) -> int {
    match turn {
        Some(turn) => reviews_worth(
            worth,
            turn,
            next_day_start,
            turn.revlogs.len() as int,
            day,
        ),
        None => 0,
    }
}

/// What the first `n` cards add to the sum of the day.
pub open spec fn cards_worth<F, M>(
    worth: spec_fn(Term<F, M>) -> int,
    turns: Seq<Option<CardTurn<F, M>>>,
    next_day_start: TimestampSecs,
    n: int,
    day: i32,
) -> int
    decreases n,
{
    if n <= 0 {
        0
    } else {
        cards_worth(worth, turns, next_day_start, n - 1, day) + card_worth(
            worth,
            turns[n - 1],
            next_day_start,
            day,
        )
    }
}

/// The total of a list of terms is that of its two parts.
pub proof fn lemma_total_of_joined<F, M>(
    worth: spec_fn(Term<F, M>) -> int,
    a: Seq<Term<F, M>>,
    b: Seq<Term<F, M>>,
    n: int,
    day: i32,
)
    requires
        0 <= n <= a.len() + b.len(),
    ensures
        total_of_day(worth, a + b, n, day) == if n <= a.len() {
            total_of_day(worth, a, n, day)
        } else {
            total_of_day(worth, a, a.len() as int, day) + total_of_day(worth, b, n - a.len(), day)
        },
    decreases n,
{
    if n > 0 {
        lemma_total_of_joined(worth, a, b, n - 1, day);
        if n <= a.len() {
            assert((a + b)[n - 1] == a[n - 1]);
        } else {
            assert((a + b)[n - 1] == b[n - 1 - a.len()]);
            assert(total_of_day(worth, b, 0, day) == 0);
        }
    }
}

/// What the contributions of one state add to the sum of the day: at most one is of that day.
proof fn lemma_total_of_state<F, M>(
    worth: spec_fn(Term<F, M>) -> int,
    terms: Seq<Term<F, M>>,
    model: F,
    state: M,
    from: int,
    to: int,
    n: int,
    day: i32,
)
    requires
        0 <= from < 0x1_0000_0000,
        0 <= to < 0x1_0000_0000,
        0 <= n <= terms.len(),
        from < to ==> terms.len() == to - from,
        from >= to ==> terms.len() == 0,
        forall|i: int|
            0 <= i < terms.len() ==> #[trigger] terms[i] == (Term {
                day: day_number(from + i) as i32,
                model,
                state,
                elapsed: i as u32,
            }),
    ensures
        total_of_day(worth, terms, n, day) == if from <= ago_of(day) < from + n {
            worth(Term { day, model, state, elapsed: (ago_of(day) - from) as u32 })
        } else {
            0
        },
    decreases n,
{
    if n > 0 {
        lemma_total_of_state(worth, terms, model, state, from, to, n - 1, day);
        assert(terms[n - 1].day == day_number(from + n - 1) as i32);
    }
}

/// What the terms of a card add to the sum of the day is what its reviews add.
pub proof fn lemma_total_of_card<F, M>(
    worth: spec_fn(Term<F, M>) -> int,
    turn: CardTurn<F, M>,
    next_day_start: TimestampSecs,
    day: i32,
)
    requires
        turn.revlogs.len() <= usize::MAX,
    ensures
        ({
            let terms = terms_of_card(turn.model, turn.revlogs, turn.states, next_day_start);
            total_of_day(worth, terms, terms.len() as int, day)
        }) == card_worth(worth, Some(turn), next_day_start, day),
{
    let all: int = if turn.states.len() <= turn.revlogs.len() {
        turn.states.len() as int
    } else {
        turn.revlogs.len() as int
    };
    lemma_total_of_states(worth, turn, next_day_start, all, day);
    let terms = terms_of_card(turn.model, turn.revlogs, turn.states, next_day_start);
    assert(terms =~= terms_of_states(turn, next_day_start, all));
    lemma_no_worth_past_states(worth, turn, next_day_start, turn.revlogs.len() as int, all, day);
}

/// A review without a state adds nothing.
proof fn lemma_no_worth_past_states<F, M>(
    worth: spec_fn(Term<F, M>) -> int,
    turn: CardTurn<F, M>,
    next_day_start: TimestampSecs,
    n: int,
    states: int,
    day: i32,
)
    requires
        0 <= states <= n <= turn.revlogs.len(),
        states == turn.states.len() || states == n,
    ensures
        reviews_worth(worth, turn, next_day_start, n, day) == reviews_worth(
            worth,
            turn,
            next_day_start,
            states,
            day,
        ),
    decreases n,
{
    if states < n {
        lemma_no_worth_past_states(worth, turn, next_day_start, n - 1, states, day);
    }
}

/// What the first `n` states of the card add.
pub open spec fn terms_of_states<F, M>(
    turn: CardTurn<F, M>,
    next_day_start: TimestampSecs,
    n: int,
) -> Seq<Term<F, M>> {
    contributions_of(turn.revlogs, next_day_start, n).map_values(
        |c: Contribution|
            Term {
                day: c.day,
                model: turn.model,
                state: turn.states[c.state as int],
                elapsed: c.elapsed,
            },
    )
}

proof fn lemma_total_of_states<F, M>(
    worth: spec_fn(Term<F, M>) -> int,
    turn: CardTurn<F, M>,
    next_day_start: TimestampSecs,
    n: int,
    day: i32,
)
    requires
        0 <= n <= turn.revlogs.len() <= usize::MAX,
        n <= turn.states.len(),
    ensures
        total_of_day(
            worth,
            terms_of_states(turn, next_day_start, n),
            terms_of_states(turn, next_day_start, n).len() as int,
            day,
        ) == reviews_worth(worth, turn, next_day_start, n, day),
    decreases n,
{
    if n > 0 {
        lemma_total_of_states(worth, turn, next_day_start, n - 1, day);
        let from = days_ago(turn.revlogs, next_day_start, n);
        let to = days_ago(turn.revlogs, next_day_start, n - 1);
        let added = state_contributions(from, to, n - 1);
        let earlier = terms_of_states(turn, next_day_start, n - 1);
        let last = Seq::new(
            added.len(),
            |i: int|
                Term {
                    day: added[i].day,
                    model: turn.model,
                    state: turn.states[n - 1],
                    elapsed: added[i].elapsed,
                },
        );
        assert(terms_of_states(turn, next_day_start, n) =~= earlier + last);
        lemma_total_of_joined(worth, earlier, last, (earlier + last).len() as int, day);
        lemma_total_of_state(
            worth,
            last,
            turn.model,
            turn.states[n - 1],
            from,
            to,
            last.len() as int,
            day,
        );
    }
}

/// The terms come from the turns of the cards: whatever a term is worth, they add the same to
/// each day.
pub open spec fn same_totals<F, M>(
    terms: Seq<Term<F, M>>,
    turns: Seq<Option<CardTurn<F, M>>>,
    next_day_start: TimestampSecs,
) -> bool {
    forall|worth: spec_fn(Term<F, M>) -> int, day: i32| #[trigger]
        total_of_day(worth, terms, terms.len() as int, day) == cards_worth(
            worth,
            turns,
            next_day_start,
            turns.len() as int,
            day,
        )
}

/// `map` holds what the turns of the cards add up to on each day, as `accrue` adds.
pub open spec fn adds_up_by_card<F, M, V, FAccrue: Fn(Option<V>, &F, &M, u32) -> V>(
    accrue: FAccrue,
    turns: Seq<Option<CardTurn<F, M>>>,
    next_day_start: TimestampSecs,
    map: Map<i32, V>,
) -> bool {
    exists|terms: Seq<Term<F, M>>| #[trigger]
        adds_up(accrue, terms, map) && same_totals(terms, turns, next_day_start)
}

/// Counts every term as one.
pub open spec fn one<F, M>() -> spec_fn(Term<F, M>) -> int {
    |term: Term<F, M>| 1
}

/// A state of some card counts on the day that was `ago` days ago.
pub open spec fn is_counted<F, M>(
    turns: Seq<Option<CardTurn<F, M>>>,
    next_day_start: TimestampSecs,
    ago: int,
) -> bool {
    exists|j: int, k: int|
        0 <= j < turns.len() && turns[j] is Some && #[trigger] counts_on(
            turns[j]->0,
            next_day_start,
            k,
            ago,
        )
}

proof fn lemma_ones_of_terms<F, M>(terms: Seq<Term<F, M>>, n: int, day: i32)
    requires
        0 <= n <= terms.len(),
    ensures
        total_of_day(one(), terms, n, day) >= 0,
        total_of_day(one(), terms, n, day) > 0 <==> exists|t: int|
            0 <= t < n && (#[trigger] terms[t]).day == day,
    decreases n,
{
    if n > 0 {
        lemma_ones_of_terms(terms, n - 1, day);
    }
}

proof fn lemma_ones_of_reviews<F, M>(
    turn: CardTurn<F, M>,
    next_day_start: TimestampSecs,
    n: int,
    day: i32,
)
    requires
        0 <= n <= turn.revlogs.len(),
    ensures
        reviews_worth(one(), turn, next_day_start, n, day) >= 0,
        reviews_worth(one(), turn, next_day_start, n, day) > 0 <==> exists|k: int|
            k < n && #[trigger] counts_on(turn, next_day_start, k, ago_of(day)),
    decreases n,
{
    if n > 0 {
        lemma_ones_of_reviews(turn, next_day_start, n - 1, day);
        assert(counts_on(turn, next_day_start, n - 1, ago_of(day)) || review_worth(
            one(),
            turn,
            next_day_start,
            n - 1,
            day,
        ) == 0);
    }
}

proof fn lemma_ones_of_cards<F, M>(
    turns: Seq<Option<CardTurn<F, M>>>,
    next_day_start: TimestampSecs,
    n: int,
    day: i32,
)
    requires
        0 <= n <= turns.len(),
    ensures
        cards_worth(one(), turns, next_day_start, n, day) >= 0,
        cards_worth(one(), turns, next_day_start, n, day) > 0 <==> exists|j: int, k: int|
            0 <= j < n && turns[j] is Some && #[trigger] counts_on(
                turns[j]->0,
                next_day_start,
                k,
                ago_of(day),
            ),
    decreases n,
{
    if n > 0 {
        lemma_ones_of_cards(turns, next_day_start, n - 1, day);
        if let Some(turn) = turns[n - 1] {
            lemma_ones_of_reviews(turn, next_day_start, turn.revlogs.len() as int, day);
            if card_worth(one(), turns[n - 1], next_day_start, day) > 0 {
                let k: int = choose|k: int|
                    k < turn.revlogs.len() && #[trigger] counts_on(
                        turn,
                        next_day_start,
                        k,
                        ago_of(day),
                    );
                assert(counts_on(turns[n - 1]->0, next_day_start, k, ago_of(day)));
            }
        }
        if exists|j: int, k: int|
            0 <= j < n && turns[j] is Some && #[trigger] counts_on(
                turns[j]->0,
                next_day_start,
                k,
                ago_of(day),
            ) {
            let (j, k): (int, int) = choose|j: int, k: int|
                0 <= j < n && turns[j] is Some && #[trigger] counts_on(
                    turns[j]->0,
                    next_day_start,
                    k,
                    ago_of(day),
                );
            if j < n - 1 {
                assert(counts_on(turns[j]->0, next_day_start, k, ago_of(day)));
            } else {
                assert(k < (turns[j]->0).revlogs.len());
            }
        }
    }
}

/// A day has a sum if and only if it lies between a review of some card, with a state, and the
/// next review of that card, or today after the last.
pub proof fn law_day_has_sum_between_reviews<
    F,
    M,
    V,
    FAccrue: Fn(Option<V>, &F, &M, u32) -> V,
>(
    accrue: FAccrue,
    turns: Seq<Option<CardTurn<F, M>>>,
    next_day_start: TimestampSecs,
    map: Map<i32, V>,
)
    requires
        adds_up_by_card(accrue, turns, next_day_start, map),
    ensures
        forall|day: i32| #[trigger]
            map.contains_key(day) <==> is_counted(turns, next_day_start, ago_of(day)),
{
    let terms = choose|terms: Seq<Term<F, M>>| #[trigger]
        adds_up(accrue, terms, map) && same_totals(terms, turns, next_day_start);
    law_day_has_sum_where_state_counts(accrue, terms, map);
    assert forall|day: i32| #[trigger] map.contains_key(day) <==> is_counted(
        turns,
        next_day_start,
        ago_of(day),
    ) by {
        lemma_ones_of_terms(terms, terms.len() as int, day);
        lemma_ones_of_cards(turns, next_day_start, turns.len() as int, day);
        assert(total_of_day(one(), terms, terms.len() as int, day) == cards_worth(
            one(),
            turns,
            next_day_start,
            turns.len() as int,
            day,
        ));
        assert(map.contains_key(day) <==> has_term(terms, day));
    }
}

/// The sum of a day is the total, over all cards and their reviews with a state that span the
/// day, of what the state is worth after the days by which the day precedes the next review.
pub proof fn law_sum_is_total_of_reviews<F, M, V, FAccrue: Fn(Option<V>, &F, &M, u32) -> V>(
    accrue: FAccrue,
    worth: spec_fn(Term<F, M>) -> int,
    value: spec_fn(V) -> int,
    cap: int,
    turns: Seq<Option<CardTurn<F, M>>>,
    next_day_start: TimestampSecs,
    map: Map<i32, V>,
    day: i32,
)
    requires
        adds_up_by_card(accrue, turns, next_day_start, map),
        adds_worth(accrue, worth, value, cap),
        map.contains_key(day),
        cards_worth(worth, turns, next_day_start, turns.len() as int, day) <= cap,
    ensures
        value(map[day]) == cards_worth(worth, turns, next_day_start, turns.len() as int, day),
{
    let terms = choose|terms: Seq<Term<F, M>>| #[trigger]
        adds_up(accrue, terms, map) && same_totals(terms, turns, next_day_start);
    assert(total_of_day(worth, terms, terms.len() as int, day) <= cap);
    law_sum_is_total(accrue, worth, value, cap, terms, map, day);
}

/// The reviews of the card are in the order of time, each with a state, and not older than can
/// be numbered.
pub open spec fn is_tidy<F, M>(turn: CardTurn<F, M>, next_day_start: TimestampSecs) -> bool {
    &&& turn.states.len() == turn.revlogs.len()
    &&& days_ago(turn.revlogs, next_day_start, 0) <= 0x8000_0000
    &&& forall|a: int, b: int|
        0 <= a < b < turn.revlogs.len() ==> #[trigger] days_ago(turn.revlogs, next_day_start, a)
            >= #[trigger] days_ago(turn.revlogs, next_day_start, b)
}

pub open spec fn all_tidy<F, M>(
    turns: Seq<Option<CardTurn<F, M>>>,
    next_day_start: TimestampSecs,
) -> bool {
    forall|j: int|
        0 <= j < turns.len() && (#[trigger] turns[j]) is Some ==> is_tidy(
            turns[j]->0,
            next_day_start,
        )
}

/// How many days ago the card was first reviewed, 0 without a turn.
pub open spec fn first_ago<F, M>(
    turn: Option<CardTurn<F, M>>,
    next_day_start: TimestampSecs,
) -> int {
    match turn {
        Some(turn) => days_ago(turn.revlogs, next_day_start, 0),
        None => 0,
    }
}

/// How many days ago the first review among the first `n` cards was.
pub open spec fn longest_ago<F, M>(
    turns: Seq<Option<CardTurn<F, M>>>,
    next_day_start: TimestampSecs,
    n: int,
) -> int
    decreases n,
{
    if n <= 0 {
        0
    } else {
        let earlier = longest_ago(turns, next_day_start, n - 1);
        let this = first_ago(turns[n - 1], next_day_start);
        if this > earlier {
            this
        } else {
            earlier
        }
    }
}

proof fn lemma_longest_ago<F, M>(
    turns: Seq<Option<CardTurn<F, M>>>,
    next_day_start: TimestampSecs,
    n: int,
    ago: int,
)
    requires
        0 <= n <= turns.len(),
        ago >= 0,
    ensures
        ago < longest_ago(turns, next_day_start, n) <==> exists|j: int|
            0 <= j < n && ago < first_ago(#[trigger] turns[j], next_day_start),
    decreases n,
{
    if n > 0 {
        lemma_longest_ago(turns, next_day_start, n - 1, ago);
    }
}

/// Since the first review of a tidy card, some state of it counts on each day.
proof fn lemma_some_review_counts<F, M>(
    turn: CardTurn<F, M>,
    next_day_start: TimestampSecs,
    k: int,
    ago: int,
)
    requires
        is_tidy(turn, next_day_start),
        0 <= k < turn.revlogs.len(),
        0 <= ago < days_ago(turn.revlogs, next_day_start, k),
    ensures
        exists|i: int| #[trigger] counts_on(turn, next_day_start, i, ago),
    decreases turn.revlogs.len() - k,
{
    if ago < days_ago(turn.revlogs, next_day_start, k + 1) {
        lemma_some_review_counts(turn, next_day_start, k + 1, ago);
    } else {
        assert(counts_on(turn, next_day_start, k, ago));
    }
}

/// Where the reviews of each card are in the order of time, each with a state, the days with a
/// sum are all those from the first review of any card to today, without a gap.
pub proof fn law_days_have_no_gap<F, M, V, FAccrue: Fn(Option<V>, &F, &M, u32) -> V>(
    accrue: FAccrue,
    turns: Seq<Option<CardTurn<F, M>>>,
    next_day_start: TimestampSecs,
    map: Map<i32, V>,
)
    requires
        adds_up_by_card(accrue, turns, next_day_start, map),
        all_tidy(turns, next_day_start),
    ensures
        forall|day: i32| #[trigger]
            map.contains_key(day) <==> -longest_ago(turns, next_day_start, turns.len() as int)
                < day <= 0,
{
    law_day_has_sum_between_reviews(accrue, turns, next_day_start, map);
    assert forall|day: i32| #[trigger] map.contains_key(day) <==> -longest_ago(
        turns,
        next_day_start,
        turns.len() as int,
    ) < day <= 0 by {
        let ago = ago_of(day);
        let n: int = turns.len() as int;
        lemma_longest_ago(turns, next_day_start, n, ago);
        if is_counted(turns, next_day_start, ago) {
            let (j, k): (int, int) = choose|j: int, k: int|
                0 <= j < turns.len() && turns[j] is Some && #[trigger] counts_on(
                    turns[j]->0,
                    next_day_start,
                    k,
                    ago,
                );
            let turn = turns[j]->0;
            assert(is_tidy(turn, next_day_start));
            if k > 0 {
                assert(days_ago(turn.revlogs, next_day_start, 0) >= days_ago(
                    turn.revlogs,
                    next_day_start,
                    k,
                ));
            }
            assert(ago < first_ago(turns[j], next_day_start));
        }
        if -longest_ago(turns, next_day_start, n) < day <= 0 {
            let j: int = choose|j: int|
                0 <= j < n && ago < first_ago(#[trigger] turns[j], next_day_start);
            let turn = turns[j]->0;
            assert(is_tidy(turn, next_day_start));
            lemma_some_review_counts(turn, next_day_start, 0, ago);
            let k: int = choose|k: int| #[trigger] counts_on(turn, next_day_start, k, ago);
            assert(counts_on(turns[j]->0, next_day_start, k, ago));
        }
    }
}

/// How many of the first `n` cards were first reviewed more than `ago` days ago.
pub open spec fn cards_back<F, M>(
    turns: Seq<Option<CardTurn<F, M>>>,
    next_day_start: TimestampSecs,
    n: int,
    ago: int,
) -> int
    decreases n,
{
    if n <= 0 {
        0
    } else {
        cards_back(turns, next_day_start, n - 1, ago) + if ago < first_ago(
            turns[n - 1],
            next_day_start,
        ) {
            1int
        } else {
            0
        }
    }
}

/// A tidy card counts at most once on a day.
proof fn lemma_card_counts_once<F, M>(
    worth: spec_fn(Term<F, M>) -> int,
    most: int,
    turn: CardTurn<F, M>,
    next_day_start: TimestampSecs,
    n: int,
    day: i32,
)
    requires
        is_tidy(turn, next_day_start),
        0 <= n <= turn.revlogs.len(),
        forall|term: Term<F, M>| 0 < #[trigger] worth(term) <= most,
    ensures
        0 <= reviews_worth(worth, turn, next_day_start, n, day),
        reviews_worth(worth, turn, next_day_start, n, day) <= if ago_of(day) < days_ago(
            turn.revlogs,
            next_day_start,
            0,
        ) && n > 0 && ago_of(day) >= days_ago(turn.revlogs, next_day_start, n) {
            most
        } else {
            0
        },
        forall|k: int|
            0 <= k < n && #[trigger] counts_on(turn, next_day_start, k, ago_of(day)) ==> 0
                < reviews_worth(worth, turn, next_day_start, n, day),
    decreases n,
{
    if n > 0 {
        lemma_card_counts_once(worth, most, turn, next_day_start, n - 1, day);
        assert(n < turn.revlogs.len() ==> days_ago(turn.revlogs, next_day_start, n - 1)
            >= days_ago(turn.revlogs, next_day_start, n));
        if n > 1 {
            assert(days_ago(turn.revlogs, next_day_start, 0) >= days_ago(
                turn.revlogs,
                next_day_start,
                n - 1,
            ));
        }
    }
}

proof fn lemma_cards_count_once<F, M>(
    worth: spec_fn(Term<F, M>) -> int,
    most: int,
    turns: Seq<Option<CardTurn<F, M>>>,
    next_day_start: TimestampSecs,
    n: int,
    day: i32,
)
    requires
        all_tidy(turns, next_day_start),
        0 <= n <= turns.len(),
        forall|term: Term<F, M>| 0 < #[trigger] worth(term) <= most,
        most > 0,
    ensures
        0 <= cards_worth(worth, turns, next_day_start, n, day) <= most * cards_back(
            turns,
            next_day_start,
            n,
            ago_of(day),
        ),
        0 <= cards_back(turns, next_day_start, n, ago_of(day)) <= n,
        forall|j: int, k: int|
            0 <= j < n && turns[j] is Some && #[trigger] counts_on(
                turns[j]->0,
                next_day_start,
                k,
                ago_of(day),
            ) ==> 0 < cards_worth(worth, turns, next_day_start, n, day),
    decreases n,
{
    if n > 0 {
        lemma_cards_count_once(worth, most, turns, next_day_start, n - 1, day);
        let back = cards_back(turns, next_day_start, n - 1, ago_of(day));
        assert(most * (back + 1) == most * back + most) by (nonlinear_arith);
        if let Some(turn) = turns[n - 1] {
            assert(is_tidy(turn, next_day_start));
            lemma_card_counts_once(
                worth,
                most,
                turn,
                next_day_start,
                turn.revlogs.len() as int,
                day,
            );
        }
    }
}

/// Where the reviews of each card are in the order of time, each with a state, and a state is
/// worth more than nothing and at most `most`, a sum is more than nothing, and at most `most` for
/// each card that was first reviewed before the day.
pub proof fn law_card_counts_once_a_day<F, M, V, FAccrue: Fn(Option<V>, &F, &M, u32) -> V>(
    accrue: FAccrue,
    worth: spec_fn(Term<F, M>) -> int,
    value: spec_fn(V) -> int,
    cap: int,
    most: int,
    turns: Seq<Option<CardTurn<F, M>>>,
    next_day_start: TimestampSecs,
    map: Map<i32, V>,
    day: i32,
)
    requires
        adds_up_by_card(accrue, turns, next_day_start, map),
        all_tidy(turns, next_day_start),
        adds_worth(accrue, worth, value, cap),
        forall|term: Term<F, M>| 0 < #[trigger] worth(term) <= most,
        most > 0,
        most * turns.len() <= cap,
        map.contains_key(day),
    ensures
        ({
            let back = cards_back(turns, next_day_start, turns.len() as int, ago_of(day));
            &&& 0 < value(map[day]) <= most * back
            &&& back <= turns.len()
        }),
{
    let n: int = turns.len() as int;
    let back = cards_back(turns, next_day_start, n, ago_of(day));
    lemma_cards_count_once(worth, most, turns, next_day_start, n, day);
    assert(most * back <= most * n) by (nonlinear_arith)
        requires
            most > 0,
            back <= n,
    ;
    law_sum_is_total_of_reviews(accrue, worth, value, cap, turns, next_day_start, map, day);
    law_day_has_sum_between_reviews(accrue, turns, next_day_start, map);
    assert(is_counted(turns, next_day_start, ago_of(day)));
}

/// There is an item for the log of the card.
pub open spec fn has_item<S, I>(item: CardItem<S, I, AnkiError>) -> bool {
    item.1 is Ok && item.1->Ok_0 is Some
}

/// Where in the group of its preset the item stands: after the earlier items under the preset.
pub open spec fn place_of<F, S, I>(
    ctx: MemorizedContext<F>,
    items: Seq<CardItem<S, I, AnkiError>>,
    j: int,
) -> int {
    items_under(ctx, items.take(j), ctx.group_of_card(items[j].0).0).len() as int
}

/// The turn of the card at the given place of the group; none where there is no list of states.
pub open spec fn turn_at<F, S, I, M>(run: GroupRun<F, S, I, M>, place: int) -> Option<
    CardTurn<F, M>,
> {
    if place < run.states@.len() {
        Some(
            CardTurn {
                model: run.model,
                revlogs: run.group.filtered_revlogs@[place]@,
                states: run.states@[place]@,
            },
        )
    } else {
        None
    }
}

/// The items under the preset, of the first items, come first among those of all.
proof fn lemma_items_under_prefix<F, S, I>(
    ctx: MemorizedContext<F>,
    items: Seq<CardItem<S, I, AnkiError>>,
    n: int,
    config_id: i64,
)
    requires
        0 <= n <= items.len(),
    ensures
        items_under(ctx, items.take(n), config_id).len() <= items_under(
            ctx,
            items,
            config_id,
        ).len(),
        forall|p: int|
            0 <= p < items_under(ctx, items.take(n), config_id).len() ==> items_under(
                ctx,
                items.take(n),
                config_id,
            )[p] == #[trigger] items_under(ctx, items, config_id)[p],
    decreases items.len(),
{
    if n < items.len() {
        let fewer = items.drop_last();
        lemma_items_under_prefix(ctx, fewer, n, config_id);
        assert(fewer.take(n) =~= items.take(n));
        let earlier = items_under(ctx, fewer, config_id);
        let all = items_under(ctx, items, config_id);
        assert forall|p: int| 0 <= p < items_under(ctx, items.take(n), config_id).len() implies items_under(
            ctx,
            items.take(n),
            config_id,
        )[p] == #[trigger] all[p] by {
            assert(items_under(ctx, fewer.take(n), config_id)[p] == earlier[p]);
        }
    } else {
        assert(items.take(n) =~= items);
    }
}

/// The item stands at its place.
proof fn lemma_item_at_place<F, S, I>(
    ctx: MemorizedContext<F>,
    items: Seq<CardItem<S, I, AnkiError>>,
    j: int,
)
    requires
        0 <= j < items.len(),
        has_item(items[j]),
    ensures
        ({
            let under = items_under(ctx, items, ctx.group_of_card(items[j].0).0);
            let place = place_of(ctx, items, j);
            &&& 0 <= place < under.len()
            &&& under[place] == items[j].1->Ok_0->0
        }),
{
    let config_id: i64 = ctx.group_of_card(items[j].0).0;
    let upto = items.take(j + 1);
    lemma_items_under_prefix(ctx, items, j + 1, config_id);
    assert(upto.drop_last() =~= items.take(j));
    assert(upto.last() == items[j]);
    let place = place_of(ctx, items, j);
    let under = items_under(ctx, upto, config_id);
    assert(under == items_under(ctx, items.take(j), config_id).push(items[j].1->Ok_0->0));
    assert(under[place] == items_under(ctx, items, config_id)[place]);
}

impl<F> MemorizedContext<F> {
    /// The turn of the card whose item is number `j`: what the model of its preset gave for the
    /// item, in the turn of the preset; none where there is no item.
    pub open spec fn is_turn_of<S, I, M, FBatch>(
        &self,
        fallback: F,
        batch: FBatch,
        items: Seq<CardItem<S, I, AnkiError>>,
        j: int,
        turn: Option<CardTurn<F, M>>,
    ) -> bool where FBatch: Fn(&F, Vec<I>, Vec<Option<S>>) -> Result<Vec<Vec<M>>, AnkiError> {
        if has_item(items[j]) {
            let item = items[j].1->Ok_0->0;
            let place = place_of(*self, items, j);
            exists|run: GroupRun<F, S, I, M>|
                {
                    &&& run.config_id == self.group_of_card(items[j].0).0
                    &&& self.is_turn(fallback, items, run.config_id, run.model, run.group)
                    &&& is_answer(batch, run.model, run.group, Ok(run.states))
                    &&& 0 <= place < run.group.fsrs_items@.len()
                    &&& run.group.fsrs_items@[place] == item.item
                    &&& run.group.starting_states@[place] == item.starting_state
                    &&& run.group.filtered_revlogs@[place] == item.filtered_revlogs
                    &&& turn == #[trigger] turn_at(run, place)
                }
        } else {
            turn is None
        }
    }

    /// The turns are those of the cards of the items.
    pub open spec fn are_turns_of<S, I, M, FBatch>(
        &self,
        fallback: F,
        batch: FBatch,
        items: Seq<CardItem<S, I, AnkiError>>,
        turns: Seq<Option<CardTurn<F, M>>>,
    ) -> bool where FBatch: Fn(&F, Vec<I>, Vec<Option<S>>) -> Result<Vec<Vec<M>>, AnkiError> {
        &&& turns.len() == items.len()
        &&& forall|j: int|
            0 <= j < items.len() ==> self.is_turn_of(
                fallback,
                batch,
                items,
                j, #[trigger] turns[j])
    }

    /// `map` is what the review log comes to, card by card: each log is made into an item, each
    /// item has its turn, and the turns add up.
    pub open spec fn is_history_by_card<S, I, M, V, FItem, FBatch, FAccrue>(
        &self,
        fallback: F,
        item_for: FItem,
        batch: FBatch,
        accrue: FAccrue,
        logs: Seq<CardLog>,
        items: Seq<CardItem<S, I, AnkiError>>,
        turns: Seq<Option<CardTurn<F, M>>>,
        map: Map<i32, V>,
    ) -> bool where
        FItem: Fn(&F, Vec<RevlogEntry>, TimestampSecs) -> Result<
            Option<ItemForMemoryState<S, I>>,
            AnkiError,
        >,
        FBatch: Fn(&F, Vec<I>, Vec<Option<S>>) -> Result<Vec<Vec<M>>, AnkiError>,
        FAccrue: Fn(Option<V>, &F, &M, u32) -> V,
     {
        &&& logs.len() > 0 ==> self.is_model_for(None, fallback)
        &&& is_split_by_card(logs, self.graph_context.revlog@)
        &&& self.are_items_of(fallback, item_for, logs, items)
        &&& self.are_turns_of(fallback, batch, items, turns)
        &&& adds_up_by_card(accrue, turns, self.graph_context.next_day_start, map)
    }
}

/// What the cards at the first `n` places of the group add to the sum of the day.
spec fn places_worth<F, S, I, M>(
    worth: spec_fn(Term<F, M>) -> int,
    run: GroupRun<F, S, I, M>,
    next_day_start: TimestampSecs,
    n: int,
    day: i32,
) -> int
    decreases n,
{
    if n <= 0 {
        0
    } else {
        places_worth(worth, run, next_day_start, n - 1, day) + card_worth(
            worth,
            turn_at(run, n - 1),
            next_day_start,
            day,
        )
    }
}

proof fn lemma_total_of_places<F, S, I, M>(
    worth: spec_fn(Term<F, M>) -> int,
    run: GroupRun<F, S, I, M>,
    next_day_start: TimestampSecs,
    n: int,
    day: i32,
)
    requires
        0 <= n <= run.states@.len(),
        n <= run.group.filtered_revlogs@.len(),
    ensures
        total_of_day(
            worth,
            terms_of_cards(run, next_day_start, n),
            terms_of_cards(run, next_day_start, n).len() as int,
            day,
        ) == places_worth(worth, run, next_day_start, n, day),
    decreases n,
{
    if n > 0 {
        lemma_total_of_places(worth, run, next_day_start, n - 1, day);
        let earlier = terms_of_cards(run, next_day_start, n - 1);
        let turn = turn_at(run, n - 1)->0;
        let last = terms_of_card(turn.model, turn.revlogs, turn.states, next_day_start);
        assert(terms_of_cards(run, next_day_start, n) == earlier + last);
        lemma_total_of_joined(worth, earlier, last, (earlier + last).len() as int, day);
        let revlogs = run.group.filtered_revlogs@[n - 1];
        assert(revlogs@.len() == revlogs.len());
        lemma_total_of_card(worth, turn, next_day_start, day);
    }
}

/// A place without a list of states adds nothing.
proof fn lemma_places_past_states<F, S, I, M>(
    worth: spec_fn(Term<F, M>) -> int,
    run: GroupRun<F, S, I, M>,
    next_day_start: TimestampSecs,
    n: int,
    lists: int,
    day: i32,
)
    requires
        0 <= lists <= n,
        lists == run.states@.len() || lists == n,
    ensures
        places_worth(worth, run, next_day_start, n, day) == places_worth(
            worth,
            run,
            next_day_start,
            lists,
            day,
        ),
    decreases n,
{
    if lists < n {
        lemma_places_past_states(worth, run, next_day_start, n - 1, lists, day);
    }
}

/// What the turn of a preset adds to the sum of the day is what the places of its group add.
proof fn lemma_total_of_run<F, S, I, M>(
    worth: spec_fn(Term<F, M>) -> int,
    run: GroupRun<F, S, I, M>,
    next_day_start: TimestampSecs,
    day: i32,
)
    ensures
        total_of_day(
            worth,
            terms_of_run(run, next_day_start),
            terms_of_run(run, next_day_start).len() as int,
            day,
        ) == places_worth(
            worth,
            run,
            next_day_start,
            run.group.filtered_revlogs@.len() as int,
            day,
        ),
{
    let cards: int = run.group.filtered_revlogs@.len() as int;
    let lists: int = if run.states@.len() <= cards {
        run.states@.len() as int
    } else {
        cards
    };
    lemma_total_of_places(worth, run, next_day_start, lists, day);
    lemma_places_past_states(worth, run, next_day_start, cards, lists, day);
}

/// What the turns of the first `n` presets add to the sum of the day.
spec fn runs_worth<F, S, I, M>(
    worth: spec_fn(Term<F, M>) -> int,
    runs: Seq<GroupRun<F, S, I, M>>,
    next_day_start: TimestampSecs,
    n: int,
    day: i32,
) -> int
    decreases n,
{
    if n <= 0 {
        0
    } else {
        runs_worth(worth, runs, next_day_start, n - 1, day) + places_worth(
            worth,
            runs[n - 1],
            next_day_start,
            runs[n - 1].group.filtered_revlogs@.len() as int,
            day,
        )
    }
}

proof fn lemma_total_of_runs<F, S, I, M>(
    worth: spec_fn(Term<F, M>) -> int,
    runs: Seq<GroupRun<F, S, I, M>>,
    next_day_start: TimestampSecs,
    n: int,
    day: i32,
)
    requires
        0 <= n <= runs.len(),
    ensures
        total_of_day(
            worth,
            terms_of_runs(runs.take(n), next_day_start),
            terms_of_runs(runs.take(n), next_day_start).len() as int,
            day,
        ) == runs_worth(worth, runs, next_day_start, n, day),
    decreases n,
{
    if n > 0 {
        lemma_total_of_runs(worth, runs, next_day_start, n - 1, day);
        let some = runs.take(n);
        assert(some.drop_last() =~= runs.take(n - 1));
        assert(some.last() == runs[n - 1]);
        let earlier = terms_of_runs(runs.take(n - 1), next_day_start);
        let last = terms_of_run(runs[n - 1], next_day_start);
        assert(terms_of_runs(some, next_day_start) == earlier + last);
        lemma_total_of_joined(worth, earlier, last, (earlier + last).len() as int, day);
        lemma_total_of_run(worth, runs[n - 1], next_day_start, day);
    }
}

/// The preset is that of one of the first `n` turns.
spec fn had_turn<F, S, I, M>(runs: Seq<GroupRun<F, S, I, M>>, n: int, config_id: i64) -> bool {
    exists|k: int| 0 <= k < n && (#[trigger] runs[k]).config_id == config_id
}

/// What the cards of the first `n` items add to the sum of the day, of those whose presets are
/// among the first `m` turns.
spec fn worth_by_presets<F, S, I, M>(
    worth: spec_fn(Term<F, M>) -> int,
    ctx: MemorizedContext<F>,
    items: Seq<CardItem<S, I, AnkiError>>,
    turns: Seq<Option<CardTurn<F, M>>>,
    runs: Seq<GroupRun<F, S, I, M>>,
    m: int,
    n: int,
    day: i32,
) -> int
    decreases n,
{
    if n <= 0 {
        0
    } else {
        worth_by_presets(worth, ctx, items, turns, runs, m, n - 1, day) + if has_item(items[n - 1])
            && had_turn(runs, m, ctx.group_of_card(items[n - 1].0).0) {
            card_worth(worth, turns[n - 1], ctx.graph_context.next_day_start, day)
        } else {
            0
        }
    }
}

/// The turns of the cards are those at their places in the turns of their presets.
spec fn are_placed<F, S, I, M>(
    ctx: MemorizedContext<F>,
    items: Seq<CardItem<S, I, AnkiError>>,
    turns: Seq<Option<CardTurn<F, M>>>,
    runs: Seq<GroupRun<F, S, I, M>>,
) -> bool {
    &&& turns.len() == items.len()
    &&& forall|i: int, j: int|
        0 <= i < j < runs.len() ==> (#[trigger] runs[i]).config_id != (
        #[trigger] runs[j]).config_id
    &&& forall|j: int, k: int|
        0 <= j < items.len() && 0 <= k < runs.len() && has_item(items[j]) && (
        #[trigger] runs[k]).config_id == ctx.group_of_card(items[j].0).0 ==> #[trigger] turns[j]
            == turn_at(runs[k], place_of(ctx, items, j))
}

/// One more turn of a preset adds what the places of its group add.
proof fn lemma_one_more_preset<F, S, I, M>(
    worth: spec_fn(Term<F, M>) -> int,
    ctx: MemorizedContext<F>,
    items: Seq<CardItem<S, I, AnkiError>>,
    turns: Seq<Option<CardTurn<F, M>>>,
    runs: Seq<GroupRun<F, S, I, M>>,
    m: int,
    n: int,
    day: i32,
)
    requires
        are_placed(ctx, items, turns, runs),
        0 <= m < runs.len(),
        0 <= n <= items.len(),
    ensures
        worth_by_presets(worth, ctx, items, turns, runs, m + 1, n, day) == worth_by_presets(
            worth,
            ctx,
            items,
            turns,
            runs,
            m,
            n,
            day,
        ) + places_worth(
            worth,
            runs[m],
            ctx.graph_context.next_day_start,
            items_under(ctx, items.take(n), runs[m].config_id).len() as int,
            day,
        ),
    decreases n,
{
    let config_id: i64 = runs[m].config_id;
    if n > 0 {
        lemma_one_more_preset(worth, ctx, items, turns, runs, m, n - 1, day);
        let j: int = n - 1;
        let some = items.take(n);
        assert(some.drop_last() =~= items.take(j));
        assert(some.last() == items[j]);
        let group: i64 = ctx.group_of_card(items[j].0).0;
        if had_turn(runs, m, group) {
            let k: int = choose|k: int| 0 <= k < m && (#[trigger] runs[k]).config_id == group;
            assert(runs[k].config_id != runs[m].config_id);
            assert(had_turn(runs, m + 1, group));
        } else if group == config_id {
            assert(had_turn(runs, m + 1, group));
            if has_item(items[j]) {
                assert(turns[j] == turn_at(runs[m], place_of(ctx, items, j)));
            }
        } else {
            assert(!had_turn(runs, m + 1, group));
        }
    } else {
        assert(items.take(0) =~= Seq::<CardItem<S, I, AnkiError>>::empty());
    }
}

proof fn lemma_worth_by_presets<F, S, I, M>(
    worth: spec_fn(Term<F, M>) -> int,
    ctx: MemorizedContext<F>,
    items: Seq<CardItem<S, I, AnkiError>>,
    turns: Seq<Option<CardTurn<F, M>>>,
    runs: Seq<GroupRun<F, S, I, M>>,
    m: int,
    day: i32,
)
    requires
        are_placed(ctx, items, turns, runs),
        0 <= m <= runs.len(),
        forall|k: int|
            0 <= k < runs.len() ==> (#[trigger] runs[k]).group.filtered_revlogs@.len()
                == items_under(ctx, items, runs[k].config_id).len(),
    ensures
        worth_by_presets(
            worth,
            ctx,
            items,
            turns,
            runs,
            m,
            items.len() as int,
            day,
        ) == runs_worth(worth, runs, ctx.graph_context.next_day_start, m, day),
    decreases m,
{
    if m > 0 {
        lemma_worth_by_presets(worth, ctx, items, turns, runs, m - 1, day);
        lemma_one_more_preset(
            worth,
            ctx,
            items,
            turns,
            runs,
            m - 1,
            items.len() as int,
            day,
        );
        assert(items.take(items.len() as int) =~= items);
        assert(runs[m - 1].group.filtered_revlogs@.len() == items_under(
            ctx,
            items,
            runs[m - 1].config_id,
        ).len());
    } else {
        lemma_no_preset_no_worth(worth, ctx, items, turns, runs, items.len() as int, day);
    }
}

proof fn lemma_no_preset_no_worth<F, S, I, M>(
    worth: spec_fn(Term<F, M>) -> int,
    ctx: MemorizedContext<F>,
    items: Seq<CardItem<S, I, AnkiError>>,
    turns: Seq<Option<CardTurn<F, M>>>,
    runs: Seq<GroupRun<F, S, I, M>>,
    n: int,
    day: i32,
)
    ensures
        worth_by_presets(worth, ctx, items, turns, runs, 0, n, day) == 0,
    decreases n,
{
    if n > 0 {
        lemma_no_preset_no_worth(worth, ctx, items, turns, runs, n - 1, day);
    }
}

/// Once all presets have had their turns, all cards are counted.
proof fn lemma_all_presets<F, S, I, M>(
    worth: spec_fn(Term<F, M>) -> int,
    ctx: MemorizedContext<F>,
    items: Seq<CardItem<S, I, AnkiError>>,
    turns: Seq<Option<CardTurn<F, M>>>,
    runs: Seq<GroupRun<F, S, I, M>>,
    n: int,
    day: i32,
)
    requires
        ctx.all_had_turn(items, runs),
        turns.len() == items.len(),
        forall|j: int|
            0 <= j < items.len() && !has_item(items[j]) ==> (#[trigger] turns[j]) is None,
        0 <= n <= items.len(),
    ensures
        worth_by_presets(
            worth,
            ctx,
            items,
            turns,
            runs,
            runs.len() as int,
            n,
            day,
        ) == cards_worth(worth, turns, ctx.graph_context.next_day_start, n, day),
    decreases n,
{
    if n > 0 {
        lemma_all_presets(worth, ctx, items, turns, runs, n - 1, day);
        let j: int = n - 1;
        if has_item(items[j]) {
            law_item_is_counted(ctx, items, j);
            let group: i64 = ctx.group_of_card(items[j].0).0;
            assert(items_under(ctx, items, group).len() > 0);
            let k: int = choose|k: int|
                0 <= k < runs.len() && (#[trigger] runs[k]).config_id == group;
            assert(had_turn(runs, runs.len() as int, group));
        } else {
            assert(turns[j] is None);
        }
    }
}

/// The turn of the card whose item is number `j`, among the turns of the presets.
spec fn turn_among<F, S, I, M>(
    ctx: MemorizedContext<F>,
    items: Seq<CardItem<S, I, AnkiError>>,
    runs: Seq<GroupRun<F, S, I, M>>,
    j: int,
) -> Option<CardTurn<F, M>> {
    if has_item(items[j]) {
        let k = choose|k: int|
            0 <= k < runs.len() && (#[trigger] runs[k]).config_id == ctx.group_of_card(
                items[j].0,
            ).0;
        turn_at(runs[k], place_of(ctx, items, j))
    } else {
        None
    }
}

/// What the turns of the presets come to is what the turns of the cards come to.
proof fn lemma_runs_by_card<F, S, I, M, V, FBatch, FAccrue>(
    ctx: MemorizedContext<F>,
    fallback: F,
    batch: FBatch,
    accrue: FAccrue,
    items: Seq<CardItem<S, I, AnkiError>>,
    runs: Seq<GroupRun<F, S, I, M>>,
    map: Map<i32, V>,
) -> (turns: Seq<Option<CardTurn<F, M>>>) where
    FBatch: Fn(&F, Vec<I>, Vec<Option<S>>) -> Result<Vec<Vec<M>>, AnkiError>,
    FAccrue: Fn(Option<V>, &F, &M, u32) -> V,

    requires
        ctx.are_runs_of(fallback, batch, items, runs),
        ctx.all_had_turn(items, runs),
        adds_up(accrue, terms_of_runs(runs, ctx.graph_context.next_day_start), map),
    ensures
        ctx.are_turns_of(fallback, batch, items, turns),
        adds_up_by_card(accrue, turns, ctx.graph_context.next_day_start, map),
{
    let turns = Seq::new(items.len(), |j: int| turn_among(ctx, items, runs, j));
    let next_day_start = ctx.graph_context.next_day_start;
    assert forall|j: int| 0 <= j < items.len() && has_item(items[j]) implies exists|k: int|
        0 <= k < runs.len() && (#[trigger] runs[k]).config_id == ctx.group_of_card(
            items[j].0,
        ).0 by {
        law_item_is_counted(ctx, items, j);
        assert(items_under(ctx, items, ctx.group_of_card(items[j].0).0).len() > 0);
    }
    assert forall|j: int| 0 <= j < items.len() implies ctx.is_turn_of(
        fallback,
        batch,
        items,
        j,
        #[trigger] turns[j],
    ) by {
        if has_item(items[j]) {
            let group: i64 = ctx.group_of_card(items[j].0).0;
            let k: int = choose|k: int|
                0 <= k < runs.len() && (#[trigger] runs[k]).config_id == group;
            let run = runs[k];
            lemma_item_at_place(ctx, items, j);
            let place = place_of(ctx, items, j);
            assert(turns[j] == turn_at(run, place));
            assert(ctx.is_turn(fallback, items, run.config_id, run.model, run.group));
        }
    }
    assert(are_placed(ctx, items, turns, runs)) by {
        assert forall|j: int, k: int|
            0 <= j < items.len() && 0 <= k < runs.len() && has_item(items[j]) && (
            #[trigger] runs[k]).config_id == ctx.group_of_card(
                items[j].0,
            ).0 implies #[trigger] turns[j] == turn_at(runs[k], place_of(ctx, items, j)) by {
            let x: int = choose|x: int|
                0 <= x < runs.len() && (#[trigger] runs[x]).config_id == ctx.group_of_card(
                    items[j].0,
                ).0;
            assert(x == k);
        }
    }
    assert forall|k: int| 0 <= k < runs.len() implies (
    #[trigger] runs[k]).group.filtered_revlogs@.len() == items_under(
        ctx,
        items,
        runs[k].config_id,
    ).len() by {
        assert(ctx.is_turn(fallback, items, runs[k].config_id, runs[k].model, runs[k].group));
    }
    let terms = terms_of_runs(runs, next_day_start);
    assert forall|worth: spec_fn(Term<F, M>) -> int, day: i32| #[trigger]
        total_of_day(worth, terms, terms.len() as int, day) == cards_worth(
            worth,
            turns,
            next_day_start,
            turns.len() as int,
            day,
        ) by {
        assert(runs.take(runs.len() as int) =~= runs);
        lemma_total_of_runs(worth, runs, next_day_start, runs.len() as int, day);
        lemma_worth_by_presets(worth, ctx, items, turns, runs, runs.len() as int, day);
        lemma_all_presets(worth, ctx, items, turns, runs, items.len() as int, day);
    }
    assert(same_totals(terms, turns, next_day_start));
    turns
}

/// What was remembered can be told card by card: each card's log is made into an item, each item
/// has its turn with the model of its preset, and the sums of the days are what these turns add
/// up to.
pub proof fn law_history_is_by_card<F, S, I, M, V, FItem, FBatch, FAccrue>(
    ctx: MemorizedContext<F>,
    item_for: FItem,
    batch: FBatch,
    accrue: FAccrue,
    map: HashMap<i32, V>,
) where
    FItem: Fn(&F, Vec<RevlogEntry>, TimestampSecs) -> Result<
        Option<ItemForMemoryState<S, I>>,
        AnkiError,
    >,
    FBatch: Fn(&F, Vec<I>, Vec<Option<S>>) -> Result<Vec<Vec<M>>, AnkiError>,
    FAccrue: Fn(Option<V>, &F, &M, u32) -> V,

    requires
        ctx.is_history(item_for, batch, accrue, Ok(map)),
    ensures
        exists|
            fallback: F,
            logs: Seq<CardLog>,
            items: Seq<CardItem<S, I, AnkiError>>,
            turns: Seq<Option<CardTurn<F, M>>>,
        | #[trigger]
            ctx.is_history_by_card(fallback, item_for, batch, accrue, logs, items, turns, map@),
{
    let (fallback, logs, items): (F, Seq<CardLog>, Seq<CardItem<S, I, AnkiError>>) = choose|
        fallback: F,
        logs: Seq<CardLog>,
        items: Seq<CardItem<S, I, AnkiError>>,
    |
        {
            &&& logs.len() > 0 ==> ctx.is_model_for(None, fallback)
            &&& is_split_by_card(logs, ctx.graph_context.revlog@)
            &&& #[trigger] ctx.are_items_of(fallback, item_for, logs, items)
            &&& ctx.is_summed(fallback, batch, accrue, items, Ok(map))
        };
    let runs = choose|runs: Seq<GroupRun<F, S, I, M>>|
        {
            &&& #[trigger] ctx.are_runs_of(fallback, batch, items, runs)
            &&& ctx.all_had_turn(items, runs)
            &&& adds_up(
                accrue,
                terms_of_runs(runs, ctx.graph_context.next_day_start),
                map@,
            )
        };
    let turns = lemma_runs_by_card(ctx, fallback, batch, accrue, items, runs, map@);
    assert(ctx.is_history_by_card(fallback, item_for, batch, accrue, logs, items, turns, map@));
}

} // verus!
