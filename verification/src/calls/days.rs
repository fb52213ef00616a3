//! On which days the reviews of a card count.

use crate::card::CardId;
use crate::graphs::history::card_logs;
use crate::graphs::history::contributions_of;
use crate::graphs::history::days_ago;
use crate::graphs::history::is_card_log;
use crate::graphs::history::is_split_by_card;
use crate::graphs::history::joined;
use crate::graphs::history::spread_over_days;
use crate::graphs::history::state_contributions;
use crate::graphs::history::CardLog;
use crate::graphs::history::Contribution;
use crate::revlog::RevlogEntry;
use crate::timestamp::TimestampSecs;
use vstd::prelude::*;

verus! {

/// The whole seconds of a number of milliseconds, toward zero.
pub open spec fn whole_secs(millis: int) -> int {
    if millis >= 0 {
        millis / 1000
    } else {
        -((-millis) / 1000)
    }
}

/// The whole days between an entry with the given id and the start of the next day, none where
/// the entry is later.
pub open spec fn whole_days(id: i64, next_day_start: TimestampSecs) -> int {
    if next_day_start.0 > whole_secs(id as int) {
        (next_day_start.0 - whole_secs(id as int)) / 86400
    } else {
        0
    }
}

/// The whole days between review `k` of the card and the start of the next day, counted in 32 bits;
/// past the last review it is today.
pub open spec fn review_days(
    revlogs: Seq<RevlogEntry>,
    k: int,
    next_day_start: TimestampSecs,
) -> int {
    if k < revlogs.len() {
        whole_days(revlogs[k].id.0, next_day_start) % 4294967296
    } else {
        0
    }
}

/// How many days ago the day with the given number was: 0 is today, -1 yesterday. Days that are
/// too long ago for a negative number of 32 bits are numbered from above.
pub open spec fn days_back(day: i32) -> int {
    if day <= 0 {
        -day
    } else {
        4294967296 - day
    }
}

/// The contribution is of a review with a state, on a day since that review and before the next,
/// or up to today after the last.
pub open spec fn is_between_reviews(
    c: Contribution,
    revlogs: Seq<RevlogEntry>,
    states: int,
    next_day_start: TimestampSecs,
) -> bool {
    let ago = days_back(c.day);
    &&& c.state < states
    &&& c.state < revlogs.len()
    &&& review_days(revlogs, c.state + 1, next_day_start) <= ago < review_days(
        revlogs,
        c.state as int,
        next_day_start,
    )
    &&& c.elapsed == ago - review_days(revlogs, c.state + 1, next_day_start)
}

proof fn lemma_age_in_32_bits(entry: RevlogEntry, next_day_at: TimestampSecs)
    ensures
        entry.age_in_days(next_day_at) as u32 == whole_days(entry.id.0, next_day_at) % 4294967296,
{
    let age: i128 = whole_days(entry.id.0, next_day_at) as i128;
    assert(0 <= age < 0x1_0000_0000_0000_0000);
    assert(age as u32 == age % 0x1_0000_0000) by (bit_vector)
        requires
            0 <= age < 0x1_0000_0000_0000_0000,
    ;
}

/// An entry is as old as the whole days between it and the start of the next day, none where it is
/// later, counted in 32 bits.
pub proof fn law_elapsed_days_are_whole_days(
    entry: RevlogEntry,
    next_day_at: TimestampSecs,
    days: u32,
)
    requires
        call_ensures(RevlogEntry::days_elapsed, (&entry, next_day_at), days),
    ensures
        days == whole_days(entry.id.0, next_day_at) % 4294967296,
{
    lemma_age_in_32_bits(entry, next_day_at);
}

/// What is called the days ago of a review are the whole days up to the start of the next day.
pub proof fn law_days_ago_are_whole_days(
    revlogs: Seq<RevlogEntry>,
    next_day_start: TimestampSecs,
    k: int,
)
    requires
        0 <= k,
    ensures
        days_ago(revlogs, next_day_start, k) == review_days(revlogs, k, next_day_start),
{
    if k < revlogs.len() {
        lemma_age_in_32_bits(revlogs[k], next_day_start);
    }
}

proof fn lemma_state_contributions(from: int, to: int, state: int, c: Contribution)
    requires
        0 <= from,
        to <= 4294967296,
        0 <= state <= usize::MAX,
    ensures
        state_contributions(from, to, state).contains(c) <==> {
            &&& c.state == state
            &&& from <= days_back(c.day) < to
            &&& c.elapsed == days_back(c.day) - from
        },
{
    let all = state_contributions(from, to, state);
    if all.contains(c) {
        let k: int = choose|k: int| 0 <= k < all.len() && all[k] == c;
        assert(days_back(c.day) == from + k);
    }
    if c.state == state && from <= days_back(c.day) < to && c.elapsed == days_back(c.day) - from {
        let k: int = days_back(c.day) - from;
        assert(all[k] == c);
    }
}

proof fn lemma_contributions(
    revlogs: Seq<RevlogEntry>,
    next_day_start: TimestampSecs,
    n: int,
    c: Contribution,
)
    requires
        0 <= n <= revlogs.len() <= usize::MAX,
    ensures
        contributions_of(revlogs, next_day_start, n).contains(c) <==> is_between_reviews(
            c,
            revlogs,
            n,
            next_day_start,
        ),
    decreases n,
{
    let all = contributions_of(revlogs, next_day_start, n);
    if n > 0 {
        let earlier = contributions_of(revlogs, next_day_start, n - 1);
        let from = days_ago(revlogs, next_day_start, n);
        let to = days_ago(revlogs, next_day_start, n - 1);
        let added = state_contributions(from, to, n - 1);
        lemma_contributions(revlogs, next_day_start, n - 1, c);
        law_days_ago_are_whole_days(revlogs, next_day_start, n);
        law_days_ago_are_whole_days(revlogs, next_day_start, n - 1);
        lemma_state_contributions(from, to, n - 1, c);
        assert(all == earlier + added);
        if earlier.contains(c) {
            let k: int = choose|k: int| 0 <= k < earlier.len() && earlier[k] == c;
            assert(all[k] == c);
        }
        if added.contains(c) {
            let k: int = choose|k: int| 0 <= k < added.len() && added[k] == c;
            assert(all[earlier.len() + k] == c);
        }
        if all.contains(c) {
            let k: int = choose|k: int| 0 <= k < all.len() && all[k] == c;
            if k < earlier.len() {
                assert(earlier[k] == c);
            } else {
                assert(added[k - earlier.len()] == c);
            }
        }
    }
}

/// The state of a review counts on every day since the review and before the next one of the card,
/// or up to today after the last, and on no other; it is told the days up to the next review.
/// However long ago the review was, no day is left out.
pub proof fn law_state_counts_between_reviews(
    revlogs: Vec<RevlogEntry>,
    states: usize,
    next_day_start: TimestampSecs,
    out: Vec<Contribution>,
)
    requires
        call_ensures(spread_over_days, (&revlogs, states, next_day_start), out),
    ensures
        forall|c: Contribution| #[trigger]
            out@.contains(c) <==> is_between_reviews(c, revlogs@, states as int, next_day_start),
{
    let n: int = if states <= revlogs@.len() {
        states as int
    } else {
        revlogs@.len() as int
    };
    assert(revlogs.len() == revlogs@.len());
    assert forall|c: Contribution| #[trigger]
        out@.contains(c) <==> is_between_reviews(
            c,
            revlogs@,
            states as int,
            next_day_start,
        ) by {
        lemma_contributions(revlogs@, next_day_start, n, c);
    }
}

/// For a review with a state, made `t` milliseconds after the start of 1970 and not past the start
/// of the next day, and the next review of the card, or today, `b` whole days before that: the
/// state counts on the day `ago` days ago if and only if `ago` is from `b` to less than the whole
/// days of the review, and is told `ago - b` days.
pub proof fn law_review_counts_for_its_days(
    revlogs: Vec<RevlogEntry>,
    states: usize,
    next_day_start: TimestampSecs,
    out: Vec<Contribution>,
    i: usize,
    b: int,
    ago: int,
)
    requires
        call_ensures(spread_over_days, (&revlogs, states, next_day_start), out),
        forall|k: int|
            0 <= k < revlogs@.len() ==> {
                let t = (#[trigger] revlogs@[k]).id.0;
                &&& 0 <= t <= next_day_start.0 * 1000
                &&& next_day_start.0 - t / 1000 < 2147483648 * 86400
            },
        i < revlogs@.len(),
        i < states,
        i + 1 < revlogs@.len() ==> b == (next_day_start.0 - revlogs@[i + 1].id.0 / 1000) / 86400,
        i + 1 == revlogs@.len() ==> b == 0,
        0 <= ago < 2147483648,
    ensures
        b <= ago < (next_day_start.0 - revlogs@[i as int].id.0 / 1000) / 86400 ==> out@.contains(
            (Contribution { day: (-ago) as i32, state: i, elapsed: (ago - b) as u32 }),
        ),
        !(b <= ago < (next_day_start.0 - revlogs@[i as int].id.0 / 1000) / 86400) ==> forall|
            elapsed: u32,
        |
            !#[trigger] out@.contains((Contribution { day: (-ago) as i32, state: i, elapsed })),
        forall|elapsed: u32| #[trigger]
            out@.contains((Contribution { day: (-ago) as i32, state: i, elapsed })) ==> elapsed
                == ago - b,
{
    assert forall|k: int| 0 <= k < revlogs@.len() implies whole_days(
        (#[trigger] revlogs@[k]).id.0,
        next_day_start,
    ) < 4294967296 && whole_days(revlogs@[k].id.0, next_day_start) == (next_day_start.0
        - revlogs@[k].id.0 / 1000) / 86400 by {
        let t = revlogs@[k].id.0;
        assert(0 <= t <= next_day_start.0 * 1000);
    }
    law_state_counts_between_reviews(revlogs, states, next_day_start, out);
    let a = (next_day_start.0 - revlogs@[i as int].id.0 / 1000) / 86400;
    assert(review_days(revlogs@, i as int, next_day_start) == a);
    assert(review_days(revlogs@, i + 1, next_day_start) == b) by {
        if i + 1 < revlogs@.len() {
            assert(whole_days(revlogs@[i + 1].id.0, next_day_start) == b);
        }
    }
    assert forall|elapsed: u32| #[trigger]
        out@.contains((Contribution { day: (-ago) as i32, state: i, elapsed })) implies elapsed == ago
        - b && b <= ago < a by {
        let c = Contribution { day: (-ago) as i32, state: i, elapsed };
        assert(is_between_reviews(c, revlogs@, states as int, next_day_start));
    }
    if b <= ago < a {
        let c = Contribution { day: (-ago) as i32, state: i, elapsed: (ago - b) as u32 };
        assert(is_between_reviews(c, revlogs@, states as int, next_day_start));
    }
}

proof fn lemma_contributions_in_order(
    revlogs: Seq<RevlogEntry>,
    next_day_start: TimestampSecs,
    n: int,
)
    requires
        0 <= n <= revlogs.len() <= usize::MAX,
    ensures
        ({
            let all = contributions_of(revlogs, next_day_start, n);
            &&& forall|k: int| 0 <= k < all.len() ==> (#[trigger] all[k]).state < n
            &&& forall|k: int, m: int|
                0 <= k < m < all.len() ==> {
                    let a = #[trigger] all[k];
                    let b = #[trigger] all[m];
                    a.state < b.state || a.state == b.state && days_back(a.day) < days_back(b.day)
                }
        }),
    decreases n,
{
    if n > 0 {
        let all = contributions_of(revlogs, next_day_start, n);
        let earlier = contributions_of(revlogs, next_day_start, n - 1);
        let from = days_ago(revlogs, next_day_start, n);
        let to = days_ago(revlogs, next_day_start, n - 1);
        let added = state_contributions(from, to, n - 1);
        lemma_contributions_in_order(revlogs, next_day_start, n - 1);
        law_days_ago_are_whole_days(revlogs, next_day_start, n);
        law_days_ago_are_whole_days(revlogs, next_day_start, n - 1);
        assert(all == earlier + added);
        assert forall|k: int| 0 <= k < added.len() implies (#[trigger] added[k]).state == n - 1
            && days_back(added[k].day) == from + k by {}
        assert forall|k: int| 0 <= k < all.len() implies (#[trigger] all[k]).state < n by {
            if k < earlier.len() {
                assert(earlier[k].state < n - 1);
            } else {
                assert(all[k] == added[k - earlier.len()]);
            }
        }
        assert forall|k: int, m: int| 0 <= k < m < all.len() implies {
            let a = #[trigger] all[k];
            let b = #[trigger] all[m];
            a.state < b.state || a.state == b.state && days_back(a.day) < days_back(b.day)
        } by {
            if m < earlier.len() {
                assert(all[k] == earlier[k] && all[m] == earlier[m]);
            } else {
                assert(all[m] == added[m - earlier.len()]);
                if k < earlier.len() {
                    assert(all[k] == earlier[k]);
                    assert(earlier[k].state < n - 1);
                } else {
                    assert(all[k] == added[k - earlier.len()]);
                }
            }
        }
    }
}

/// The states come one after the other, each with the latest day first, so that none counts twice
/// on a day.
pub proof fn law_contributions_are_in_order(
    revlogs: Vec<RevlogEntry>,
    states: usize,
    next_day_start: TimestampSecs,
    out: Vec<Contribution>,
)
    requires
        call_ensures(spread_over_days, (&revlogs, states, next_day_start), out),
    ensures
        forall|k: int, m: int|
            0 <= k < m < out@.len() ==> {
                let a = #[trigger] out@[k];
                let b = #[trigger] out@[m];
                a.state < b.state || a.state == b.state && days_back(a.day) < days_back(b.day)
            },
{
    let n: int = if states <= revlogs@.len() {
        states as int
    } else {
        revlogs@.len() as int
    };
    assert(revlogs.len() == revlogs@.len());
    lemma_contributions_in_order(revlogs@, next_day_start, n);
}

/// A review that was a day earlier counts on one day more, and on all the days that it counted on.
pub proof fn law_earlier_review_counts_longer(
    revlogs: Vec<RevlogEntry>,
    earlier: Vec<RevlogEntry>,
    next_day_start: TimestampSecs,
    out: Vec<Contribution>,
    longer: Vec<Contribution>,
)
    requires
        revlogs@.len() == 1,
        earlier@.len() == 1,
        86400000 <= revlogs@[0].id.0 <= next_day_start.0 * 1000,
        earlier@[0].id.0 == revlogs@[0].id.0 - 86400000,
        next_day_start.0 - earlier@[0].id.0 / 1000 < 2147483648 * 86400,
        call_ensures(spread_over_days, (&revlogs, 1, next_day_start), out),
        call_ensures(spread_over_days, (&earlier, 1, next_day_start), longer),
    ensures
        ({
            let n = (next_day_start.0 - revlogs@[0].id.0 / 1000) / 86400;
            forall|c: Contribution| #[trigger]
                longer@.contains(c) <==> out@.contains(c) || c == (Contribution {
                    day: (-n) as i32,
                    state: 0,
                    elapsed: n as u32,
                })
        }),
{
    law_state_counts_between_reviews(revlogs, 1, next_day_start, out);
    law_state_counts_between_reviews(earlier, 1, next_day_start, longer);
    let n = (next_day_start.0 - revlogs@[0].id.0 / 1000) / 86400;
    assert(whole_days(revlogs@[0].id.0, next_day_start) == n);
    assert(whole_days(earlier@[0].id.0, next_day_start) == n + 1);
    assert forall|c: Contribution| #[trigger]
        longer@.contains(c) <==> out@.contains(c) || c == (Contribution {
            day: (-n) as i32,
            state: 0,
            elapsed: n as u32,
        }) by {
        assert(longer@.contains(c) <==> is_between_reviews(c, earlier@, 1, next_day_start));
        assert(out@.contains(c) <==> is_between_reviews(c, revlogs@, 1, next_day_start));
    }
}

/// The log has the entries of the review log from one place to another, all of its card, after one
/// of another card.
pub open spec fn stands_at(log: CardLog, revlog: Seq<RevlogEntry>, from: int, to: int) -> bool {
    &&& 0 <= from < to <= revlog.len()
    &&& log.entries@ == revlog.subrange(from, to)
    &&& forall|p: int| from <= p < to ==> (#[trigger] revlog[p]).cid == log.cid
    &&& from > 0 ==> revlog[from - 1].cid != log.cid
}

/// `starts` are where the logs start in the review log, and then its length.
pub open spec fn are_starts(starts: Seq<int>, logs: Seq<CardLog>, revlog: Seq<RevlogEntry>) -> bool {
    &&& starts.len() == logs.len() + 1
    &&& starts[0] == 0
    &&& starts[logs.len() as int] == revlog.len()
    &&& forall|i: int|
        0 <= i < logs.len() ==> stands_at(#[trigger] logs[i], revlog, starts[i], starts[i + 1])
}

proof fn lemma_starts(logs: Seq<CardLog>, revlog: Seq<RevlogEntry>) -> (starts: Seq<int>)
    requires
        is_split_by_card(logs, revlog),
    ensures
        are_starts(starts, logs, revlog),
    decreases logs.len(),
{
    if logs.len() == 0 {
        assert(revlog.len() == 0);
        let starts: Seq<int> = seq![0int];
        assert(starts[0] == 0 && starts.len() == 1);
        starts
    } else {
        let fewer = logs.drop_last();
        let rest = joined(fewer);
        let n: int = logs.len() - 1;
        let last = logs[n];
        assert forall|i: int| 0 <= i < fewer.len() implies is_card_log(#[trigger] fewer[i]) by {
            assert(is_card_log(logs[i]));
        }
        assert forall|i: int, j: int| 0 <= i && j == i + 1 && j < fewer.len() implies (
        #[trigger] fewer[i]).cid != (#[trigger] fewer[j]).cid by {
            assert(logs[i].cid != logs[j].cid);
        }
        assert(is_card_log(last));
        let shorter = lemma_starts(fewer, rest);
        let starts = shorter.push(revlog.len() as int);
        assert(revlog == rest + last.entries@);
        assert forall|i: int| 0 <= i < logs.len() implies stands_at(
            #[trigger] logs[i],
            revlog,
            starts[i],
            starts[i + 1],
        ) by {
            if i < n {
                assert(fewer[i] == logs[i]);
                assert(starts[i] == shorter[i]);
                assert(starts[i + 1] == shorter[i + 1]);
                assert(rest.subrange(starts[i], starts[i + 1]) =~= revlog.subrange(
                    starts[i],
                    starts[i + 1],
                ));
                assert forall|p: int| starts[i] <= p < starts[i + 1] implies (
                #[trigger] revlog[p]).cid == logs[i].cid by {
                    assert(revlog[p] == rest[p]);
                }
                if i > 0 {
                    assert(fewer[i - 1] == logs[i - 1]);
                    assert(shorter[i - 1] < shorter[i]);
                    assert(revlog[starts[i] - 1] == rest[starts[i] - 1]);
                }
            } else {
                assert(starts[n] == rest.len());
                assert(last.entries@ =~= revlog.subrange(starts[i], starts[i + 1]));
                assert forall|p: int| starts[i] <= p < starts[i + 1] implies (
                #[trigger] revlog[p]).cid == last.cid by {
                    assert(revlog[p] == last.entries@[p - rest.len()]);
                }
                if i > 0 {
                    assert(logs[n - 1].cid != logs[n].cid);
                    assert(fewer[n - 1] == logs[n - 1]);
                    assert(shorter[n] == rest.len());
                    assert(rest[rest.len() - 1].cid == fewer[n - 1].cid);
                    assert(revlog[starts[n] - 1] == rest[rest.len() - 1]);
                }
            }
        }
        assert(starts[0] == shorter[0]);
        starts
    }
}

/// The review log is cut wherever the next entry is of another card, and nowhere else; no entry is
/// lost and none is moved.
pub proof fn law_log_is_cut_between_cards(revlog: Vec<RevlogEntry>, logs: Vec<CardLog>)
    requires
        call_ensures(card_logs, (&revlog,), logs),
    ensures
        exists|starts: Seq<int>| #[trigger] are_starts(starts, logs@, revlog@),
{
    let starts = lemma_starts(logs@, revlog@);
}

/// A review log of one card is not cut.
pub proof fn law_log_of_one_card_is_whole(
    revlog: Vec<RevlogEntry>,
    logs: Vec<CardLog>,
    cid: CardId,
)
    requires
        call_ensures(card_logs, (&revlog,), logs),
        revlog@.len() > 0,
        forall|i: int| 0 <= i < revlog@.len() ==> (#[trigger] revlog@[i]).cid == cid,
    ensures
        logs@.len() == 1,
        logs@[0].cid == cid,
        logs@[0].entries@ == revlog@,
{
    let starts = lemma_starts(logs@, revlog@);
    if logs@.len() == 0 {
        assert(starts[0] == revlog@.len());
    } else {
        let first = logs@[0];
        assert(starts[0] < starts[1]);
        assert(revlog@[0].cid == first.cid);
        if logs@.len() > 1 {
            let log = logs@[1];
            assert(starts[1] < starts[2]);
            assert(revlog@[starts[1]].cid == log.cid);
            assert(revlog@[starts[1] - 1].cid != log.cid);
        }
        assert(revlog@.subrange(0, revlog@.len() as int) =~= revlog@);
    }
}

} // verus!
