//! From the review log to the days on which each memory state of a card counts.

use crate::card::CardId;
use crate::card::DeckConfigId;
use crate::graphs::memorized::MemorizedContext;
use crate::order::card_before;
use crate::order::in_card_order;
use crate::revlog::RevlogEntry;
use crate::timestamp::TimestampSecs;
use std::collections::HashMap;
use vstd::prelude::*;

verus! {

broadcast use vstd::std_specs::hash::group_hash_axioms;

/// Entries of one card that stand next to each other in the review log.
pub struct CardLog {
    pub cid: CardId,
    pub entries: Vec<RevlogEntry>,
}

/// The entries of the logs, one log after the other.
pub open spec fn joined(logs: Seq<CardLog>) -> Seq<RevlogEntry>
    decreases logs.len(),
{
    if logs.len() == 0 {
        Seq::empty()
    } else {
        joined(logs.drop_last()) + logs.last().entries@
    }
}

/// The log has entries, all of its card.
pub open spec fn is_card_log(log: CardLog) -> bool {
    &&& log.entries@.len() > 0
    &&& forall|i: int| 0 <= i < log.entries@.len() ==> (#[trigger] log.entries@[i]).cid == log.cid
}

/// `logs` split the review log wherever the next entry is of another card.
pub open spec fn is_split_by_card(logs: Seq<CardLog>, revlog: Seq<RevlogEntry>) -> bool {
    &&& joined(logs) == revlog
    &&& forall|i: int| 0 <= i < logs.len() ==> is_card_log(#[trigger] logs[i])
    &&& forall|i: int, j: int|
        0 <= i && j == i + 1 && j < logs.len() ==> (#[trigger] logs[i]).cid != (
        #[trigger] logs[j]).cid
}

/// Splits the review log wherever the next entry is of another card.
pub fn card_logs(revlog: &Vec<RevlogEntry>) -> (logs: Vec<CardLog>)
    ensures
        is_split_by_card(logs@, revlog@),
{
    let mut logs: Vec<CardLog> = Vec::new();
    let mut i: usize = 0;
    assert(joined(logs@) =~= revlog@.take(0));
    while i < revlog.len()
        invariant
            i <= revlog@.len(),
            is_split_by_card(logs@, revlog@.take(i as int)),
            i == 0 <==> logs@.len() == 0,
            logs@.len() > 0 ==> i < revlog@.len() ==> revlog@[i as int].cid != logs@.last().cid,
        decreases revlog@.len() - i,
    {
        let ghost from = i;
        let ghost before = logs@;
        let cid = revlog[i].cid;
        let mut entries: Vec<RevlogEntry> = Vec::new();
        while i < revlog.len() && revlog[i].cid.0 == cid.0
            invariant
                from <= i <= revlog@.len(),
                entries@ == revlog@.subrange(from as int, i as int),
                forall|k: int| 0 <= k < entries@.len() ==> (#[trigger] entries@[k]).cid == cid,
            decreases revlog@.len() - i,
        {
            entries.push(revlog[i]);
            i = i + 1;
            assert(entries@ =~= revlog@.subrange(from as int, i as int));
        }
        logs.push(CardLog { cid, entries });
        proof {
            assert(logs@.drop_last() =~= before);
            assert(joined(logs@) =~= revlog@.take(i as int));
        }
    }
    assert(revlog@.take(i as int) =~= revlog@);
    logs
}

/// Where the review log is in card order, each card has one log, and the logs are in the order
/// of the cards.
pub proof fn law_one_log_per_card(logs: Seq<CardLog>, revlog: Seq<RevlogEntry>)
    requires
        is_split_by_card(logs, revlog),
        in_card_order(revlog),
    ensures
        forall|i: int, j: int|
            0 <= i < j < logs.len() ==> (#[trigger] logs[i]).cid.0 < (#[trigger] logs[j]).cid.0,
    decreases logs.len(),
{
    if logs.len() > 1 {
        let fewer = logs.drop_last();
        let last = logs.last();
        let n: int = joined(fewer).len() as int;
        assert(revlog == joined(fewer) + last.entries@);
        assert forall|i: int, j: int| 0 <= i < j < n implies card_before(
            #[trigger] joined(fewer)[i],
            #[trigger] joined(fewer)[j],
        ) by {
            assert(card_before(revlog[i], revlog[j]));
        }
        assert forall|i: int| 0 <= i < fewer.len() implies #[trigger] fewer[i] == logs[i] by {}
        law_one_log_per_card(fewer, joined(fewer));
        let prev = fewer.last();
        assert(prev == logs[logs.len() - 2]);
        assert(is_card_log(prev));
        assert(is_card_log(last));
        assert(joined(fewer) == joined(fewer.drop_last()) + prev.entries@);
        assert(joined(fewer)[n - 1] == prev.entries@[prev.entries@.len() - 1]);
        assert(revlog[n - 1].cid == prev.cid);
        assert(revlog[n] == last.entries@[0]);
        assert(card_before(revlog[n - 1], revlog[n]));
        assert(prev.cid.0 < last.cid.0);
        assert forall|i: int, j: int| 0 <= i < j < logs.len() implies (#[trigger] logs[i]).cid.0 < (
        #[trigger] logs[j]).cid.0 by {
            if j < fewer.len() {
                assert(fewer[i].cid.0 < fewer[j].cid.0);
            } else if i < fewer.len() - 1 {
                assert(fewer[i].cid.0 < fewer[fewer.len() - 1].cid.0);
            }
        }
    }
}

/// What the memory model is fed for one card: its reviews `I`, the state `S` to start from,
/// and the entries that the states which come out belong to.
pub struct ItemForMemoryState<S, I> {
    pub item: I,
    pub starting_state: Option<S>,
    pub filtered_revlogs: Vec<RevlogEntry>,
}

/// What the memory model of one preset is fed.
pub struct ConfigGroup<S, I> {
    pub starting_states: Vec<Option<S>>,
    pub filtered_revlogs: Vec<Vec<RevlogEntry>>,
    pub fsrs_items: Vec<I>,
}

/// What came out for the logs of the cards: an item, none for a log without use, or an error.
pub type CardItem<S, I, E> = (CardId, Result<Option<ItemForMemoryState<S, I>>, E>);

/// The items of the cards that are counted under the preset, in their order.
pub open spec fn items_under<F, S, I, E>(
    ctx: MemorizedContext<F>,
    items: Seq<CardItem<S, I, E>>,
    config_id: i64,
) -> Seq<ItemForMemoryState<S, I>>
    decreases items.len(),
{
    if items.len() == 0 {
        Seq::empty()
    } else {
        let earlier = items_under(ctx, items.drop_last(), config_id);
        let (card_id, outcome) = items.last();
        match outcome {
            Ok(Some(item)) => if ctx.group_of_card(card_id).0 == config_id {
                earlier.push(item)
            } else {
                earlier
            },
            _ => earlier,
        }
    }
}

/// The group holds what the memory model is fed for the items.
pub open spec fn is_group_of<S, I>(
    group: ConfigGroup<S, I>,
    items: Seq<ItemForMemoryState<S, I>>,
) -> bool {
    &&& group.starting_states@ == items.map_values(
        |item: ItemForMemoryState<S, I>| item.starting_state,
    )
    &&& group.filtered_revlogs@ == items.map_values(
        |item: ItemForMemoryState<S, I>| item.filtered_revlogs,
    )
    &&& group.fsrs_items@ == items.map_values(|item: ItemForMemoryState<S, I>| item.item)
}

/// Each preset with items has a group, which holds them.
pub open spec fn are_groups_of<F, S, I, E>(
    groups: Map<i64, ConfigGroup<S, I>>,
    ctx: MemorizedContext<F>,
    items: Seq<CardItem<S, I, E>>,
) -> bool {
    forall|config_id: i64|
        {
            &&& #[trigger] groups.contains_key(config_id) <==> items_under(
                ctx,
                items,
                config_id,
            ).len() > 0
            &&& groups.contains_key(config_id) ==> is_group_of(
                groups[config_id],
                items_under(ctx, items, config_id),
            )
        }
}

/// An empty group is the one of no items.
proof fn lemma_group_of<S, I>(
    group: ConfigGroup<S, I>,
    items: Seq<ItemForMemoryState<S, I>>,
)
    requires
        items.len() > 0 ==> is_group_of(group, items),
        items.len() == 0 ==> group.starting_states@.len() == 0 && group.filtered_revlogs@.len()
            == 0 && group.fsrs_items@.len() == 0,
    ensures
        is_group_of(group, items),
{
    if items.len() == 0 {
        assert(group.starting_states@ =~= items.map_values(
            |item: ItemForMemoryState<S, I>| item.starting_state,
        ));
        assert(group.filtered_revlogs@ =~= items.map_values(
            |item: ItemForMemoryState<S, I>| item.filtered_revlogs,
        ));
        assert(group.fsrs_items@ =~= items.map_values(
            |item: ItemForMemoryState<S, I>| item.item,
        ));
    }
}

/// A group with one item more is the one of the items with that item.
proof fn lemma_group_of_push<S, I>(
    before: ConfigGroup<S, I>,
    after: ConfigGroup<S, I>,
    items: Seq<ItemForMemoryState<S, I>>,
)
    requires
        items.len() > 0,
        is_group_of(before, items.drop_last()),
        after.starting_states@ == before.starting_states@.push(items.last().starting_state),
        after.filtered_revlogs@ == before.filtered_revlogs@.push(items.last().filtered_revlogs),
        after.fsrs_items@ == before.fsrs_items@.push(items.last().item),
    ensures
        is_group_of(after, items),
{
    assert(after.starting_states@ =~= items.map_values(
        |item: ItemForMemoryState<S, I>| item.starting_state,
    ));
    assert(after.filtered_revlogs@ =~= items.map_values(
        |item: ItemForMemoryState<S, I>| item.filtered_revlogs,
    ));
    assert(after.fsrs_items@ =~= items.map_values(|item: ItemForMemoryState<S, I>| item.item));
}

impl<F> MemorizedContext<F> {
    /// The preset under which the card is counted: its own, or number 0.
    pub fn config_for_card(&self, card_id: CardId) -> (config_id: DeckConfigId)
        ensures
            config_id == self.group_of_card(card_id),
    {
        match self.card_config_map.get(&card_id.0) {
            Some(config_id) => *config_id,
            None => DeckConfigId(0),
        }
    }

    /// Groups the items of the cards by preset, so that each memory model is asked once. A card
    /// without an item is left out, and so is one for which there was an error.
    pub fn group_by_config<S, I, E>(&self, items: Vec<CardItem<S, I, E>>) -> (groups: HashMap<
        i64,
        ConfigGroup<S, I>,
    >)
        ensures
            are_groups_of(groups@, *self, items@),
    {
        let ghost all = items@;
        let mut groups: HashMap<i64, ConfigGroup<S, I>> = HashMap::new();
        for next in it: items.into_iter()
            invariant
                it.seq() == all,
                are_groups_of(groups@, *self, all.take(it.index())),
        {
            let ghost n = it.index();
            let ghost before = groups@;
            proof {
                assert(all.take(n + 1).drop_last() =~= all.take(n));
                assert(next == all[n]);
                assert(all.take(n + 1).last() == next);
            }
            let (card_id, outcome) = next;
            if let Ok(Some(item)) = outcome {
                let config_id = self.config_for_card(card_id);
                let mut group = match groups.remove(&config_id.0) {
                    Some(group) => group,
                    None => ConfigGroup {
                        starting_states: Vec::new(),
                        filtered_revlogs: Vec::new(),
                        fsrs_items: Vec::new(),
                    },
                };
                let ghost earlier = items_under(*self, all.take(n), config_id.0);
                let ghost longer = earlier.push(item);
                proof {
                    assert(before.contains_key(config_id.0) <==> earlier.len() > 0);
                    lemma_group_of(group, earlier);
                }
                let ghost held = group;
                group.starting_states.push(item.starting_state);
                group.filtered_revlogs.push(item.filtered_revlogs);
                group.fsrs_items.push(item.item);
                proof {
                    assert(longer.drop_last() =~= earlier);
                    lemma_group_of_push(held, group, longer);
                }
                groups.insert(config_id.0, group);
            }
        }
        assert(all.take(all.len() as int) =~= all);
        groups
    }
}

/// Every item is counted under the preset of its card.
pub proof fn law_item_is_counted<F, S, I, E>(
    ctx: MemorizedContext<F>,
    items: Seq<CardItem<S, I, E>>,
    i: int,
)
    requires
        0 <= i < items.len(),
        items[i].1 is Ok,
        items[i].1->Ok_0 is Some,
    ensures
        items_under(ctx, items, ctx.group_of_card(items[i].0).0).contains(items[i].1->Ok_0->0),
    decreases items.len(),
{
    let config_id: i64 = ctx.group_of_card(items[i].0).0;
    let item = items[i].1->Ok_0->0;
    let fewer = items.drop_last();
    let earlier = items_under(ctx, fewer, config_id);
    let all = items_under(ctx, items, config_id);
    if i == items.len() - 1 {
        assert(all[all.len() - 1] == item);
    } else {
        assert(fewer[i] == items[i]);
        law_item_is_counted(ctx, fewer, i);
        let k: int = choose|k: int| 0 <= k < earlier.len() && earlier[k] == item;
        assert(all[k] == item);
    }
}

/// The model that a card's item is made with is the one that the card's group is put to, where
/// the card follows a preset, or its group has no model of its own.
pub proof fn law_card_and_group_share_model<F>(
    ctx: MemorizedContext<F>,
    card_id: CardId,
    fallback: F,
)
    requires
        ctx.preset_of_card(card_id) is Some || !ctx.per_preset_fsrs@.contains_key(
            ctx.group_of_card(card_id).0,
        ),
    ensures
        ctx.model_or(ctx.preset_of_card(card_id), fallback) == ctx.model_or(
            Some(ctx.group_of_card(card_id)),
            fallback,
        ),
{
}

/// A memory state counts on a day.
#[derive(Debug, Clone, Copy, PartialEq, Eq, Structural)]
pub struct Contribution {
    /// The day, counted from today: 0 is today, -1 yesterday.
    pub day: i32,
    /// The number of the state.
    pub state: usize,
    /// The days that the memory model is told have elapsed: those by which the day precedes the
    /// next review, or today where there is none.
    pub elapsed: u32,
}

/// The day that was `ago` days ago, counted from today, in 32 bits.
pub open spec fn day_number(ago: int) -> int {
    if ago <= 0x8000_0000 {
        -ago
    } else {
        0x1_0000_0000 - ago
    }
}

fn day_ago(ago: u32) -> (day: i32)
    ensures
        day == day_number(ago as int),
{
    if ago <= 0x7fff_ffff {
        -(ago as i32)
    } else if ago == 0x8000_0000 {
        i32::MIN
    } else {
        (u32::MAX - ago) as i32 + 1
    }
}

/// The contributions of one state from `from` days ago to less than `to` days ago, the latest
/// day first.
pub open spec fn state_contributions(from: int, to: int, state: int) -> Seq<Contribution> {
    Seq::new(
        if from < to {
            (to - from) as nat
        } else {
            0
        },
        |k: int|
            Contribution {
                day: day_number(from + k) as i32,
                state: state as usize,
                elapsed: k as u32,
            },
    )
}

/// How many days ago the review `i` was, 0 past the last.
pub open spec fn days_ago(
    revlogs: Seq<RevlogEntry>,
    next_day_start: TimestampSecs,
    i: int,
) -> int {
    if 0 <= i < revlogs.len() {
        revlogs[i].age_in_days(next_day_start) as u32 as int
    } else {
        0
    }
}

/// The contributions of the first `n` states: that of a review counts from the review to the
/// next, the last one up to today.
pub open spec fn contributions_of(
    revlogs: Seq<RevlogEntry>,
    next_day_start: TimestampSecs,
    n: int,
) -> Seq<Contribution>
    decreases n,
{
    if n <= 0 {
        Seq::empty()
    } else {
        contributions_of(revlogs, next_day_start, n - 1) + state_contributions(
            days_ago(revlogs, next_day_start, n),
            days_ago(revlogs, next_day_start, n - 1),
            n - 1,
        )
    }
}

/// Spreads the memory states of a card over the days on which they count. `states` is how many
/// there are; a review without a state counts for nothing, and so does a state without a
/// review.
pub fn spread_over_days(
    revlogs: &Vec<RevlogEntry>,
    states: usize,
    next_day_start: TimestampSecs,
) -> (out: Vec<Contribution>)
    ensures
        out@ == contributions_of(
            revlogs@,
            next_day_start,
            if states <= revlogs@.len() {
                states as int
            } else {
                revlogs@.len() as int
            },
        ),
{
    let mut out: Vec<Contribution> = Vec::new();
    let mut i: usize = 0;
    while i < revlogs.len() && i < states
        invariant
            i <= revlogs@.len(),
            i <= states,
            out@ == contributions_of(revlogs@, next_day_start, i as int),
        decreases revlogs@.len() - i,
    {
        let end_day: u32 = revlogs[i].days_elapsed(next_day_start);
        let start_day: u32 = if i + 1 < revlogs.len() {
            revlogs[i + 1].days_elapsed(next_day_start)
        } else {
            0
        };
        let ghost before = out@;
        let mut day: u32 = start_day;
        while day < end_day
            invariant
                start_day <= day,
                day <= end_day || day == start_day,
                out@ == before + state_contributions(start_day as int, day as int, i as int),
            decreases end_day - day,
        {
            out.push(Contribution { day: day_ago(day), state: i, elapsed: day - start_day });
            day = day + 1;
            assert(out@ =~= before + state_contributions(start_day as int, day as int, i as int));
        }
        assert(state_contributions(start_day as int, day as int, i as int)
            =~= state_contributions(start_day as int, end_day as int, i as int));
        i = i + 1;
    }
    out
}

/// A contribution of a state lies between its review and the next.
pub open spec fn lies_in_span(
    c: Contribution,
    revlogs: Seq<RevlogEntry>,
    next_day_start: TimestampSecs,
    n: int,
) -> bool {
    let from = days_ago(revlogs, next_day_start, c.state + 1);
    let to = days_ago(revlogs, next_day_start, c.state as int);
    &&& c.state < n
    &&& from + c.elapsed < to
    &&& c.day == day_number(from + c.elapsed)
}

/// Every contribution of a state lies between its review and the next, or today after the last.
pub proof fn law_contributions_lie_in_span(
    revlogs: Seq<RevlogEntry>,
    next_day_start: TimestampSecs,
    n: int,
)
    requires
        0 <= n <= revlogs.len() <= usize::MAX,
    ensures
        forall|k: int|
            0 <= k < contributions_of(revlogs, next_day_start, n).len() ==> lies_in_span(
                #[trigger] contributions_of(revlogs, next_day_start, n)[k],
                revlogs,
                next_day_start,
                n,
            ),
    decreases n,
{
    if n > 0 {
        law_contributions_lie_in_span(revlogs, next_day_start, n - 1);
        let earlier = contributions_of(revlogs, next_day_start, n - 1);
        let all = contributions_of(revlogs, next_day_start, n);
        assert forall|k: int| 0 <= k < all.len() implies lies_in_span(
            #[trigger] all[k],
            revlogs,
            next_day_start,
            n,
        ) by {
            if k < earlier.len() {
                assert(all[k] == earlier[k]);
            }
        }
    }
}

/// Some state counts on the day that was `ago` days ago.
pub open spec fn counts_day(all: Seq<Contribution>, ago: int) -> bool {
    exists|k: int| 0 <= k < all.len() && (#[trigger] all[k]).day == day_number(ago)
}

/// Where the reviews of a card are in the order of time and each has a state, every day from
/// the first review to today is counted once, and no other.
pub proof fn law_each_day_counts_once(revlogs: Seq<RevlogEntry>, next_day_start: TimestampSecs)
    requires
        revlogs.len() <= usize::MAX,
        forall|i: int, j: int|
            0 <= i < j < revlogs.len() ==> #[trigger] days_ago(revlogs, next_day_start, i)
                >= #[trigger] days_ago(revlogs, next_day_start, j),
        days_ago(revlogs, next_day_start, 0) <= 0x8000_0000,
    ensures
        ({
            let all = contributions_of(revlogs, next_day_start, revlogs.len() as int);
            let first = days_ago(revlogs, next_day_start, 0);
            &&& all.len() == first
            &&& forall|k: int| 0 <= k < all.len() ==> -first < (#[trigger] all[k]).day <= 0
            &&& forall|k: int, m: int|
                0 <= k < m < all.len() ==> (#[trigger] all[k]).day != (#[trigger] all[m]).day
            &&& forall|ago: int|
                0 <= ago < first ==> #[trigger] counts_day(all, ago)
        }),
{
    lemma_days_count_once(revlogs, next_day_start, revlogs.len() as int);
}

proof fn lemma_days_count_once(
    revlogs: Seq<RevlogEntry>,
    next_day_start: TimestampSecs,
    n: int,
)
    requires
        0 <= n <= revlogs.len() <= usize::MAX,
        forall|i: int, j: int|
            0 <= i < j < revlogs.len() ==> #[trigger] days_ago(revlogs, next_day_start, i)
                >= #[trigger] days_ago(revlogs, next_day_start, j),
        days_ago(revlogs, next_day_start, 0) <= 0x8000_0000,
    ensures
        ({
            let all = contributions_of(revlogs, next_day_start, n);
            let first = days_ago(revlogs, next_day_start, 0);
            let last = days_ago(revlogs, next_day_start, n);
            &&& all.len() == first - last
            &&& forall|k: int| 0 <= k < all.len() ==> -first < (#[trigger] all[k]).day <= -last
            &&& forall|k: int, m: int|
                0 <= k < m < all.len() ==> (#[trigger] all[k]).day != (#[trigger] all[m]).day
            &&& forall|ago: int|
                last <= ago < first ==> #[trigger] counts_day(all, ago)
        }),
    decreases n,
{
    let first = days_ago(revlogs, next_day_start, 0);
    let all = contributions_of(revlogs, next_day_start, n);
    if n > 0 {
        lemma_days_count_once(revlogs, next_day_start, n - 1);
        let earlier = contributions_of(revlogs, next_day_start, n - 1);
        let from = days_ago(revlogs, next_day_start, n);
        let to = days_ago(revlogs, next_day_start, n - 1);
        let added = state_contributions(from, to, n - 1);
        assert(from <= to);
        assert(to <= first);
        assert(all =~= earlier + added);
        assert(added.len() == to - from);
        assert forall|k: int| 0 <= k < added.len() implies (#[trigger] added[k]).day == -(from + k) by {}
        assert forall|k: int| 0 <= k < all.len() implies -first < (#[trigger] all[k]).day <= -from by {
            if k < earlier.len() {
                assert(all[k] == earlier[k]);
            } else {
                assert(all[k] == added[k - earlier.len()]);
            }
        }
        assert forall|k: int, m: int| 0 <= k < m < all.len() implies (#[trigger] all[k]).day != (
        #[trigger] all[m]).day by {
            if m < earlier.len() {
                assert(earlier[k].day != earlier[m].day);
            } else {
                assert(all[m] == added[m - earlier.len()]);
                if k < earlier.len() {
                    assert(all[k] == earlier[k]);
                } else {
                    assert(all[k] == added[k - earlier.len()]);
                }
            }
        }
        assert forall|ago: int| from <= ago < first implies #[trigger] counts_day(all, ago) by {
            if ago >= to {
                assert(counts_day(earlier, ago));
                let k: int = choose|k: int|
                    0 <= k < earlier.len() && (#[trigger] earlier[k]).day == day_number(ago);
                assert(all[k].day == day_number(ago));
            } else {
                let k: int = earlier.len() + (ago - from);
                assert(all[k] == added[ago - from]);
                assert(all[k].day == day_number(ago));
            }
        }
    }
}

} // verus!
