//! There is one way to split a review log by card.

use crate::card::CardId;
use crate::graphs::history::is_card_log;
use crate::graphs::history::is_split_by_card;
use crate::graphs::history::joined;
use crate::graphs::history::CardLog;
use crate::revlog::RevlogEntry;
use vstd::prelude::*;

verus! {

/// The entries of each card stand next to each other.
pub open spec fn is_adjacent(revlog: Seq<RevlogEntry>) -> bool {
    forall|i: int, j: int, k: int|
        0 <= i < j < k < revlog.len() && (#[trigger] revlog[i]).cid == (#[trigger] revlog[k]).cid
            ==> (#[trigger] revlog[j]).cid == revlog[i].cid
}

/// The cards of the entries.
pub open spec fn cards_of(revlog: Seq<RevlogEntry>) -> Set<CardId> {
    revlog.map_values(|e: RevlogEntry| e.cid).to_set()
}

/// The parts, one after the other.
pub open spec fn joined_parts(parts: Seq<Seq<RevlogEntry>>) -> Seq<RevlogEntry>
    decreases parts.len(),
{
    if parts.len() == 0 {
        Seq::empty()
    } else {
        joined_parts(parts.drop_last()) + parts.last()
    }
}

/// The part has entries, all of one card.
pub open spec fn is_part(part: Seq<RevlogEntry>) -> bool {
    &&& part.len() > 0
    &&& forall|i: int| 0 <= i < part.len() ==> (#[trigger] part[i]).cid == part[0].cid
}

/// The parts split the review log wherever the next entry is of another card.
pub open spec fn is_split(parts: Seq<Seq<RevlogEntry>>, revlog: Seq<RevlogEntry>) -> bool {
    &&& joined_parts(parts) == revlog
    &&& forall|i: int| 0 <= i < parts.len() ==> is_part(#[trigger] parts[i])
    &&& forall|i: int, j: int|
        0 <= i && j == i + 1 && j < parts.len() ==> (#[trigger] parts[i])[0].cid != (
        #[trigger] parts[j])[0].cid
}

/// The entries of the logs.
pub open spec fn parts_of(logs: Seq<CardLog>) -> Seq<Seq<RevlogEntry>> {
    Seq::new(logs.len(), |i: int| logs[i].entries@)
}

proof fn lemma_joined_logs(logs: Seq<CardLog>)
    ensures
        joined_parts(parts_of(logs)) == joined(logs),
    decreases logs.len(),
{
    if logs.len() > 0 {
        lemma_joined_logs(logs.drop_last());
        assert(parts_of(logs).drop_last() =~= parts_of(logs.drop_last()));
    }
}

/// The logs into which a review log is split are its parts.
pub proof fn lemma_logs_are_parts(logs: Seq<CardLog>, revlog: Seq<RevlogEntry>)
    requires
        is_split_by_card(logs, revlog),
    ensures
        is_split(parts_of(logs), revlog),
        forall|i: int|
            0 <= i < logs.len() ==> (#[trigger] parts_of(logs)[i])[0].cid == logs[i].cid,
{
    lemma_joined_logs(logs);
    let parts = parts_of(logs);
    assert forall|i: int| 0 <= i < parts.len() implies is_part(#[trigger] parts[i]) && parts[i][0].cid
        == logs[i].cid by {
        assert(is_card_log(logs[i]));
        assert(logs[i].entries@[0].cid == logs[i].cid);
        assert forall|p: int| 0 <= p < parts[i].len() implies (#[trigger] parts[i][p]).cid
            == parts[i][0].cid by {
            assert(logs[i].entries@[p].cid == logs[i].cid);
        }
    }
    assert forall|i: int, j: int| 0 <= i && j == i + 1 && j < parts.len() implies (
    #[trigger] parts[i])[0].cid != (#[trigger] parts[j])[0].cid by {
        assert(logs[i].cid != logs[j].cid);
    }
}

/// What the parts joined end with.
proof fn lemma_end_of_joined(parts: Seq<Seq<RevlogEntry>>)
    requires
        parts.len() > 0,
        is_part(parts.last()),
    ensures
        joined_parts(parts).len() >= parts.last().len() > 0,
        forall|p: int|
            0 <= p < parts.last().len() ==> joined_parts(parts)[joined_parts(parts).len()
                - parts.last().len() + p] == #[trigger] parts.last()[p],
{
}

/// All but the last part split all but the entries of the last part.
proof fn lemma_fewer_parts(parts: Seq<Seq<RevlogEntry>>, revlog: Seq<RevlogEntry>)
    requires
        is_split(parts, revlog),
        parts.len() > 0,
    ensures
        is_split(parts.drop_last(), joined_parts(parts.drop_last())),
        is_part(parts.last()),
        revlog == joined_parts(parts.drop_last()) + parts.last(),
        revlog.len() == joined_parts(parts.drop_last()).len() + parts.last().len() > 0,
        parts.len() > 1 ==> parts.drop_last().last()[0].cid != parts.last()[0].cid && is_part(
            parts.drop_last().last(),
        ),
{
    let fewer = parts.drop_last();
    assert(is_part(parts[parts.len() - 1]));
    assert forall|i: int| 0 <= i < fewer.len() implies is_part(#[trigger] fewer[i]) by {
        assert(is_part(parts[i]));
    }
    assert forall|i: int, j: int| 0 <= i && j == i + 1 && j < fewer.len() implies (
    #[trigger] fewer[i])[0].cid != (#[trigger] fewer[j])[0].cid by {
        assert(parts[i][0].cid != parts[j][0].cid);
    }
    if parts.len() > 1 {
        assert(parts[parts.len() - 2][0].cid != parts[parts.len() - 1][0].cid);
        assert(is_part(parts[parts.len() - 2]));
    }
}

/// The last part of one split is no shorter than that of another.
proof fn lemma_last_part_no_shorter(
    a: Seq<Seq<RevlogEntry>>,
    b: Seq<Seq<RevlogEntry>>,
    revlog: Seq<RevlogEntry>,
)
    requires
        is_split(a, revlog),
        is_split(b, revlog),
        a.len() > 0,
        b.len() > 0,
    ensures
        a.last().len() >= b.last().len(),
{
    lemma_fewer_parts(a, revlog);
    lemma_fewer_parts(b, revlog);
    lemma_end_of_joined(a);
    lemma_end_of_joined(b);
    let n: int = revlog.len() as int;
    let la = a.last();
    let lb = b.last();
    if la.len() < lb.len() {
        let rest = joined_parts(a.drop_last());
        assert(rest.len() > 0);
        assert(a.len() > 1);
        lemma_end_of_joined(a.drop_last());
        let prev = a.drop_last().last();
        let at: int = n - la.len() - 1;
        assert(revlog[at] == rest[rest.len() - 1]);
        assert(rest[rest.len() - 1] == prev[prev.len() - 1]);
        assert(revlog[at] == lb[lb.len() - la.len() - 1]);
        assert(revlog[n - 1] == lb[lb.len() - 1]);
        assert(revlog[n - 1] == la[la.len() - 1]);
    }
}

/// There is one way to split a review log.
pub proof fn lemma_split_unique(
    a: Seq<Seq<RevlogEntry>>,
    b: Seq<Seq<RevlogEntry>>,
    revlog: Seq<RevlogEntry>,
)
    requires
        is_split(a, revlog),
        is_split(b, revlog),
    ensures
        a == b,
    decreases a.len(),
{
    if a.len() == 0 {
        assert(joined_parts(a).len() == 0);
        if b.len() > 0 {
            lemma_fewer_parts(b, revlog);
        }
        assert(a =~= b);
    } else {
        lemma_fewer_parts(a, revlog);
        if b.len() == 0 {
            assert(joined_parts(b).len() == 0);
        }
        lemma_fewer_parts(b, revlog);
        lemma_last_part_no_shorter(a, b, revlog);
        lemma_last_part_no_shorter(b, a, revlog);
        let x = joined_parts(a.drop_last());
        let y = joined_parts(b.drop_last());
        assert(x.len() == y.len());
        assert(a.last() =~= b.last()) by {
            assert forall|p: int| 0 <= p < a.last().len() implies a.last()[p] == b.last()[p] by {
                assert(revlog[x.len() + p] == a.last()[p]);
                assert(revlog[y.len() + p] == b.last()[p]);
            }
        }
        assert(x =~= y) by {
            assert forall|p: int| 0 <= p < x.len() implies x[p] == y[p] by {
                assert(revlog[p] == x[p]);
                assert(revlog[p] == y[p]);
            }
        }
        lemma_split_unique(a.drop_last(), b.drop_last(), x);
        assert(a =~= a.drop_last().push(a.last()));
        assert(b =~= b.drop_last().push(b.last()));
    }
}

/// Where the entries of a part stand in the review log.
pub proof fn lemma_part_stands_at(parts: Seq<Seq<RevlogEntry>>, i: int, p: int)
    requires
        0 <= i < parts.len(),
        0 <= p < parts[i].len(),
    ensures
        ({
            let at = joined_parts(parts.take(i)).len() + p;
            &&& at < joined_parts(parts.take(i + 1)).len() <= joined_parts(parts).len()
            &&& joined_parts(parts)[at] == parts[i][p]
        }),
    decreases parts.len(),
{
    let fewer = parts.drop_last();
    if i == parts.len() - 1 {
        assert(parts.take(i) =~= fewer);
        assert(parts.take(i + 1) =~= parts);
    } else {
        lemma_part_stands_at(fewer, i, p);
        assert(fewer.take(i) =~= parts.take(i));
        assert(fewer.take(i + 1) =~= parts.take(i + 1));
    }
}

/// Earlier parts stand earlier.
proof fn lemma_parts_in_order(parts: Seq<Seq<RevlogEntry>>, i: int, j: int)
    requires
        0 <= i <= j <= parts.len(),
    ensures
        joined_parts(parts.take(i)).len() <= joined_parts(parts.take(j)).len(),
    decreases j,
{
    if i < j {
        lemma_parts_in_order(parts, i, j - 1);
        assert(parts.take(j).drop_last() =~= parts.take(j - 1));
    }
}

/// Where the entries of each card stand next to each other, the parts are of different cards.
proof fn lemma_adjacent_parts(parts: Seq<Seq<RevlogEntry>>, revlog: Seq<RevlogEntry>)
    requires
        is_split(parts, revlog),
        is_adjacent(revlog),
    ensures
        forall|i: int, j: int|
            0 <= i < j < parts.len() ==> (#[trigger] parts[i])[0].cid != (
            #[trigger] parts[j])[0].cid,
{
    assert forall|i: int, j: int| 0 <= i < j < parts.len() implies (#[trigger] parts[i])[0].cid != (
    #[trigger] parts[j])[0].cid by {
        assert(parts[i][0].cid != parts[i + 1][0].cid);
        if j > i + 1 && parts[i][0].cid == parts[j][0].cid {
            assert(is_part(parts[i]));
            assert(is_part(parts[i + 1]));
            assert(is_part(parts[j]));
            lemma_part_stands_at(parts, i, 0);
            lemma_part_stands_at(parts, i + 1, 0);
            lemma_part_stands_at(parts, j, 0);
            lemma_parts_in_order(parts, i + 2, j);
            let a: int = joined_parts(parts.take(i)).len() as int;
            let b: int = joined_parts(parts.take(i + 1)).len() as int;
            let c: int = joined_parts(parts.take(j)).len() as int;
            assert(a < b < c);
            assert(revlog[a].cid == revlog[c].cid);
            assert(revlog[b].cid == revlog[a].cid);
        }
    }
}

/// Every entry of the review log is in a part.
proof fn lemma_entry_in_part(parts: Seq<Seq<RevlogEntry>>, e: RevlogEntry) -> (at: (int, int))
    requires
        joined_parts(parts).contains(e),
    ensures
        0 <= at.0 < parts.len(),
        0 <= at.1 < parts[at.0].len(),
        parts[at.0][at.1] == e,
    decreases parts.len(),
{
    let fewer = parts.drop_last();
    let rest = joined_parts(fewer);
    let k: int = choose|k: int| 0 <= k < joined_parts(parts).len() && joined_parts(parts)[k] == e;
    if k < rest.len() {
        assert(rest[k] == e);
        let at = lemma_entry_in_part(fewer, e);
        assert(parts[at.0] == fewer[at.0]);
        at
    } else {
        (parts.len() - 1, k - rest.len())
    }
}

/// Where the entries of each card stand next to each other, each card has one log, so that there
/// are as many logs as cards.
pub proof fn law_adjacent_entries_make_one_log(logs: Seq<CardLog>, revlog: Seq<RevlogEntry>)
    requires
        is_split_by_card(logs, revlog),
        is_adjacent(revlog),
    ensures
        forall|i: int, j: int|
            0 <= i < j < logs.len() ==> (#[trigger] logs[i]).cid != (#[trigger] logs[j]).cid,
        cards_of(revlog).len() == logs.len(),
{
    lemma_logs_are_parts(logs, revlog);
    let parts = parts_of(logs);
    lemma_adjacent_parts(parts, revlog);
    assert forall|i: int, j: int| 0 <= i < j < logs.len() implies (#[trigger] logs[i]).cid != (
    #[trigger] logs[j]).cid by {
        assert(parts[i][0].cid != parts[j][0].cid);
    }
    let cids = Seq::new(logs.len(), |i: int| logs[i].cid);
    let all = revlog.map_values(|e: RevlogEntry| e.cid);
    assert(cids.no_duplicates()) by {
        assert forall|i: int, j: int| 0 <= i < cids.len() && 0 <= j < cids.len() && i != j implies cids[i]
            != cids[j] by {
            if i < j {
                assert(logs[i].cid != logs[j].cid);
            } else {
                assert(logs[j].cid != logs[i].cid);
            }
        }
    }
    cids.unique_seq_to_set();
    assert forall|c: CardId| #[trigger] cids.to_set().contains(c) <==> all.to_set().contains(c) by {
        if cids.contains(c) {
            let i: int = choose|i: int| 0 <= i < cids.len() && cids[i] == c;
            assert(is_part(parts[i]));
            lemma_part_stands_at(parts, i, 0);
            let at: int = joined_parts(parts.take(i)).len() as int;
            assert(all[at] == c);
        }
        if all.contains(c) {
            let k: int = choose|k: int| 0 <= k < all.len() && all[k] == c;
            assert(revlog.contains(revlog[k]));
            let at = lemma_entry_in_part(parts, revlog[k]);
            assert(is_part(parts[at.0]));
            assert(parts[at.0][at.1].cid == parts[at.0][0].cid);
            assert(cids[at.0] == c);
        }
    }
    assert(cids.to_set() =~= all.to_set());
}

/// The splits of two review logs without a common card, one after the other, split the two.
pub proof fn lemma_split_of_both(
    a_parts: Seq<Seq<RevlogEntry>>,
    b_parts: Seq<Seq<RevlogEntry>>,
    a: Seq<RevlogEntry>,
    b: Seq<RevlogEntry>,
)
    requires
        is_split(a_parts, a),
        is_split(b_parts, b),
        forall|i: int, j: int|
            0 <= i < a.len() && 0 <= j < b.len() ==> (#[trigger] a[i]).cid != (#[trigger] b[j]).cid,
    ensures
        is_split(a_parts + b_parts, a + b),
{
    let parts = a_parts + b_parts;
    lemma_joined_both(a_parts, b_parts);
    assert forall|i: int| 0 <= i < parts.len() implies is_part(#[trigger] parts[i]) by {
        if i < a_parts.len() {
            assert(is_part(a_parts[i]));
        } else {
            assert(is_part(b_parts[i - a_parts.len()]));
        }
    }
    assert forall|i: int, j: int| 0 <= i && j == i + 1 && j < parts.len() implies (
    #[trigger] parts[i])[0].cid != (#[trigger] parts[j])[0].cid by {
        let n: int = a_parts.len() as int;
        if j < n {
            assert(a_parts[i][0].cid != a_parts[j][0].cid);
        } else if i >= n {
            assert(b_parts[i - n][0].cid != b_parts[j - n][0].cid);
        } else {
            assert(is_part(a_parts[i]));
            assert(is_part(b_parts[0]));
            lemma_part_stands_at(a_parts, i, 0);
            lemma_part_stands_at(b_parts, 0, 0);
            let x: int = joined_parts(a_parts.take(i)).len() as int;
            let y: int = joined_parts(b_parts.take(0)).len() as int;
            assert(a[x].cid != b[y].cid);
        }
    }
}

proof fn lemma_joined_both(a: Seq<Seq<RevlogEntry>>, b: Seq<Seq<RevlogEntry>>)
    ensures
        joined_parts(a + b) == joined_parts(a) + joined_parts(b),
    decreases b.len(),
{
    if b.len() == 0 {
        assert(a + b =~= a);
        assert(joined_parts(a) + joined_parts(b) =~= joined_parts(a));
    } else {
        lemma_joined_both(a, b.drop_last());
        assert((a + b).drop_last() =~= a + b.drop_last());
        assert(joined_parts(a + b) =~= joined_parts(a) + joined_parts(b));
    }
}

} // verus!
