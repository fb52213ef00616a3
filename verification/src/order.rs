//! Card order: by card, and by time within a card.

use crate::revlog::RevlogEntry;
use vstd::prelude::*;

verus! {

/// Whether `a` stands before `b` in card order.
pub open spec fn card_before(a: RevlogEntry, b: RevlogEntry) -> bool {
    a.cid.0 < b.cid.0 || (a.cid.0 == b.cid.0 && a.id.0 < b.id.0)
}

pub open spec fn in_card_order(s: Seq<RevlogEntry>) -> bool {
    forall|i: int, j: int| 0 <= i < j < s.len() ==> card_before(#[trigger] s[i], #[trigger] s[j])
}

/// No two entries have the same id.
pub open spec fn ids_distinct(s: Seq<RevlogEntry>) -> bool {
    forall|i: int, j: int|
        0 <= i < j < s.len() ==> (#[trigger] s[i]).id != (#[trigger] s[j]).id
}

/// The two sequences hold the same entries.
pub open spec fn same_entries(a: Seq<RevlogEntry>, b: Seq<RevlogEntry>) -> bool {
    forall|e: RevlogEntry| #[trigger] a.contains(e) <==> b.contains(e)
}

/// `s` lists, in card order, exactly the entries of `table` that `wanted` accepts.
pub open spec fn lists_in_card_order(
    s: Seq<RevlogEntry>,
    table: Seq<RevlogEntry>,
    wanted: spec_fn(RevlogEntry) -> bool,
) -> bool {
    &&& in_card_order(s)
    &&& forall|e: RevlogEntry| #[trigger] s.contains(e) <==> table.contains(e) && wanted(e)
}

/// There is one way to put a set of entries in card order.
pub proof fn lemma_card_order_unique(a: Seq<RevlogEntry>, b: Seq<RevlogEntry>)
    requires
        in_card_order(a),
        in_card_order(b),
        same_entries(a, b),
    ensures
        a == b,
    decreases a.len(),
{
    if a.len() == 0 {
        if b.len() > 0 {
            assert(b.contains(b[0]));
            assert(a.contains(b[0]));
        }
        assert(a =~= b);
    } else {
        assert(a.contains(a.last()));
        assert(b.contains(a.last()));
        assert(b.contains(b.last()));
        assert(a.contains(b.last()));
        let i: int = choose|i: int| 0 <= i < b.len() && b[i] == a.last();
        let j: int = choose|j: int| 0 <= j < a.len() && a[j] == b.last();
        if i < b.len() - 1 {
            assert(card_before(b[i], b[b.len() - 1]));
            if j < a.len() - 1 {
                assert(card_before(a[j], a[a.len() - 1]));
            }
        }
        assert(a.last() == b.last());
        let x = a.drop_last();
        let y = b.drop_last();
        assert forall|e: RevlogEntry| #[trigger] x.contains(e) <==> y.contains(e) by {
            if x.contains(e) {
                let k: int = choose|k: int| 0 <= k < x.len() && x[k] == e;
                assert(a[k] == e);
                assert(card_before(a[k], a[a.len() - 1]));
                assert(a.contains(e));
                let m: int = choose|m: int| 0 <= m < b.len() && b[m] == e;
                assert(m != b.len() - 1);
                assert(y[m] == e);
            }
            if y.contains(e) {
                let k: int = choose|k: int| 0 <= k < y.len() && y[k] == e;
                assert(b[k] == e);
                assert(card_before(b[k], b[b.len() - 1]));
                assert(b.contains(e));
                assert(a.contains(e));
                let m: int = choose|m: int| 0 <= m < a.len() && a[m] == e;
                assert(m != a.len() - 1);
                assert(x[m] == e);
            }
        }
        lemma_card_order_unique(x, y);
        assert(a =~= x.push(a.last()));
        assert(b =~= y.push(b.last()));
    }
}

fn stands_before(a: &RevlogEntry, b: &RevlogEntry) -> (r: bool)
    ensures
        r == card_before(*a, *b),
{
    a.cid.0 < b.cid.0 || (a.cid.0 == b.cid.0 && a.id.0 < b.id.0)
}

/// Merges two runs in card order that share no id.
fn merge(a: &Vec<RevlogEntry>, b: &Vec<RevlogEntry>) -> (out: Vec<RevlogEntry>)
    requires
        in_card_order(a@),
        in_card_order(b@),
        forall|i: int, j: int|
            0 <= i < a@.len() && 0 <= j < b@.len() ==> (#[trigger] a@[i]).id != (
            #[trigger] b@[j]).id,
    ensures
        in_card_order(out@),
        forall|e: RevlogEntry|
            #[trigger] out@.contains(e) <==> a@.contains(e) || b@.contains(e),
{
    let mut out: Vec<RevlogEntry> = Vec::new();
    let mut i: usize = 0;
    let mut j: usize = 0;
    while i < a.len() || j < b.len()
        invariant
            i <= a@.len(),
            j <= b@.len(),
            in_card_order(a@),
            in_card_order(b@),
            forall|x: int, y: int|
                0 <= x < a@.len() && 0 <= y < b@.len() ==> (#[trigger] a@[x]).id != (
                #[trigger] b@[y]).id,
            in_card_order(out@),
            forall|x: int, y: int|
                0 <= x < out@.len() && i <= y < a@.len() ==> card_before(
                    #[trigger] out@[x],
                    #[trigger] a@[y],
                ),
            forall|x: int, y: int|
                0 <= x < out@.len() && j <= y < b@.len() ==> card_before(
                    #[trigger] out@[x],
                    #[trigger] b@[y],
                ),
            forall|x: int| 0 <= x < i ==> out@.contains(#[trigger] a@[x]),
            forall|y: int| 0 <= y < j ==> out@.contains(#[trigger] b@[y]),
            forall|k: int|
                0 <= k < out@.len() ==> a@.contains(#[trigger] out@[k]) || b@.contains(out@[k]),
        decreases a@.len() - i + b@.len() - j,
    {
        let ghost before = out@;
        if j >= b.len() || (i < a.len() && stands_before(&a[i], &b[j])) {
            let next = a[i];
            out.push(next);
            i = i + 1;
        } else {
            let next = b[j];
            out.push(next);
            j = j + 1;
        }
        proof {
            assert(out@[before.len() as int] == out@.last());
            assert forall|e: RevlogEntry| before.contains(e) implies #[trigger] out@.contains(e) by {
                let k: int = choose|k: int| 0 <= k < before.len() && before[k] == e;
                assert(out@[k] == e);
            }
        }
    }
    proof {
        assert forall|e: RevlogEntry|
            #[trigger] out@.contains(e) <==> a@.contains(e) || b@.contains(e) by {
            if out@.contains(e) {
                let k: int = choose|k: int| 0 <= k < out@.len() && out@[k] == e;
                assert(a@.contains(out@[k]) || b@.contains(out@[k]));
            }
        }
    }
    out
}

/// Puts entries with distinct ids in card order.
pub fn sort_by_card(v: &Vec<RevlogEntry>) -> (out: Vec<RevlogEntry>)
    requires
        ids_distinct(v@),
    ensures
        in_card_order(out@),
        same_entries(out@, v@),
{
    let out = sort_range(v, 0, v.len());
    assert(v@.subrange(0, v@.len() as int) =~= v@);
    out
}

fn sort_range(v: &Vec<RevlogEntry>, from: usize, to: usize) -> (out: Vec<RevlogEntry>)
    requires
        from <= to <= v@.len(),
        ids_distinct(v@),
    ensures
        in_card_order(out@),
        same_entries(out@, v@.subrange(from as int, to as int)),
    decreases to - from,
{
    let ghost part = v@.subrange(from as int, to as int);
    if to - from <= 1 {
        let mut out: Vec<RevlogEntry> = Vec::new();
        if from < to {
            out.push(v[from]);
        }
        assert(out@ =~= part);
        return out;
    }
    let mid: usize = from + (to - from) / 2;
    let a = sort_range(v, from, mid);
    let b = sort_range(v, mid, to);
    proof {
        let left = v@.subrange(from as int, mid as int);
        let right = v@.subrange(mid as int, to as int);
        assert forall|i: int, j: int| 0 <= i < a@.len() && 0 <= j < b@.len() implies (
        #[trigger] a@[i]).id != (#[trigger] b@[j]).id by {
            assert(a@.contains(a@[i]));
            assert(b@.contains(b@[j]));
            let x: int = choose|x: int| 0 <= x < left.len() && left[x] == a@[i];
            let y: int = choose|y: int| 0 <= y < right.len() && right[y] == b@[j];
            assert(v@[from + x].id != v@[mid + y].id);
        }
    }
    let out = merge(&a, &b);
    proof {
        let left = v@.subrange(from as int, mid as int);
        let right = v@.subrange(mid as int, to as int);
        assert forall|e: RevlogEntry| #[trigger] out@.contains(e) <==> part.contains(e) by {
            assert(a@.contains(e) <==> left.contains(e));
            assert(b@.contains(e) <==> right.contains(e));
            if left.contains(e) {
                let x: int = choose|x: int| 0 <= x < left.len() && left[x] == e;
                assert(part[x] == e);
            }
            if right.contains(e) {
                let y: int = choose|y: int| 0 <= y < right.len() && right[y] == e;
                assert(part[mid - from + y] == e);
            }
            if part.contains(e) {
                let z: int = choose|z: int| 0 <= z < part.len() && part[z] == e;
                if z < mid - from {
                    assert(left[z] == e);
                } else {
                    assert(right[z - (mid - from)] == e);
                }
            }
        }
    }
    out
}

} // verus!
