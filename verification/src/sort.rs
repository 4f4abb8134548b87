//! Stable sorting of entries by LSN.

use vstd::prelude::*;

use crate::entry::PendingEntry;
use crate::lsn::LSN;

verus! {

/// Whether `entries` are in LSN order.
pub open spec fn sorted_by_lsn(entries: Seq<PendingEntry>) -> bool {
    forall|i: int, j: int| 0 <= i <= j < entries.len() ==> entries[i].lsn.0 <= entries[j].lsn.0
}

/// The entries with a given LSN, in their order.
pub open spec fn with_lsn(entries: Seq<PendingEntry>, lsn: LSN) -> Seq<PendingEntry> {
    entries.filter(|e: PendingEntry| e.lsn == lsn)
}

/// Whether `sorted` is what a stable sort by LSN makes of `entries`: in LSN
/// order, with the entries of each LSN in the order that they had.
pub open spec fn is_stable_sort(sorted: Seq<PendingEntry>, entries: Seq<PendingEntry>) -> bool {
    &&& sorted_by_lsn(sorted)
    &&& sorted.len() == entries.len()
    &&& forall|lsn: LSN| #[trigger] with_lsn(sorted, lsn) == with_lsn(entries, lsn)
}

pub proof fn lemma_with_lsn_add(a: Seq<PendingEntry>, b: Seq<PendingEntry>, lsn: LSN)
    ensures
        with_lsn(a + b, lsn) == with_lsn(a, lsn) + with_lsn(b, lsn),
{
    Seq::filter_distributes_over_add(a, b, |e: PendingEntry| e.lsn == lsn);
}

pub proof fn lemma_with_lsn_one(e: PendingEntry, lsn: LSN)
    ensures
        with_lsn(seq![e], lsn) == if e.lsn == lsn {
            seq![e]
        } else {
            Seq::empty()
        },
{
    let none = Seq::<PendingEntry>::empty();
    lemma_with_lsn_none(none, lsn);
    none.lemma_filter_push(e, |x: PendingEntry| x.lsn == lsn);
    assert(none.push(e) =~= seq![e]);
}

pub proof fn lemma_with_lsn_none(s: Seq<PendingEntry>, lsn: LSN)
    requires
        forall|i: int| 0 <= i < s.len() ==> s[i].lsn != lsn,
    ensures
        with_lsn(s, lsn) == Seq::<PendingEntry>::empty(),
{
    s.lemma_all_neg_filter_empty(|e: PendingEntry| e.lsn == lsn);
    assert(with_lsn(s, lsn) =~= Seq::<PendingEntry>::empty());
}

/// Whether `out` holds everything that has left `l0` and `r0`, on the way from
/// there to `l` and `r`.
spec fn merging(
    l0: Seq<PendingEntry>,
    r0: Seq<PendingEntry>,
    l: Seq<PendingEntry>,
    r: Seq<PendingEntry>,
    out: Seq<PendingEntry>,
) -> bool {
    &&& sorted_by_lsn(l)
    &&& sorted_by_lsn(r)
    &&& sorted_by_lsn(out)
    &&& l.len() + r.len() + out.len() == l0.len() + r0.len()
    &&& forall|i: int, j: int|
        #![trigger l[i], out[j]]
        0 <= i < l.len() && 0 <= j < out.len() ==> l[i].lsn.0 <= out[j].lsn.0
    &&& forall|i: int, j: int|
        #![trigger r[i], out[j]]
        0 <= i < r.len() && 0 <= j < out.len() ==> r[i].lsn.0 <= out[j].lsn.0
    &&& forall|lsn: LSN| #[trigger]
        with_lsn(l, lsn) + with_lsn(r, lsn) + with_lsn(out, lsn) == with_lsn(l0, lsn) + with_lsn(
            r0,
            lsn,
        )
}

proof fn lemma_take_right(
    l0: Seq<PendingEntry>,
    r0: Seq<PendingEntry>,
    l: Seq<PendingEntry>,
    r: Seq<PendingEntry>,
    out: Seq<PendingEntry>,
)
    requires
        merging(l0, r0, l, r, out),
        r.len() > 0,
        l.len() > 0 ==> l.last().lsn.0 <= r.last().lsn.0,
    ensures
        merging(l0, r0, l, r.drop_last(), seq![r.last()] + out),
{
    let e = r.last();
    assert forall|lsn: LSN| #[trigger]
        with_lsn(l, lsn) + with_lsn(r.drop_last(), lsn) + with_lsn(seq![e] + out, lsn) == with_lsn(
            l0,
            lsn,
        ) + with_lsn(r0, lsn) by {
        lemma_with_lsn_add(seq![e], out, lsn);
        lemma_with_lsn_one(e, lsn);
        lemma_with_lsn_add(r.drop_last(), seq![e], lsn);
        assert(r.drop_last() + seq![e] =~= r);
        assert(with_lsn(l, lsn) + with_lsn(r.drop_last(), lsn) + with_lsn(seq![e] + out, lsn)
            =~= with_lsn(l, lsn) + with_lsn(r, lsn) + with_lsn(out, lsn));
    }
}

proof fn lemma_take_left(
    l0: Seq<PendingEntry>,
    r0: Seq<PendingEntry>,
    l: Seq<PendingEntry>,
    r: Seq<PendingEntry>,
    out: Seq<PendingEntry>,
)
    requires
        merging(l0, r0, l, r, out),
        l.len() > 0,
        r.len() > 0 ==> r.last().lsn.0 < l.last().lsn.0,
    ensures
        merging(l0, r0, l.drop_last(), r, seq![l.last()] + out),
{
    let e = l.last();
    assert forall|lsn: LSN| #[trigger]
        with_lsn(l.drop_last(), lsn) + with_lsn(r, lsn) + with_lsn(seq![e] + out, lsn) == with_lsn(
            l0,
            lsn,
        ) + with_lsn(r0, lsn) by {
        lemma_with_lsn_add(seq![e], out, lsn);
        lemma_with_lsn_one(e, lsn);
        lemma_with_lsn_add(l.drop_last(), seq![e], lsn);
        assert(l.drop_last() + seq![e] =~= l);
        if e.lsn == lsn {
            lemma_with_lsn_none(r, lsn);
        }
        assert(with_lsn(l.drop_last(), lsn) + with_lsn(r, lsn) + with_lsn(seq![e] + out, lsn)
            =~= with_lsn(l, lsn) + with_lsn(r, lsn) + with_lsn(out, lsn));
    }
}

/// Reverse a vector.
fn reversed(entries: Vec<PendingEntry>) -> (result: Vec<PendingEntry>)
    ensures
        result@ == entries@.reverse(),
{
    let mut rest = entries;
    let mut result: Vec<PendingEntry> = Vec::with_capacity(rest.len());
    while rest.len() > 0
        invariant
            result@ + rest@.reverse() =~= entries@.reverse(),
        decreases rest.len(),
    {
        match rest.pop() {
            Some(entry) => result.push(entry),
            None => {},
        }
    }
    result
}

/// Merge two sorted runs; on equal LSNs the left run comes first.
fn merge(left: Vec<PendingEntry>, right: Vec<PendingEntry>) -> (merged: Vec<PendingEntry>)
    requires
        sorted_by_lsn(left@),
        sorted_by_lsn(right@),
    ensures
        is_stable_sort(merged@, left@ + right@),
{
    let ghost l0 = left@;
    let ghost r0 = right@;
    let mut left = left;
    let mut right = right;
    let mut back: Vec<PendingEntry> = Vec::new();
    let ghost mut out: Seq<PendingEntry> = Seq::empty();
    proof {
        assert(back@.reverse() =~= out);
        assert forall|lsn: LSN| #[trigger]
            with_lsn(left@, lsn) + with_lsn(right@, lsn) + with_lsn(out, lsn) == with_lsn(l0, lsn)
                + with_lsn(r0, lsn) by {
            lemma_with_lsn_none(out, lsn);
            assert(with_lsn(left@, lsn) + with_lsn(right@, lsn) + with_lsn(out, lsn) =~= with_lsn(
                l0,
                lsn,
            ) + with_lsn(r0, lsn));
        }
    }
    while left.len() > 0 || right.len() > 0
        invariant
            merging(l0, r0, left@, right@, out),
            back@.reverse() == out,
        decreases left.len() + right.len(),
    {
        let from_right: bool = if left.len() == 0 {
            true
        } else if right.len() == 0 {
            false
        } else {
            left[left.len() - 1].lsn.0 <= right[right.len() - 1].lsn.0
        };
        let ghost before = back@;
        let taken = if from_right {
            proof {
                lemma_take_right(l0, r0, left@, right@, out);
            }
            right.pop()
        } else {
            proof {
                lemma_take_left(l0, r0, left@, right@, out);
            }
            left.pop()
        };
        match taken {
            Some(entry) => {
                back.push(entry);
                proof {
                    assert(before.push(entry).reverse() =~= seq![entry] + before.reverse());
                    out = seq![entry] + out;
                }
            },
            None => {},
        }
    }
    proof {
        assert forall|lsn: LSN| #[trigger] with_lsn(out, lsn) == with_lsn(l0 + r0, lsn) by {
            lemma_with_lsn_add(l0, r0, lsn);
            lemma_with_lsn_none(left@, lsn);
            lemma_with_lsn_none(right@, lsn);
            assert(with_lsn(left@, lsn) + with_lsn(right@, lsn) + with_lsn(out, lsn) =~= with_lsn(
                out,
                lsn,
            ));
        }
    }
    reversed(back)
}

/// Sort entries by LSN. The sort is stable.
pub fn sort_by_lsn(entries: Vec<PendingEntry>) -> (sorted: Vec<PendingEntry>)
    ensures
        is_stable_sort(sorted@, entries@),
    decreases entries.len(),
{
    if entries.len() <= 1 {
        return entries;
    }
    let ghost all = entries@;
    let mut left = entries;
    let half: usize = left.len() / 2;
    let right = left.split_off(half);
    assert(left@ + right@ =~= all);
    let ghost (l0, r0) = (left@, right@);
    let left = sort_by_lsn(left);
    let right = sort_by_lsn(right);
    let ghost (l1, r1) = (left@, right@);
    let merged = merge(left, right);
    proof {
        assert forall|lsn: LSN| #[trigger] with_lsn(merged@, lsn) == with_lsn(all, lsn) by {
            lemma_with_lsn_add(l0, r0, lsn);
            lemma_with_lsn_add(l1, r1, lsn);
            assert(with_lsn(l1, lsn) == with_lsn(l0, lsn));
            assert(with_lsn(r1, lsn) == with_lsn(r0, lsn));
        }
    }
    merged
}

/// A stable sort keeps every entry: what is in one is in the other.
pub proof fn lemma_sort_keeps_entries(
    sorted: Seq<PendingEntry>,
    entries: Seq<PendingEntry>,
    entry: PendingEntry,
)
    requires
        is_stable_sort(sorted, entries),
    ensures
        sorted.contains(entry) <==> entries.contains(entry),
{
    let pred = |e: PendingEntry| e.lsn == entry.lsn;
    assert(with_lsn(sorted, entry.lsn) == with_lsn(entries, entry.lsn));
    if sorted.contains(entry) {
        let i = choose|i: int| 0 <= i < sorted.len() && sorted[i] == entry;
        sorted.lemma_filter_contains(pred, i);
        entries.lemma_filter_contains_rev(pred, entry);
    }
    if entries.contains(entry) {
        let i = choose|i: int| 0 <= i < entries.len() && entries[i] == entry;
        entries.lemma_filter_contains(pred, i);
        sorted.lemma_filter_contains_rev(pred, entry);
    }
}

/// How often an entry occurs is told by the entries with its LSN.
proof fn lemma_count_by_lsn(entries: Seq<PendingEntry>, entry: PendingEntry)
    ensures
        entries.to_multiset().count(entry) == with_lsn(entries, entry.lsn).to_multiset().count(
            entry,
        ),
    decreases entries.len(),
{
    broadcast use vstd::seq_lib::group_to_multiset_ensures;
    broadcast use vstd::multiset::group_multiset_axioms;

    let pred = |e: PendingEntry| e.lsn == entry.lsn;
    if entries.len() == 0 {
        lemma_with_lsn_none(entries, entry.lsn);
        assert(entries =~= Seq::empty());
    } else {
        let init = entries.drop_last();
        lemma_count_by_lsn(init, entry);
        assert(entries =~= init.push(entries.last()));
        init.lemma_filter_push(entries.last(), pred);
    }
}

/// A sort hands out exactly what it was given: each entry as often as before.
pub proof fn lemma_sort_is_a_permutation(sorted: Seq<PendingEntry>, entries: Seq<PendingEntry>)
    requires
        is_stable_sort(sorted, entries),
    ensures
        sorted.to_multiset() == entries.to_multiset(),
{
    assert forall|entry: PendingEntry| sorted.to_multiset().count(entry)
        == entries.to_multiset().count(entry) by {
        lemma_count_by_lsn(sorted, entry);
        lemma_count_by_lsn(entries, entry);
        assert(with_lsn(sorted, entry.lsn) == with_lsn(entries, entry.lsn));
    }
    assert(sorted.to_multiset() =~= entries.to_multiset());
}

/// An entry is among those with its LSN.
pub proof fn lemma_with_lsn_at(entries: Seq<PendingEntry>, i: int)
    requires
        0 <= i < entries.len(),
    ensures
        with_lsn(entries, entries[i].lsn).len() > 0,
{
    entries.lemma_filter_contains(|e: PendingEntry| e.lsn == entries[i].lsn, i);
}

/// Two entries with one LSN are both among those with that LSN.
pub proof fn lemma_with_lsn_twice(entries: Seq<PendingEntry>, i: int, j: int)
    requires
        0 <= i < j < entries.len(),
        entries[i].lsn == entries[j].lsn,
    ensures
        with_lsn(entries, entries[i].lsn).len() > 1,
{
    let front = entries.take(j);
    let back = entries.skip(j);
    assert(entries =~= front + back);
    lemma_with_lsn_add(front, back, entries[i].lsn);
    lemma_with_lsn_at(front, i);
    lemma_with_lsn_at(back, 0);
}

/// Where LSNs increase, each occurs once.
pub proof fn lemma_with_lsn_once(entries: Seq<PendingEntry>, lsn: LSN)
    requires
        forall|i: int, j: int|
            0 <= i < j < entries.len() ==> entries[i].lsn.0 < entries[j].lsn.0,
    ensures
        with_lsn(entries, lsn).len() == if exists|i: int|
            0 <= i < entries.len() && (#[trigger] entries[i]).lsn == lsn {
            1nat
        } else {
            0nat
        },
    decreases entries.len(),
{
    if entries.len() == 0 {
        lemma_with_lsn_none(entries, lsn);
    } else {
        let init = entries.drop_last();
        let last = entries.last();
        lemma_with_lsn_once(init, lsn);
        assert(entries =~= init.push(last));
        init.lemma_filter_push(last, |e: PendingEntry| e.lsn == lsn);
        assert(entries[entries.len() - 1] == last);
        if exists|i: int| 0 <= i < init.len() && (#[trigger] init[i]).lsn == lsn {
            let i = choose|i: int| 0 <= i < init.len() && (#[trigger] init[i]).lsn == lsn;
            assert(entries[i].lsn.0 < entries[entries.len() - 1].lsn.0);
        } else if last.lsn != lsn {
            assert forall|i: int| 0 <= i < entries.len() implies (#[trigger] entries[i]).lsn
                != lsn by {
                if i < init.len() {
                    assert(init[i].lsn != lsn);
                }
            }
        }
    }
}

} // verus!
