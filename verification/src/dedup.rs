//! Ordering and de-duplicating identifiers by their own value.
//!
//! Each identifier is written to the slot of a table whose position is the
//! identifier itself; reading the table back from the start then yields
//! every identifier once, in ascending order. The table is as long as the
//! largest identifier seen, however few identifiers there are.

use vstd::prelude::*;

verus! {

/// Each member is smaller than every later one.
pub open spec fn strictly_ascending(ids: Seq<u32>) -> bool {
    forall|i: int, j: int| 0 <= i < j < ids.len() ==> ids[i] < ids[j]
}

/// The identifiers of `ids`, each once, in ascending order.
pub open spec fn is_sorted_unique_of(out: Seq<u32>, ids: Seq<u32>) -> bool {
    &&& strictly_ascending(out)
    &&& out.to_set() == ids.to_set()
}

/// The ascending, duplicate-free arrangement of the members of `ids`.
pub open spec fn ordered(ids: Seq<u32>) -> Seq<u32> {
    choose|out: Seq<u32>| is_sorted_unique_of(out, ids)
}

/// Only one sequence is the ascending, duplicate-free arrangement of a
/// given sequence's members.
pub proof fn lemma_sorted_unique_is_determined(a: Seq<u32>, b: Seq<u32>, ids: Seq<u32>)
    requires
        is_sorted_unique_of(a, ids),
        is_sorted_unique_of(b, ids),
    ensures
        a == b,
    decreases a.len(),
{
    if a.len() == 0 {
        if b.len() > 0 {
            assert(b.to_set().contains(b[0]));
        }
        assert(a =~= b);
    } else {
        let top: u32 = a.last();
        assert(a.to_set().contains(top));
        assert(b.contains(top));
        let at: int = choose|at: int| 0 <= at < b.len() && b[at] == top;
        if at + 1 < b.len() {
            assert(b.to_set().contains(b[at + 1]));
            assert(a.contains(b[at + 1]));
        }
        assert forall|x: u32| a.drop_last().contains(x) <==> b.drop_last().contains(x) by {
            if a.drop_last().contains(x) {
                let i: int = choose|i: int| 0 <= i < a.len() - 1 && a.drop_last()[i] == x;
                assert(a[i] == x);
                assert(a.to_set().contains(x));
                assert(b.contains(x));
                let j: int = choose|j: int| 0 <= j < b.len() && b[j] == x;
                assert(b.drop_last()[j] == x);
            }
            if b.drop_last().contains(x) {
                let i: int = choose|i: int| 0 <= i < b.len() - 1 && b.drop_last()[i] == x;
                assert(b[i] == x);
                assert(b.to_set().contains(x));
                let j: int = choose|j: int| 0 <= j < a.len() && a[j] == x;
                assert(a.drop_last()[j] == x);
            }
        }
        assert(a.drop_last().to_set() =~= b.drop_last().to_set());
        lemma_sorted_unique_is_determined(a.drop_last(), b.drop_last(), a.drop_last());
        assert(a =~= a.drop_last().push(top));
    }
}

/// An ascending, duplicate-free sequence stays one when a further value is
/// put in at its place, or left out because it is there already.
proof fn lemma_insert_ascending(sorted: Seq<u32>, value: u32) -> (grown: Seq<u32>)
    requires
        strictly_ascending(sorted),
    ensures
        strictly_ascending(grown),
        grown.to_set() == sorted.to_set().insert(value),
    decreases sorted.len(),
{
    if sorted.len() == 0 {
        let grown = seq![value];
        assert(grown.to_set() =~= sorted.to_set().insert(value)) by {
            assert(grown[0] == value);
        }
        grown
    } else if sorted.last() < value {
        sorted.lemma_push_to_set_commute(value);
        sorted.push(value)
    } else if sorted.last() == value {
        assert(sorted.to_set().contains(value));
        assert(sorted.to_set() =~= sorted.to_set().insert(value));
        sorted
    } else {
        let head = sorted.drop_last();
        let top = sorted.last();
        assert(sorted =~= head.push(top));
        let below = lemma_insert_ascending(head, value);
        let grown = below.push(top);
        assert forall|i: int, j: int| 0 <= i < j < grown.len() implies grown[i] < grown[j] by {
            if j == below.len() {
                assert(below.to_set().contains(below[i]));
                if below[i] != value {
                    assert(head.contains(below[i]));
                    let at = choose|at: int| 0 <= at < head.len() && head[at] == below[i];
                    assert(sorted[at] == below[i]);
                }
            }
        }
        below.lemma_push_to_set_commute(top);
        head.lemma_push_to_set_commute(top);
        assert(grown.to_set() =~= sorted.to_set().insert(value));
        grown
    }
}

/// Every sequence has an ascending, duplicate-free arrangement of its
/// members, and `ordered` is that arrangement.
pub proof fn lemma_ordered_is_sorted_unique(ids: Seq<u32>)
    ensures
        is_sorted_unique_of(ordered(ids), ids),
    decreases ids.len(),
{
    if ids.len() == 0 {
        let none = Seq::<u32>::empty();
        assert(none.to_set() =~= ids.to_set());
        assert(is_sorted_unique_of(none, ids));
    } else {
        let head = ids.drop_last();
        lemma_ordered_is_sorted_unique(head);
        let grown = lemma_insert_ascending(ordered(head), ids.last());
        assert(ids =~= head.push(ids.last()));
        head.lemma_push_to_set_commute(ids.last());
        assert(is_sorted_unique_of(grown, ids));
    }
}

/// Grows `vec` with empty slots until position `index` exists; a table that
/// already reaches that far is left as it is.
pub fn make_sure_index_exists(vec: &mut Vec<Option<u32>>, index: usize)
    requires
        index < usize::MAX,
    ensures
        final(vec)@.len() == if index < old(vec)@.len() {
            old(vec)@.len()
        } else {
            (index + 1) as nat
        },
        final(vec)@.subrange(0, old(vec)@.len() as int) == old(vec)@,
        forall|at: int| old(vec)@.len() <= at < final(vec)@.len() ==> final(vec)@[at] is None,
{
    if index >= vec.len() {
        vec.resize(index + 1, None);
    }
}

/// What the table holds once the identifiers `seen` have been written: a
/// slot is filled only with its own position, and only where that position
/// was seen; every identifier seen has its slot filled, but for the largest
/// value of the type, which is kept apart: a table with a slot for it could
/// be longer than a table may be.
pub open spec fn table_holds(slots: Seq<Option<u32>>, seen: Seq<u32>) -> bool {
    &&& slots.len() <= u32::MAX
    &&& forall|at: int|
        0 <= at < slots.len() && (#[trigger] slots[at]) is Some ==> slots[at]->0 == at
            && seen.contains(slots[at]->0)
    &&& forall|j: int|
        0 <= j < seen.len() && (#[trigger] seen[j]) < u32::MAX ==> seen[j] < slots.len()
            && slots[seen[j] as int] == Some(seen[j])
}

/// Orders and de-duplicates `ids` through a table indexed by identifier:
/// the result holds each identifier of `ids` once, in ascending order.
pub fn sorted_unique(ids: &Vec<u32>) -> (out: Vec<u32>)
    ensures
        is_sorted_unique_of(out@, ids@),
        out@ == ordered(ids@),
{
    let mut slots: Vec<Option<u32>> = Vec::new();
    let mut top: bool = false;
    for i in 0..ids.len()
        invariant
            table_holds(slots@, ids@.take(i as int)),
            top <==> ids@.take(i as int).contains(u32::MAX),
    {
        let id: u32 = ids[i];
        let ghost seen: Seq<u32> = ids@.take(i as int);
        let ghost now: Seq<u32> = ids@.take(i + 1);
        proof {
            assert(now[i as int] == id);
            assert forall|x: u32| seen.contains(x) implies now.contains(x) by {}
        }
        if id == u32::MAX {
            top = true;
            proof {
                assert forall|j: int|
                    0 <= j < now.len() && (#[trigger] now[j]) < u32::MAX implies now[j]
                    < slots.len() && slots[now[j] as int] == Some(now[j]) by {
                    assert(seen[j] == now[j]);
                }
            }
        } else {
            let ghost before: Seq<Option<u32>> = slots@;
            make_sure_index_exists(&mut slots, id as usize);
            let ghost grown: Seq<Option<u32>> = slots@;
            slots.set(id as usize, Some(id));
            proof {
                assert forall|at: int| 0 <= at < before.len() implies grown[at] == before[at] by {
                    assert(grown.subrange(0, before.len() as int)[at] == grown[at]);
                }
                assert forall|at: int|
                    0 <= at < slots.len() && (#[trigger] slots[at]) is Some implies slots[at]->0
                    == at && now.contains(slots[at]->0) by {
                    if at != id as int {
                        assert(before[at] == slots[at]);
                    }
                }
                assert forall|j: int|
                    0 <= j < now.len() && (#[trigger] now[j]) < u32::MAX implies now[j]
                    < slots.len() && slots[now[j] as int] == Some(now[j]) by {
                    if j < i {
                        assert(seen[j] == now[j]);
                    }
                }
                if now.contains(u32::MAX) {
                    let j: int = choose|j: int| 0 <= j < now.len() && now[j] == u32::MAX;
                    assert(seen[j] == u32::MAX);
                }
            }
        }
    }
    assert(ids@.take(ids.len() as int) =~= ids@);
    let mut out: Vec<u32> = Vec::new();
    for at in 0..slots.len()
        invariant
            table_holds(slots@, ids@),
            strictly_ascending(out@),
            forall|k: int| 0 <= k < out.len() ==> (#[trigger] out[k]) < at && ids@.contains(out[k]),
            forall|j: int| 0 <= j < ids.len() && (#[trigger] ids[j]) < at ==> out@.contains(ids[j]),
    {
        let ghost collected: Seq<u32> = out@;
        match slots[at] {
            Some(id) => {
                out.push(id);
                proof {
                    assert(slots[at as int] is Some);
                    assert(out@[collected.len() as int] == id);
                    assert forall|j: int| 0 <= j < ids.len() && (#[trigger] ids[j]) < at
                        + 1 implies out@.contains(ids[j]) by {
                        if ids[j] < at {
                            let k: int = choose|k: int|
                                0 <= k < collected.len() && collected[k] == ids[j];
                            assert(out@[k] == ids[j]);
                        }
                    }
                }
            },
            None => {
                proof {
                    assert forall|j: int| 0 <= j < ids.len() && (#[trigger] ids[j]) < at
                        + 1 implies out@.contains(ids[j]) by {}
                }
            },
        }
    }
    let ghost collected: Seq<u32> = out@;
    if top {
        out.push(u32::MAX);
    }
    proof {
        assert forall|x: u32| out@.contains(x) <==> ids@.contains(x) by {
            if ids@.contains(x) {
                let j: int = choose|j: int| 0 <= j < ids.len() && ids[j] == x;
                if x < u32::MAX {
                    assert(ids[j] < slots.len());
                    let k: int = choose|k: int| 0 <= k < collected.len() && collected[k] == x;
                    assert(out@[k] == x);
                } else {
                    assert(out@[collected.len() as int] == x);
                }
            }
        }
        assert(out@.to_set() =~= ids@.to_set());
        lemma_sorted_unique_is_determined(out@, ordered(ids@), ids@);
    }
    out
}

} // verus!
