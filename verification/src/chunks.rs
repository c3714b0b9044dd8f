//! Splitting a sequence into consecutive groups of a fixed size.
//!
//! Batching identifiers into messages, messages into batch-send calls and
//! calls into waves all follow this one rule: full groups in input order,
//! then one shorter group when the input does not divide evenly.

use vstd::prelude::*;

verus! {

/// How many groups of at most `size` members cover `len` members.
pub open spec fn chunk_count(len: nat, size: nat) -> nat
    recommends
        size > 0,
{
    ((len + size - 1) / (size as int)) as nat
}

/// The `k`-th group of `items`: the members from position `k * size` up to
/// the next multiple of `size`, or to the end where that comes first.
pub open spec fn chunk<T>(items: Seq<T>, size: nat, k: int) -> Seq<T>
    recommends
        size > 0,
        0 <= k < chunk_count(items.len(), size),
{
    let start = k * size;
    let end = if start + size <= items.len() {
        start + size
    } else {
        items.len() as int
    };
    items.subrange(start, end)
}

/// All groups of `items`, in order.
pub open spec fn chunks<T>(items: Seq<T>, size: nat) -> Seq<Seq<T>>
    recommends
        size > 0,
{
    Seq::new(chunk_count(items.len(), size), |k: int| chunk(items, size, k))
}

/// The group count is the ceiling of `len / size`: it is the one number of
/// groups that covers every member without an empty last group.
pub proof fn lemma_chunk_count_is_ceiling(len: nat, size: nat)
    requires
        size > 0,
    ensures
        (chunk_count(len, size) - 1) * size < len <= chunk_count(len, size) * size,
        len == 0 <==> chunk_count(len, size) == 0,
        len > 0 && len <= size ==> chunk_count(len, size) == 1,
{
    let total: int = len + size - 1;
    let divisor: int = size as int;
    assert(total == divisor * (total / divisor) + total % divisor && 0 <= total % divisor
        < divisor) by (nonlinear_arith)
        requires
            divisor > 0,
    ;
    assert(total >= 0 ==> total / divisor >= 0) by (nonlinear_arith)
        requires
            divisor > 0,
    ;
    let count: int = total / divisor;
    assert(count == chunk_count(len, size));
    assert((count - 1) * divisor == count * divisor - divisor) by (nonlinear_arith);
    if len > 0 && len <= size {
        assert(count == 1) by (nonlinear_arith)
            requires
                (count - 1) * divisor < len <= count * divisor,
                0 < len <= divisor,
        ;
    }
    if len == 0 {
        assert(count == 0) by (nonlinear_arith)
            requires
                (count - 1) * divisor < 0 <= count * divisor,
                divisor > 0,
        ;
    }
}

/// Every group starts inside the sequence.
pub proof fn lemma_chunk_start_in_range(len: nat, size: nat, k: int)
    requires
        size > 0,
        0 <= k < chunk_count(len, size),
    ensures
        0 <= k * size < len,
{
    lemma_chunk_count_is_ceiling(len, size);
    let count: int = chunk_count(len, size) as int;
    let divisor: int = size as int;
    assert(0 <= k * divisor <= (count - 1) * divisor) by (nonlinear_arith)
        requires
            0 <= k <= count - 1,
            divisor > 0,
    ;
}

/// No group is empty and none holds more than `size` members; all but the
/// last hold exactly `size`.
pub proof fn lemma_chunk_len<T>(items: Seq<T>, size: nat, k: int)
    requires
        size > 0,
        0 <= k < chunk_count(items.len(), size),
    ensures
        1 <= chunk(items, size, k).len() <= size,
        k + 1 < chunk_count(items.len(), size) ==> chunk(items, size, k).len() == size,
        k + 1 == chunk_count(items.len(), size) ==> chunk(items, size, k).len() == items.len() - k
            * size,
{
    lemma_chunk_start_in_range(items.len(), size, k);
    lemma_chunk_count_is_ceiling(items.len(), size);
    let count: int = chunk_count(items.len(), size) as int;
    let divisor: int = size as int;
    if k + 1 < count {
        lemma_chunk_start_in_range(items.len(), size, k + 1);
        assert((k + 1) * divisor == k * divisor + divisor) by (nonlinear_arith);
    } else {
        assert((count - 1) * divisor == count * divisor - divisor) by (nonlinear_arith);
    }
}

/// The groups cover the first `upto` of them without gap or overlap: joined
/// in order they give back the prefix of the input that they were cut from.
proof fn lemma_chunks_prefix<T>(items: Seq<T>, size: nat, upto: int)
    requires
        size > 0,
        0 <= upto <= chunk_count(items.len(), size),
    ensures
        chunks(items, size).take(upto).flatten() =~= items.take(
            if upto * size <= items.len() {
                upto * size
            } else {
                items.len() as int
            },
        ),
    decreases upto,
{
    let all = chunks(items, size);
    let divisor: int = size as int;
    if upto == 0 {
    } else {
        lemma_chunks_prefix(items, size, upto - 1);
        lemma_chunk_start_in_range(items.len(), size, upto - 1);
        assert((upto - 1) * divisor + divisor == upto * divisor) by (nonlinear_arith);
        assert(all.take(upto) =~= all.take(upto - 1).push(chunk(items, size, upto - 1)));
        all.take(upto - 1).lemma_flatten_push(chunk(items, size, upto - 1));
    }
}

/// Joined in order, the groups give back the input: nothing is lost,
/// repeated or moved.
pub proof fn lemma_chunks_flatten<T>(items: Seq<T>, size: nat)
    requires
        size > 0,
    ensures
        chunks(items, size).flatten() == items,
{
    let count: int = chunk_count(items.len(), size) as int;
    lemma_chunks_prefix(items, size, count);
    lemma_chunk_count_is_ceiling(items.len(), size);
    assert(chunks(items, size).take(count) =~= chunks(items, size));
}

/// How a count of `full` groups of `size` and `rest` further members, fewer
/// than `size`, relates to the group count of their total.
proof fn lemma_chunk_count_of_parts(full: nat, rest: nat, size: nat)
    requires
        size > 0,
        rest < size,
    ensures
        chunk_count((full * size + rest) as nat, size) == if rest == 0 {
            full
        } else {
            full + 1
        },
{
    let len: nat = (full * size + rest) as nat;
    lemma_chunk_count_is_ceiling(len, size);
    let count: int = chunk_count(len, size) as int;
    let divisor: int = size as int;
    let whole: int = full as int;
    let part: int = rest as int;
    assert(count == if part == 0 {
        whole
    } else {
        whole + 1
    }) by (nonlinear_arith)
        requires
            (count - 1) * divisor < whole * divisor + part <= count * divisor,
            0 <= part < divisor,
    ;
}

/// Splits `items` into consecutive groups of `size`, the last one shorter
/// where the length is no multiple of `size`. Order is kept and no group
/// is empty.
pub(crate) fn chunked<T>(items: Vec<T>, size: usize) -> (groups: Vec<Vec<T>>)
    requires
        size > 0,
    ensures
        groups.len() == chunk_count(items@.len(), size as nat),
        forall|k: int|
            0 <= k < groups.len() ==> (#[trigger] groups[k])@ == chunk(items@, size as nat, k),
{
    let ghost all: Seq<T> = items@;
    let mut groups: Vec<Vec<T>> = Vec::new();
    let mut current: Vec<T> = Vec::new();
    proof {
        assert(groups.len() * size == 0) by (nonlinear_arith)
            requires
                groups.len() == 0,
        ;
    }
    for item in it: items
        invariant
            size > 0,
            it.seq() == all,
            current.len() < size,
            groups.len() * size + current.len() == it.index(),
            current@ == all.subrange(groups.len() * size, it.index() as int),
            forall|k: int|
                0 <= k < groups.len() ==> (#[trigger] groups[k])@ == all.subrange(
                    k * size,
                    k * size + size,
                ),
    {
        current.push(item);
        if current.len() == size {
            proof {
                assert((groups.len() + 1) * size == groups.len() * size + size)
                    by (nonlinear_arith);
            }
            groups.push(current);
            current = Vec::new();
        }
    }
    proof {
        lemma_chunk_count_of_parts(groups.len() as nat, current.len() as nat, size as nat);
    }
    let ghost full: int = groups.len() as int;
    if current.len() > 0 {
        groups.push(current);
    }
    proof {
        assert forall|k: int| 0 <= k < groups.len() implies (#[trigger] groups[k])@ == chunk(
            all,
            size as nat,
            k,
        ) by {
            if k < full {
                assert(k * size + size <= full * size) by (nonlinear_arith)
                    requires
                        0 <= k < full,
                        size > 0,
                ;
            }
        }
    }
    groups
}

} // verus!
