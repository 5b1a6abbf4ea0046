//! Sorting by a key.
use vstd::prelude::*;

verus! {

/// Whether index `a` comes before index `b` in the order of their keys, the
/// lower index first among equal keys.
pub open spec fn precedes(keys: Seq<i128>, a: int, b: int) -> bool {
    keys[a] < keys[b] || (keys[a] == keys[b] && a < b)
}

/// Whether `order` holds the indices of `keys`, each once, in the order of
/// their keys, equal keys in the order in which they stand.
pub open spec fn stably_orders(order: Seq<usize>, keys: Seq<i128>) -> bool {
    &&& order.len() == keys.len()
    &&& forall|k: int| 0 <= k < order.len() ==> (#[trigger] order[k]) < keys.len()
    &&& forall|i: usize| (i as int) < keys.len() ==> #[trigger] order.contains(i)
    &&& forall|a: int, b: int|
        0 <= a < b < order.len() ==> precedes(
            keys,
            #[trigger] order[a] as int,
            #[trigger] order[b] as int,
        )
}

proof fn lemma_insert_contains(s: Seq<usize>, at: int, e: usize, x: usize)
    requires
        0 <= at <= s.len(),
        s.contains(x) || x == e,
    ensures
        s.insert(at, e).contains(x),
{
    let t = s.insert(at, e);
    if x == e {
        assert(t[at] == x);
    } else {
        let k = choose|k: int| 0 <= k < s.len() && s[k] == x;
        if k < at {
            assert(t[k] == x);
        } else {
            assert(t[k + 1] == x);
        }
    }
}

/// The indices of `keys` in the order of their keys, equal keys in the order
/// in which they stand.
pub fn stable_order(keys: &Vec<i128>) -> (order: Vec<usize>)
    ensures
        stably_orders(order@, keys@),
{
    let mut order: Vec<usize> = Vec::new();
    let mut i: usize = 0;
    while i < keys.len()
        invariant
            i <= keys@.len(),
            order@.len() == i,
            forall|k: int| 0 <= k < order@.len() ==> (#[trigger] order@[k]) < i,
            forall|x: usize| x < i ==> #[trigger] order@.contains(x),
            forall|a: int, b: int|
                0 <= a < b < order@.len() ==> precedes(
                    keys@,
                    #[trigger] order@[a] as int,
                    #[trigger] order@[b] as int,
                ),
        decreases keys@.len() - i,
    {
        let key: i128 = keys[i];
        let mut at: usize = order.len();
        while at > 0 && keys[order[at - 1]] > key
            invariant
                at <= order@.len(),
                i < keys@.len(),
                order@.len() == i,
                key == keys@[i as int],
                forall|k: int| 0 <= k < order@.len() ==> (#[trigger] order@[k]) < i,
                forall|k: int| at <= k < order@.len() ==> keys@[(#[trigger] order@[k]) as int] > key,
            decreases at,
        {
            at = at - 1;
        }
        let ghost before = order@;
        order.insert(at, i);
        proof {
            let after = before.insert(at as int, i);
            assert(order@ == after);
            assert forall|x: usize| x < i + 1 implies #[trigger] order@.contains(x) by {
                assert(x < i ==> before.contains(x));
                lemma_insert_contains(before, at as int, i, x);
            }
            assert forall|a: int, b: int| 0 <= a < b < order@.len() implies precedes(
                keys@,
                #[trigger] order@[a] as int,
                #[trigger] order@[b] as int,
            ) by {
                let x = if a < at { a } else { a - 1 };
                let y = if b < at { b } else { b - 1 };
                if a != at && b != at {
                    assert(order@[a] == before[x] && order@[b] == before[y]);
                } else if b == at {
                    assert(order@[a] == before[a]);
                    if a < at - 1 {
                        assert(precedes(keys@, before[a] as int, before[at - 1] as int));
                    }
                } else {
                    assert(order@[b] == before[b - 1]);
                }
            }
        }
        i = i + 1;
    }
    order
}

/// A stable order takes every place once, from the lowest key to the highest,
/// places with equal keys as they stand.
pub proof fn a_stable_order_ascends(order: Seq<usize>, keys: Seq<i128>)
    requires
        stably_orders(order, keys),
        keys.len() <= usize::MAX,
    ensures
        order.len() == keys.len(),
        forall|a: int, b: int|
            0 <= a < b < order.len() ==> #[trigger] order[a] != #[trigger] order[b],
        forall|i: int| 0 <= i < keys.len() ==> #[trigger] order.contains(i as usize),
        forall|a: int, b: int|
            0 <= a < b < order.len() ==> keys[#[trigger] order[a] as int]
                <= keys[#[trigger] order[b] as int],
        forall|a: int, b: int|
            0 <= a < b < order.len() && keys[#[trigger] order[a] as int]
                == keys[#[trigger] order[b] as int] ==> order[a] < order[b],
{
    assert forall|a: int, b: int| 0 <= a < b < order.len() implies keys[#[trigger] order[a] as int]
        <= keys[#[trigger] order[b] as int] && order[a] != order[b] && (keys[order[a] as int]
        == keys[order[b] as int] ==> order[a] < order[b]) by {
        assert(precedes(keys, order[a] as int, order[b] as int));
    }
}

} // verus!
