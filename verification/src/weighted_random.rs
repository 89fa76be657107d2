//! Picking an item with a chance proportional to its weight.

use vstd::prelude::*;
use rand::Rng;

verus! {

/// The sum of the first `k` weights.
pub open spec fn weight_before<T>(items: Seq<(T, u32)>, k: int) -> int
    decreases k,
{
    if k <= 0 {
        0
    } else {
        weight_before(items, k - 1) + items[k - 1].1
    }
}

pub open spec fn total_weight<T>(items: Seq<(T, u32)>) -> int {
    weight_before(items, items.len() as int)
}

/// Item `i` is the one that draw `x` lands on: the weights before it add up
/// to at most `x`, and with its own weight to more.
pub open spec fn lands_on<T>(items: Seq<(T, u32)>, x: int, i: int) -> bool {
    0 <= i < items.len() && weight_before(items, i) <= x < weight_before(items, i + 1)
}

proof fn lemma_weight_monotone<T>(items: Seq<(T, u32)>, i: int, j: int)
    requires
        0 <= i <= j,
    ensures
        weight_before(items, i) <= weight_before(items, j),
    decreases j - i,
{
    if i < j {
        lemma_weight_monotone(items, i, j - 1);
    }
}

/// A draw lands on one item only.
pub proof fn lemma_lands_on_unique<T>(items: Seq<(T, u32)>, x: int, i: int, j: int)
    requires
        lands_on(items, x, i),
        lands_on(items, x, j),
    ensures
        i == j,
{
    if i < j {
        lemma_weight_monotone(items, i + 1, j);
    } else if j < i {
        lemma_weight_monotone(items, j + 1, i);
    }
}

/// `Rng::random_range(0..bound)` on the thread's generator (`rand::rng()`):
/// a number below `bound`, which must be positive; which one is chance.
#[verifier::external_body]
fn random_below(bound: u32) -> (r: u32)
    requires
        bound > 0,
    ensures
        r < bound,
{
    rand::rng().random_range(0..bound)
}

/// The item that draw `random` lands on, walking the items and adding up
/// their weights.
pub fn pick_weighted<T>(items: Vec<(T, u32)>, random: u32) -> (r: T)
    requires
        random < total_weight(items@),
    ensures
        exists|i: int| lands_on(items@, random as int, i) && r == items@[i].0,
{
    let ghost all = items@;
    let mut list = items;
    let mut current: u64 = 0;
    let mut i: usize = 0;
    while i < list.len()
        invariant
            list@ == all,
            all == items@,
            i <= list.len(),
            current == weight_before(all, i as int),
            current <= random,
            random < total_weight(all),
        decreases list.len() - i,
    {
        current = current + list[i].1 as u64;
        if current > random as u64 {
            let pair = list.swap_remove(i);
            assert(pair == all[i as int]);
            let (item, _) = pair;
            proof {
                assert(lands_on(all, random as int, i as int));
                assert(item == all[i as int].0);
                assert(exists|j: int| lands_on(all, random as int, j) && item == all[j].0);
            }
            return item;
        }
        i += 1;
    }
    proof {
        assert(false);
    }
    let (item, _) = list.swap_remove(0);
    item
}

/// An item picked at random with chance proportional to its weight.
pub fn weighted_random<T>(items: Vec<(T, u32)>) -> (r: T)
    requires
        0 < total_weight(items@) <= u32::MAX,
    ensures
        exists|x: int, i: int| 0 <= x < total_weight(items@) && lands_on(items@, x, i) && r == items@[i].0,
{
    let mut total: u32 = 0;
    let mut i: usize = 0;
    while i < items.len()
        invariant
            i <= items.len(),
            total == weight_before(items@, i as int),
            total_weight(items@) <= u32::MAX,
        decreases items.len() - i,
    {
        proof { lemma_weight_monotone(items@, i + 1, items.len() as int); }
        total = total + items[i].1;
        i += 1;
    }
    let random = random_below(total);
    pick_weighted(items, random)
}

} // verus!
