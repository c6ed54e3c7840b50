//! Sums over the balances of the store.

use crate::ledger::Text;
use crate::records::Balance;
use vstd::prelude::*;

verus! {

/// The sum of a sequence of numbers.
pub open spec fn total(w: Seq<nat>) -> nat
    decreases w.len(),
{
    if w.len() == 0 {
        0
    } else {
        total(w.drop_last()) + w.last()
    }
}

/// Changing one number changes the sum by the difference.
pub proof fn lemma_total_update(w: Seq<nat>, v: Seq<nat>, i: int)
    requires
        w.len() == v.len(),
        0 <= i < w.len(),
        forall|j: int| 0 <= j < w.len() && j != i ==> w[j] == v[j],
    ensures
        total(v) + w[i] == total(w) + v[i],
    decreases w.len(),
{
    if i == w.len() - 1 {
        assert(w.drop_last() =~= v.drop_last());
    } else {
        lemma_total_update(w.drop_last(), v.drop_last(), i);
    }
}

/// Where no number grows, the sum does not grow.
pub proof fn lemma_total_shrinks(w: Seq<nat>, v: Seq<nat>)
    requires
        w.len() == v.len(),
        forall|j: int| 0 <= j < w.len() ==> v[j] <= w[j],
    ensures
        total(v) <= total(w),
    decreases w.len(),
{
    if w.len() > 0 {
        lemma_total_shrinks(w.drop_last(), v.drop_last());
    }
}

/// What each balance contributes to the total holdings of `tick`.
pub open spec fn overall_weights(b: Seq<((Text, Text), Balance)>, tick: Text) -> Seq<nat> {
    b.map_values(
        |e: ((Text, Text), Balance)|
            if e.0.1 == tick {
                e.1.overall as nat
            } else {
                0nat
            },
    )
}

/// The total holdings of `tick` over all addresses.
pub open spec fn sum_overall(b: Seq<((Text, Text), Balance)>, tick: Text) -> nat {
    total(overall_weights(b, tick))
}

/// What each balance contributes to what is available of `tick`.
pub open spec fn available_weights(b: Seq<((Text, Text), Balance)>, tick: Text) -> Seq<nat> {
    b.map_values(
        |e: ((Text, Text), Balance)|
            if e.0.1 == tick {
                e.1.available as nat
            } else {
                0nat
            },
    )
}

/// What is available of `tick` over all addresses.
pub open spec fn sum_available(b: Seq<((Text, Text), Balance)>, tick: Text) -> nat {
    total(available_weights(b, tick))
}

/// The sum of a part from the start is no more than the sum of the whole.
pub proof fn lemma_total_prefix(w: Seq<nat>, k: int)
    requires
        0 <= k <= w.len(),
    ensures
        total(w.take(k)) <= total(w),
    decreases w.len(),
{
    if k == w.len() {
        assert(w.take(k) =~= w);
    } else {
        assert(w.drop_last().take(k) =~= w.take(k));
        lemma_total_prefix(w.drop_last(), k);
    }
}

/// The sum is no less than any one of its numbers.
pub proof fn lemma_total_at_least(w: Seq<nat>, i: int)
    requires
        0 <= i < w.len(),
    ensures
        total(w) >= w[i],
    decreases w.len(),
{
    if i < w.len() - 1 {
        lemma_total_at_least(w.drop_last(), i);
    }
}

/// The sum is no less than any two of its numbers together.
pub proof fn lemma_total_at_least_two(w: Seq<nat>, i: int, j: int)
    requires
        0 <= i < w.len(),
        0 <= j < w.len(),
        i != j,
    ensures
        total(w) >= w[i] + w[j],
{
    let v = w.update(i, 0nat);
    lemma_total_update(w, v, i);
    lemma_total_at_least(v, j);
}

} // verus!
