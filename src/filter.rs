use vstd::prelude::*;
use crate::fixed::UNIT;

verus! {

/// The anchors whose probability reaches `threshold`, as `(index, probability)`
/// pairs in ascending index order.
pub open spec fn filter_spec(probs: Seq<u32>, threshold: u32) -> Seq<(usize, u32)>
    decreases probs.len(),
{
    if probs.len() == 0 {
        seq![]
    } else {
        let prev = filter_spec(probs.drop_last(), threshold);
        if probs.last() >= threshold {
            prev.push(((probs.len() - 1) as usize, probs.last()))
        } else {
            prev
        }
    }
}

/// Keeps the anchors whose probability is at least `threshold`, with their
/// indices, in index order.
pub fn filter_scores(probs: &Vec<u32>, threshold: u32) -> (r: Vec<(usize, u32)>)
    ensures
        r@ == filter_spec(probs@, threshold),
{
    let mut kept: Vec<(usize, u32)> = Vec::new();
    let mut i: usize = 0;
    while i < probs.len()
        invariant
            0 <= i <= probs@.len(),
            kept@ == filter_spec(probs@.take(i as int), threshold),
        decreases probs@.len() - i,
    {
        let p = probs[i];
        proof {
            assert(probs@.take(i + 1).drop_last() =~= probs@.take(i as int));
        }
        if p >= threshold {
            kept.push((i, p));
        }
        i = i + 1;
    }
    assert(probs@.take(i as int) =~= probs@);
    kept
}

/// The filter keeps exactly the anchors whose probability reaches the
/// threshold, each with its own probability, in ascending index order.
pub proof fn lemma_filter_exact(probs: Seq<u32>, threshold: u32)
    requires
        probs.len() <= usize::MAX,
    ensures
        forall|k: int|
            0 <= k < filter_spec(probs, threshold).len() ==> {
                let (i, p) = #[trigger] filter_spec(probs, threshold)[k];
                &&& i < probs.len()
                &&& p == probs[i as int]
                &&& p >= threshold
            },
        forall|k1: int, k2: int|
            0 <= k1 < k2 < filter_spec(probs, threshold).len() ==> (#[trigger] filter_spec(
                probs,
                threshold,
            )[k1]).0 < (#[trigger] filter_spec(probs, threshold)[k2]).0,
        forall|i: int|
            0 <= i < probs.len() && #[trigger] probs[i] >= threshold ==> exists|k: int|
                0 <= k < filter_spec(probs, threshold).len() && (#[trigger] filter_spec(
                    probs,
                    threshold,
                )[k]).0 == i,
    decreases probs.len(),
{
    if probs.len() > 0 {
        let prefix = probs.drop_last();
        lemma_filter_exact(prefix, threshold);
        let prev = filter_spec(prefix, threshold);
        let r = filter_spec(probs, threshold);
        assert forall|i: int| 0 <= i < probs.len() && #[trigger] probs[i] >= threshold implies exists|
            k: int,
        | 0 <= k < r.len() && (#[trigger] r[k]).0 == i by {
            if i < probs.len() - 1 {
                assert(prefix[i] == probs[i]);
                let k = choose|k: int| 0 <= k < prev.len() && (#[trigger] prev[k]).0 == i;
                assert(r[k] == prev[k]);
            } else {
                assert(r[prev.len() as int].0 == i);
            }
        }
    }
}

/// With a threshold of certainty, only anchors whose probability is already
/// certain pass; when none is, nothing passes.
pub proof fn lemma_certain_threshold(probs: Seq<u32>)
    requires
        probs.len() <= usize::MAX,
    ensures
        forall|k: int|
            0 <= k < filter_spec(probs, UNIT as u32).len() ==> (#[trigger] filter_spec(
                probs,
                UNIT as u32,
            )[k]).1 >= UNIT,
        (forall|i: int| 0 <= i < probs.len() ==> #[trigger] probs[i] < UNIT) ==> filter_spec(
            probs,
            UNIT as u32,
        ).len() == 0,
{
    lemma_filter_exact(probs, UNIT as u32);
    let r = filter_spec(probs, UNIT as u32);
    if (forall|i: int| 0 <= i < probs.len() ==> #[trigger] probs[i] < UNIT) && r.len() > 0 {
        let (i, p) = r[0];
        assert(p == probs[i as int]);
    }
}

} // verus!
