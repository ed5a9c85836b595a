use vstd::prelude::*;
use crate::fixed::UNIT;
use crate::boxes::{BBox, bbox_wf, iou_exceeds, iou_spec, calculate_iou, overlapping, inter_height, inter_width};

verus! {

/// Inserts index `i` into `order` after every entry whose score is at least
/// the score of `i`, in front of the first entry whose score is lower.
pub open spec fn insert_desc(order: Seq<usize>, i: usize, scores: Seq<u32>) -> Seq<usize>
    decreases order.len(),
{
    if order.len() == 0 {
        seq![i]
    } else if scores[order[0] as int] >= scores[i as int] {
        seq![order[0]] + insert_desc(order.drop_first(), i, scores)
    } else {
        seq![i] + order
    }
}

/// The first `n` indices, sorted by descending score; equal scores keep
/// ascending index order.
pub open spec fn desc_order(scores: Seq<u32>, n: nat) -> Seq<usize>
    decreases n,
{
    if n == 0 {
        seq![]
    } else {
        insert_desc(desc_order(scores, (n - 1) as nat), (n - 1) as usize, scores)
    }
}

/// No kept box overlaps `b` beyond the threshold.
pub open spec fn clear_of(boxes: Seq<BBox>, kept: Seq<usize>, b: BBox, threshold: u32) -> bool {
    forall|k: int| 0 <= k < kept.len() ==> !iou_exceeds(b, boxes[#[trigger] kept[k] as int], threshold)
}

/// Greedy suppression over the first `n` entries of `order`: an index is kept
/// when its box is clear of every box kept before it.
pub open spec fn greedy_keep(boxes: Seq<BBox>, order: Seq<usize>, threshold: u32, n: nat) -> Seq<
    usize,
>
    decreases n,
{
    if n == 0 {
        seq![]
    } else {
        let prev = greedy_keep(boxes, order, threshold, (n - 1) as nat);
        let i = order[n - 1];
        if clear_of(boxes, prev, boxes[i as int], threshold) {
            prev.push(i)
        } else {
            prev
        }
    }
}

/// The indices that non-maximum suppression keeps, highest score first.
pub open spec fn nms_spec(boxes: Seq<BBox>, scores: Seq<u32>, threshold: u32) -> Seq<usize> {
    let order = desc_order(scores, scores.len());
    greedy_keep(boxes, order, threshold, order.len())
}

proof fn lemma_insert_at(order: Seq<usize>, i: usize, scores: Seq<u32>, p: int)
    requires
        0 <= p <= order.len(),
        forall|k: int| 0 <= k < p ==> scores[#[trigger] order[k] as int] >= scores[i as int],
        p < order.len() ==> scores[order[p] as int] < scores[i as int],
    ensures
        insert_desc(order, i, scores) == order.insert(p, i),
    decreases order.len(),
{
    if order.len() == 0 {
        assert(order.insert(p, i) =~= seq![i]);
    } else if p == 0 {
        assert(order.insert(p, i) =~= seq![i] + order);
    } else {
        let rest = order.drop_first();
        assert forall|k: int| 0 <= k < p - 1 implies scores[#[trigger] rest[k] as int]
            >= scores[i as int] by {
            assert(rest[k] == order[k + 1]);
        }
        lemma_insert_at(rest, i, scores, p - 1);
        assert(order.insert(p, i) =~= seq![order[0]] + rest.insert(p - 1, i));
    }
}

proof fn lemma_order_facts(scores: Seq<u32>, n: nat)
    ensures
        desc_order(scores, n).len() == n,
        forall|k: int| 0 <= k < n ==> #[trigger] desc_order(scores, n)[k] < n,
    decreases n,
{
    if n > 0 {
        lemma_order_facts(scores, (n - 1) as nat);
        let prev = desc_order(scores, (n - 1) as nat);
        lemma_insert_facts(prev, (n - 1) as usize, scores, n);
    }
}

proof fn lemma_insert_facts(order: Seq<usize>, i: usize, scores: Seq<u32>, bound: nat)
    requires
        i < bound,
        forall|k: int| 0 <= k < order.len() ==> #[trigger] order[k] < bound,
    ensures
        insert_desc(order, i, scores).len() == order.len() + 1,
        forall|k: int|
            0 <= k < order.len() + 1 ==> #[trigger] insert_desc(order, i, scores)[k] < bound,
    decreases order.len(),
{
    if order.len() > 0 && scores[order[0] as int] >= scores[i as int] {
        let rest = order.drop_first();
        lemma_insert_facts(rest, i, scores, bound);
        let r = insert_desc(order, i, scores);
        assert forall|k: int| 0 <= k < order.len() + 1 implies #[trigger] r[k] < bound by {
            if k > 0 {
                assert(r[k] == insert_desc(rest, i, scores)[k - 1]);
            }
        }
    } else if order.len() > 0 {
        let r = insert_desc(order, i, scores);
        assert forall|k: int| 0 <= k < order.len() + 1 implies #[trigger] r[k] < bound by {
            if k > 0 {
                assert(r[k] == order[k - 1]);
            }
        }
    }
}

/// Indices `0..scores.len()` sorted by descending score, ties in index order.
pub fn sort_desc(scores: &Vec<u32>) -> (r: Vec<usize>)
    ensures
        r@ == desc_order(scores@, scores@.len()),
        r@.len() == scores@.len(),
        forall|k: int| 0 <= k < r@.len() ==> #[trigger] r@[k] < scores@.len(),
{
    let n = scores.len();
    let mut order: Vec<usize> = Vec::new();
    let mut i: usize = 0;
    while i < n
        invariant
            n == scores@.len(),
            0 <= i <= n,
            order@ == desc_order(scores@, i as nat),
            order@.len() == i,
            forall|k: int| 0 <= k < i ==> #[trigger] order@[k] < i,
        decreases n - i,
    {
        let s = scores[i];
        let mut p: usize = 0;
        while p < order.len() && scores[order[p]] >= s
            invariant
                n == scores@.len(),
                i < n,
                s == scores@[i as int],
                order@.len() == i,
                forall|k: int| 0 <= k < i ==> #[trigger] order@[k] < i,
                0 <= p <= order@.len(),
                forall|k: int| 0 <= k < p ==> scores@[#[trigger] order@[k] as int] >= s,
            decreases order@.len() - p,
        {
            p = p + 1;
        }
        proof {
            lemma_insert_at(order@, i, scores@, p as int);
            lemma_order_facts(scores@, (i + 1) as nat);
        }
        order.insert(p, i);
        i = i + 1;
    }
    order
}

/// Greedy non-maximum suppression: visits the boxes by descending score and
/// keeps each one whose IoU with every box kept so far is at most
/// `iou_threshold / UNIT`. Returns the kept indices, highest score first.
pub fn suppress(boxes: &Vec<BBox>, scores: &Vec<u32>, iou_threshold: u32) -> (r: Vec<usize>)
    requires
        boxes@.len() == scores@.len(),
        forall|k: int| 0 <= k < boxes@.len() ==> bbox_wf(#[trigger] boxes@[k]),
    ensures
        r@ == nms_spec(boxes@, scores@, iou_threshold),
        forall|k: int| 0 <= k < r@.len() ==> #[trigger] r@[k] < boxes@.len(),
{
    let order = sort_desc(scores);
    let mut kept: Vec<usize> = Vec::new();
    let mut j: usize = 0;
    while j < order.len()
        invariant
            boxes@.len() == scores@.len(),
            forall|k: int| 0 <= k < boxes@.len() ==> bbox_wf(#[trigger] boxes@[k]),
            order@ == desc_order(scores@, scores@.len()),
            forall|k: int| 0 <= k < order@.len() ==> #[trigger] order@[k] < scores@.len(),
            0 <= j <= order@.len(),
            kept@ == greedy_keep(boxes@, order@, iou_threshold, j as nat),
            forall|k: int| 0 <= k < kept@.len() ==> #[trigger] kept@[k] < boxes@.len(),
        decreases order@.len() - j,
    {
        let i = order[j];
        let b = boxes[i];
        let mut keep = true;
        let mut m: usize = 0;
        while m < kept.len()
            invariant
                forall|k: int| 0 <= k < boxes@.len() ==> bbox_wf(#[trigger] boxes@[k]),
                forall|k: int| 0 <= k < kept@.len() ==> #[trigger] kept@[k] < boxes@.len(),
                bbox_wf(b),
                0 <= m <= kept@.len(),
                keep == clear_of(boxes@, kept@.take(m as int), b, iou_threshold),
            decreases kept@.len() - m,
        {
            let iou = calculate_iou(&b, &boxes[kept[m]]);
            let ghost before = keep;
            if iou.exceeds(iou_threshold) {
                keep = false;
            }
            proof {
                let t = kept@.take(m as int);
                let t1 = kept@.take(m + 1);
                assert(t1 =~= t.push(kept@[m as int]));
                assert(forall|k: int| 0 <= k < t.len() ==> t1[k] == t[k]);
                if keep {
                    assert(clear_of(boxes@, t1, b, iou_threshold));
                } else if !before {
                    let k = choose|k: int|
                        0 <= k < t.len() && iou_exceeds(b, boxes@[#[trigger] t[k] as int], iou_threshold);
                    assert(t1[k] == t[k]);
                } else {
                    assert(iou_exceeds(b, boxes@[t1[m as int] as int], iou_threshold));
                }
            }
            m = m + 1;
        }
        assert(kept@.take(m as int) =~= kept@);
        if keep {
            kept.push(i);
        }
        j = j + 1;
    }
    kept
}

/// Every entry scores at least as high as the entries after it.
pub open spec fn sorted_desc(order: Seq<usize>, scores: Seq<u32>) -> bool {
    forall|a: int, b: int|
        0 <= a < b < order.len() ==> scores[#[trigger] order[a] as int] >= scores[#[trigger] order[b] as int]
}

proof fn lemma_insert_sorted(order: Seq<usize>, i: usize, scores: Seq<u32>)
    requires
        sorted_desc(order, scores),
    ensures
        sorted_desc(insert_desc(order, i, scores), scores),
        forall|x: usize| #[trigger] insert_desc(order, i, scores).contains(x) <==> (order.contains(x) || x == i),
    decreases order.len(),
{
    let r = insert_desc(order, i, scores);
    if order.len() == 0 {
        assert forall|x: usize| #[trigger] r.contains(x) <==> (order.contains(x) || x == i) by {
            if x == i {
                assert(r[0] == i);
            }
        }
    } else if scores[order[0] as int] >= scores[i as int] {
        let rest = order.drop_first();
        assert(sorted_desc(rest, scores)) by {
            assert forall|a: int, b: int| 0 <= a < b < rest.len() implies scores[#[trigger] rest[a] as int]
                >= scores[#[trigger] rest[b] as int] by {
                assert(rest[a] == order[a + 1] && rest[b] == order[b + 1]);
            }
        }
        lemma_insert_sorted(rest, i, scores);
        let tail = insert_desc(rest, i, scores);
        assert(r == seq![order[0]] + tail);
        assert forall|x: usize| #[trigger] r.contains(x) <==> (order.contains(x) || x == i) by {
            if r.contains(x) {
                let k = choose|k: int| 0 <= k < r.len() && r[k] == x;
                if k > 0 {
                    assert(tail[k - 1] == x);
                    assert(tail.contains(x));
                    if rest.contains(x) {
                        let m = choose|m: int| 0 <= m < rest.len() && rest[m] == x;
                        assert(order[m + 1] == x);
                    }
                } else {
                    assert(order[0] == x);
                }
            }
            if order.contains(x) {
                let m = choose|m: int| 0 <= m < order.len() && order[m] == x;
                if m == 0 {
                    assert(r[0] == x);
                } else {
                    assert(rest[m - 1] == x);
                    assert(rest.contains(x));
                    assert(tail.contains(x));
                    let k = choose|k: int| 0 <= k < tail.len() && tail[k] == x;
                    assert(r[k + 1] == x);
                }
            }
            if x == i {
                assert(tail.contains(x));
                let k = choose|k: int| 0 <= k < tail.len() && tail[k] == x;
                assert(r[k + 1] == x);
            }
        }
        assert forall|a: int, b: int| 0 <= a < b < r.len() implies scores[#[trigger] r[a] as int]
            >= scores[#[trigger] r[b] as int] by {
            if a == 0 {
                assert(r[b] == tail[b - 1]);
                assert(tail.contains(tail[b - 1]));
                let y = tail[b - 1];
                if y != i {
                    assert(rest.contains(y));
                    let m = choose|m: int| 0 <= m < rest.len() && rest[m] == y;
                    assert(order[m + 1] == y);
                }
            } else {
                assert(r[a] == tail[a - 1] && r[b] == tail[b - 1]);
            }
        }
    } else {
        assert(r == seq![i] + order);
        assert forall|x: usize| #[trigger] r.contains(x) <==> (order.contains(x) || x == i) by {
            if r.contains(x) {
                let k = choose|k: int| 0 <= k < r.len() && r[k] == x;
                if k > 0 {
                    assert(order[k - 1] == x);
                }
            }
            if order.contains(x) {
                let m = choose|m: int| 0 <= m < order.len() && order[m] == x;
                assert(r[m + 1] == x);
            }
            if x == i {
                assert(r[0] == x);
            }
        }
        assert forall|a: int, b: int| 0 <= a < b < r.len() implies scores[#[trigger] r[a] as int]
            >= scores[#[trigger] r[b] as int] by {
            assert(r[b] == order[b - 1]);
            if a > 0 {
                assert(r[a] == order[a - 1]);
            } else {
                assert(scores[order[0] as int] >= scores[order[b - 1] as int] || b - 1 == 0);
            }
        }
    }
}

proof fn lemma_desc_order_sorted(scores: Seq<u32>, n: nat)
    ensures
        sorted_desc(desc_order(scores, n), scores),
        forall|x: usize| #[trigger] desc_order(scores, n).contains(x) <==> x < n,
    decreases n,
{
    if n > 0 {
        lemma_desc_order_sorted(scores, (n - 1) as nat);
        lemma_insert_sorted(desc_order(scores, (n - 1) as nat), (n - 1) as usize, scores);
    }
}

proof fn lemma_first_index(s: Seq<usize>, x: usize) -> (j: int)
    requires
        s.contains(x),
    ensures
        0 <= j < s.len(),
        s[j] == x,
        forall|k: int| 0 <= k < j ==> s[k] != x,
    decreases s.len(),
{
    if s[0] == x {
        0
    } else {
        let rest = s.drop_first();
        let m = choose|m: int| 0 <= m < s.len() && s[m] == x;
        assert(rest[m - 1] == x);
        let j = lemma_first_index(rest, x);
        assert forall|k: int| 0 <= k < j + 1 implies s[k] != x by {
            if k > 0 {
                assert(s[k] == rest[k - 1]);
            }
        }
        j + 1
    }
}

proof fn lemma_greedy_pairwise(boxes: Seq<BBox>, order: Seq<usize>, threshold: u32, n: nat)
    ensures
        forall|a: int, b: int|
            0 <= a < b < greedy_keep(boxes, order, threshold, n).len() ==> !iou_exceeds(
                boxes[#[trigger] greedy_keep(boxes, order, threshold, n)[b] as int],
                boxes[#[trigger] greedy_keep(boxes, order, threshold, n)[a] as int],
                threshold,
            ),
    decreases n,
{
    if n > 0 {
        lemma_greedy_pairwise(boxes, order, threshold, (n - 1) as nat);
        let prev = greedy_keep(boxes, order, threshold, (n - 1) as nat);
        let r = greedy_keep(boxes, order, threshold, n);
        assert forall|a: int, b: int| 0 <= a < b < r.len() implies !iou_exceeds(
            boxes[#[trigger] r[b] as int],
            boxes[#[trigger] r[a] as int],
            threshold,
        ) by {
            assert(r[a] == prev[a]);
            if b < prev.len() {
                assert(r[b] == prev[b]);
            }
        }
    }
}

proof fn lemma_greedy_grows(boxes: Seq<BBox>, order: Seq<usize>, threshold: u32, m: nat, n: nat)
    requires
        m <= n,
    ensures
        forall|x: usize|
            #[trigger] greedy_keep(boxes, order, threshold, m).contains(x) ==> greedy_keep(
                boxes,
                order,
                threshold,
                n,
            ).contains(x),
    decreases n,
{
    if m < n {
        lemma_greedy_grows(boxes, order, threshold, m, (n - 1) as nat);
        let prev = greedy_keep(boxes, order, threshold, (n - 1) as nat);
        let r = greedy_keep(boxes, order, threshold, n);
        assert forall|x: usize| prev.contains(x) implies r.contains(x) by {
            let k = choose|k: int| 0 <= k < prev.len() && prev[k] == x;
            assert(r[k] == x);
        }
    }
}

proof fn lemma_greedy_from_order(boxes: Seq<BBox>, order: Seq<usize>, threshold: u32, n: nat)
    requires
        n <= order.len(),
    ensures
        forall|k: int|
            0 <= k < greedy_keep(boxes, order, threshold, n).len() ==> exists|j: int|
                0 <= j < n && order[j] == #[trigger] greedy_keep(boxes, order, threshold, n)[k],
    decreases n,
{
    if n > 0 {
        lemma_greedy_from_order(boxes, order, threshold, (n - 1) as nat);
        let prev = greedy_keep(boxes, order, threshold, (n - 1) as nat);
        let r = greedy_keep(boxes, order, threshold, n);
        assert forall|k: int| 0 <= k < r.len() implies exists|j: int|
            0 <= j < n && order[j] == #[trigger] r[k] by {
            if k < prev.len() {
                assert(r[k] == prev[k]);
                let j = choose|j: int| 0 <= j < n - 1 && order[j] == prev[k];
            } else {
                assert(order[n - 1] == r[k]);
            }
        }
    }
}

proof fn lemma_greedy_leader(boxes: Seq<BBox>, order: Seq<usize>, threshold: u32, n: nat, j: int)
    requires
        0 <= j < n <= order.len(),
        forall|k: int| 0 <= k < j ==> !iou_exceeds(boxes[order[j] as int], boxes[#[trigger] order[k] as int], threshold),
    ensures
        greedy_keep(boxes, order, threshold, n).contains(order[j]),
{
    let prev = greedy_keep(boxes, order, threshold, j as nat);
    lemma_greedy_from_order(boxes, order, threshold, j as nat);
    assert forall|k: int| 0 <= k < prev.len() implies !iou_exceeds(
        boxes[order[j] as int],
        boxes[#[trigger] prev[k] as int],
        threshold,
    ) by {
        let m = choose|m: int| 0 <= m < j && order[m] == prev[k];
    }
    let r = greedy_keep(boxes, order, threshold, (j + 1) as nat);
    assert(r == prev.push(order[j]));
    assert(r[prev.len() as int] == order[j]);
    assert(r.contains(order[j]));
    lemma_greedy_grows(boxes, order, threshold, (j + 1) as nat, n);
}

/// IoU does not depend on the order of the two boxes.
pub proof fn lemma_iou_symmetric(a: BBox, b: BBox)
    ensures
        iou_spec(a, b) == iou_spec(b, a),
{
    assert(inter_height(a, b) == inter_height(b, a));
    assert(inter_width(a, b) == inter_width(b, a));
}

/// No two boxes that suppression keeps overlap with an IoU above the
/// threshold.
pub proof fn lemma_kept_pairs_within_threshold(boxes: Seq<BBox>, scores: Seq<u32>, threshold: u32)
    ensures
        forall|a: int, b: int|
            0 <= a < nms_spec(boxes, scores, threshold).len() && 0 <= b < nms_spec(
                boxes,
                scores,
                threshold,
            ).len() && a != b ==> !iou_exceeds(
                boxes[#[trigger] nms_spec(boxes, scores, threshold)[a] as int],
                boxes[#[trigger] nms_spec(boxes, scores, threshold)[b] as int],
                threshold,
            ),
{
    let order = desc_order(scores, scores.len());
    let r = nms_spec(boxes, scores, threshold);
    lemma_greedy_pairwise(boxes, order, threshold, order.len());
    assert forall|a: int, b: int| 0 <= a < r.len() && 0 <= b < r.len() && a != b implies !iou_exceeds(
        boxes[#[trigger] r[a] as int],
        boxes[#[trigger] r[b] as int],
        threshold,
    ) by {
        lemma_iou_symmetric(boxes[r[a] as int], boxes[r[b] as int]);
    }
}

/// A box that scores strictly higher than every other box it overlaps with
/// an IoU above the threshold is always kept.
pub proof fn lemma_cluster_best_kept(boxes: Seq<BBox>, scores: Seq<u32>, threshold: u32, i: usize)
    requires
        i < scores.len(),
        forall|o: int|
            0 <= o < scores.len() && o != i && iou_exceeds(boxes[i as int], #[trigger] boxes[o], threshold)
                ==> scores[o] < scores[i as int],
    ensures
        nms_spec(boxes, scores, threshold).contains(i),
{
    let n = scores.len();
    let order = desc_order(scores, n);
    lemma_order_facts(scores, n);
    lemma_desc_order_sorted(scores, n);
    assert(order.contains(i));
    let j = lemma_first_index(order, i);
    assert forall|k: int| 0 <= k < j implies !iou_exceeds(
        boxes[order[j] as int],
        boxes[#[trigger] order[k] as int],
        threshold,
    ) by {
        let o = order[k];
        assert(order.contains(o));
        assert(scores[o as int] >= scores[i as int]);
        assert(o != i);
    }
    lemma_greedy_leader(boxes, order, threshold, n, j);
}

/// With a zero IoU threshold no two kept boxes share any area.
pub proof fn lemma_zero_threshold_disjoint(boxes: Seq<BBox>, scores: Seq<u32>)
    requires
        forall|k: int| 0 <= k < boxes.len() ==> bbox_wf(#[trigger] boxes[k]),
        boxes.len() == scores.len(),
    ensures
        forall|a: int, b: int|
            0 <= a < nms_spec(boxes, scores, 0).len() && 0 <= b < nms_spec(boxes, scores, 0).len()
                && a != b ==> !overlapping(
                boxes[#[trigger] nms_spec(boxes, scores, 0)[a] as int],
                boxes[#[trigger] nms_spec(boxes, scores, 0)[b] as int],
            ),
{
    let r = nms_spec(boxes, scores, 0);
    let order = desc_order(scores, scores.len());
    lemma_order_facts(scores, scores.len());
    lemma_greedy_from_order(boxes, order, 0, order.len());
    lemma_kept_pairs_within_threshold(boxes, scores, 0);
    assert forall|a: int, b: int| 0 <= a < r.len() && 0 <= b < r.len() && a != b implies !overlapping(
        boxes[#[trigger] r[a] as int],
        boxes[#[trigger] r[b] as int],
    ) by {
        let ja = choose|j: int| 0 <= j < order.len() && order[j] == r[a];
        let jb = choose|j: int| 0 <= j < order.len() && order[j] == r[b];
        let x = boxes[r[a] as int];
        let y = boxes[r[b] as int];
        assert(bbox_wf(x) && bbox_wf(y));
        if overlapping(x, y) {
            let ih = inter_height(x, y);
            let iw = inter_width(x, y);
            assert(ih * iw > 0) by (nonlinear_arith)
                requires
                    ih > 0,
                    iw > 0,
            ;
            assert(ih <= UNIT && iw <= UNIT);
            assert(ih * iw <= UNIT * UNIT) by (nonlinear_arith)
                requires
                    0 < ih <= UNIT,
                    0 < iw <= UNIT,
            ;
            assert(iou_spec(x, y).intersection > 0);
        }
    }
}

proof fn lemma_greedy_len(boxes: Seq<BBox>, order: Seq<usize>, threshold: u32, n: nat)
    requires
        n <= order.len(),
    ensures
        greedy_keep(boxes, order, threshold, n).len() <= n,
        greedy_keep(boxes, order, threshold, n).len() == n ==> greedy_keep(boxes, order, threshold, n)
            == order.take(n as int),
    decreases n,
{
    if n == 0 {
        assert(order.take(0) =~= seq![]);
    } else {
        lemma_greedy_len(boxes, order, threshold, (n - 1) as nat);
        let prev = greedy_keep(boxes, order, threshold, (n - 1) as nat);
        if greedy_keep(boxes, order, threshold, n).len() == n {
            assert(prev.len() == n - 1);
            assert(order.take(n as int) =~= order.take(n - 1).push(order[n - 1]));
        }
    }
}

/// When two distinct boxes overlap with an IoU above the threshold,
/// suppression keeps fewer boxes than it was given.
pub proof fn lemma_overlap_reduces_count(
    boxes: Seq<BBox>,
    scores: Seq<u32>,
    threshold: u32,
    i: usize,
    j: usize,
)
    requires
        i < scores.len(),
        j < scores.len(),
        i != j,
        iou_exceeds(boxes[i as int], boxes[j as int], threshold),
    ensures
        nms_spec(boxes, scores, threshold).len() < scores.len(),
{
    let n = scores.len();
    let order = desc_order(scores, n);
    let r = nms_spec(boxes, scores, threshold);
    lemma_order_facts(scores, n);
    lemma_desc_order_sorted(scores, n);
    lemma_greedy_len(boxes, order, threshold, n);
    if r.len() == n {
        assert(r == order.take(n as int));
        assert(order.take(n as int) =~= order);
        assert(order.contains(i) && order.contains(j));
        let a = choose|a: int| 0 <= a < order.len() && order[a] == i;
        let b = choose|b: int| 0 <= b < order.len() && order[b] == j;
        lemma_kept_pairs_within_threshold(boxes, scores, threshold);
        assert(r[a] == i && r[b] == j);
        assert(!iou_exceeds(boxes[r[a] as int], boxes[r[b] as int], threshold));
    }
}

} // verus!
