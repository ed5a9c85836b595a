use vstd::prelude::*;
use crate::anchors::{Anchor, anchor_wf};
use crate::boxes::{BBox, bbox_wf};
use crate::decode::{decode_spec, decoded_boxes, adjust_anchors};
use crate::filter::{filter_spec, filter_scores};
use crate::mapper::{Face, Point, face_spec};
use crate::nms::nms_spec;

verus! {

/// Side of the square model input, in pixels.
pub const INPUT_SIZE: u32 = 128;

/// Number of anchors, score entries and delta rows the model produces.
pub const NUM_ANCHORS: usize = 896;

/// Number of regression values per anchor; the first four describe the box.
pub const DELTA_LEN: usize = 16;

/// The usual confidence threshold, `0.5` in fixed point.
pub const DEFAULT_CONFIDENCE_THRESHOLD: u32 = 500000;

/// The usual IoU threshold of suppression, `0.2` in fixed point.
pub const DEFAULT_IOU_THRESHOLD: u32 = 200000;

/// The delta row of anchor `i`.
pub open spec fn delta_row(deltas: Seq<i64>, i: int) -> Seq<i64> {
    deltas.subrange(i * 16, i * 16 + 16)
}

/// The center of a box, rounded down.
pub open spec fn box_center(b: BBox) -> Point {
    Point { y: ((b.y_min + b.y_max) / 2) as i64, x: ((b.x_min + b.x_max) / 2) as i64 }
}

/// The candidate boxes: one for each anchor the score filter keeps, in
/// anchor order.
pub open spec fn candidate_boxes(
    deltas: Seq<i64>,
    probs: Seq<u32>,
    anchors: Seq<Anchor>,
    confidence_threshold: u32,
) -> Seq<BBox> {
    let f = filter_spec(probs, confidence_threshold);
    Seq::new(
        f.len(),
        |k: int| decode_spec(anchors[f[k].0 as int], delta_row(deltas, f[k].0 as int), INPUT_SIZE as int),
    )
}

/// The probabilities of the candidate boxes.
pub open spec fn candidate_scores(probs: Seq<u32>, confidence_threshold: u32) -> Seq<u32> {
    let f = filter_spec(probs, confidence_threshold);
    Seq::new(f.len(), |k: int| f[k].1)
}

/// The faces of one frame: filter by confidence, decode, suppress, then map
/// each surviving box into the frame, highest score first.
pub open spec fn detect_spec(
    deltas: Seq<i64>,
    probs: Seq<u32>,
    anchors: Seq<Anchor>,
    confidence_threshold: u32,
    iou_threshold: u32,
    image_h: i32,
    image_w: i32,
) -> Seq<Face> {
    let boxes = candidate_boxes(deltas, probs, anchors, confidence_threshold);
    let scores = candidate_scores(probs, confidence_threshold);
    nms_spec(boxes, scores, iou_threshold).map_values(
        |i: usize|
            face_spec(boxes[i as int], box_center(boxes[i as int]), scores[i as int], image_h, image_w),
    )
}

/// The detections of one frame.
pub struct BlazeFaceOutputs {
    pub faces: Vec<Face>,
}

proof fn lemma_center_wf(b: BBox)
    requires
        bbox_wf(b),
    ensures
        crate::mapper::point_wf(box_center(b)),
{
}

impl BlazeFaceOutputs {
    /// Decodes the model outputs of one frame into faces of an `image_h` by
    /// `image_w` frame. `probs` holds the probability of each anchor
    /// (`UNIT` for certainty), `deltas` a row of sixteen regression values per
    /// anchor.
    pub fn new(
        deltas: &Vec<i64>,
        probs: &Vec<u32>,
        anchors: &Vec<Anchor>,
        confidence_threshold: u32,
        iou_threshold: u32,
        image_h: i32,
        image_w: i32,
    ) -> (r: Self)
        requires
            deltas@.len() == NUM_ANCHORS * DELTA_LEN,
            probs@.len() == NUM_ANCHORS,
            anchors@.len() == NUM_ANCHORS,
            forall|k: int| 0 <= k < anchors@.len() ==> anchor_wf(#[trigger] anchors@[k]),
        ensures
            r.faces@ == detect_spec(
                deltas@,
                probs@,
                anchors@,
                confidence_threshold,
                iou_threshold,
                image_h,
                image_w,
            ),
    {
        let valid = filter_scores(probs, confidence_threshold);
        proof {
            crate::filter::lemma_filter_exact(probs@, confidence_threshold);
        }
        let ghost f = filter_spec(probs@, confidence_threshold);
        let ghost boxes = candidate_boxes(deltas@, probs@, anchors@, confidence_threshold);
        let ghost scores = candidate_scores(probs@, confidence_threshold);
        let mut valid_anchors: Vec<Anchor> = Vec::with_capacity(valid.len());
        let mut best_deltas: Vec<Vec<i64>> = Vec::with_capacity(valid.len());
        let mut valid_scores: Vec<u32> = Vec::with_capacity(valid.len());
        let mut k: usize = 0;
        while k < valid.len()
            invariant
                valid@ == f,
                f == filter_spec(probs@, confidence_threshold),
                forall|j: int| 0 <= j < f.len() ==> (#[trigger] f[j]).0 < probs@.len(),
                deltas@.len() == NUM_ANCHORS * DELTA_LEN,
                probs@.len() == NUM_ANCHORS,
                anchors@.len() == NUM_ANCHORS,
                forall|j: int| 0 <= j < anchors@.len() ==> anchor_wf(#[trigger] anchors@[j]),
                0 <= k <= f.len(),
                valid_anchors@.len() == k,
                best_deltas@.len() == k,
                valid_scores@ == scores.take(k as int),
                scores == candidate_scores(probs@, confidence_threshold),
                forall|j: int| 0 <= j < k ==> #[trigger] valid_anchors@[j] == anchors@[f[j].0 as int],
                forall|j: int|
                    0 <= j < k ==> (#[trigger] best_deltas@[j])@ == delta_row(deltas@, f[j].0 as int),
            decreases f.len() - k,
        {
            let (index, p) = valid[k];
            valid_anchors.push(anchors[index]);
            let start: usize = index * DELTA_LEN;
            let mut row: Vec<i64> = Vec::with_capacity(DELTA_LEN);
            let mut c: usize = 0;
            while c < DELTA_LEN
                invariant
                    index < NUM_ANCHORS,
                    start == index * DELTA_LEN,
                    deltas@.len() == NUM_ANCHORS * DELTA_LEN,
                    0 <= c <= DELTA_LEN,
                    row@ == deltas@.subrange(start as int, start + c),
                decreases DELTA_LEN - c,
            {
                row.push(deltas[start + c]);
                c = c + 1;
                assert(row@ =~= deltas@.subrange(start as int, start + c));
            }
            best_deltas.push(row);
            valid_scores.push(p);
            k = k + 1;
            assert(valid_scores@ =~= scores.take(k as int));
        }
        assert(valid_scores@ =~= scores);
        proof {
            assert(decoded_boxes(valid_anchors@, best_deltas@, INPUT_SIZE as int) =~= boxes);
        }
        let (kept_boxes, kept_scores) = adjust_anchors(
            &valid_anchors,
            &best_deltas,
            &valid_scores,
            INPUT_SIZE,
            iou_threshold,
        );
        let ghost kept = nms_spec(boxes, scores, iou_threshold);
        let ghost target = detect_spec(
            deltas@,
            probs@,
            anchors@,
            confidence_threshold,
            iou_threshold,
            image_h,
            image_w,
        );
        let mut faces: Vec<Face> = Vec::with_capacity(kept_boxes.len());
        let mut m: usize = 0;
        while m < kept_boxes.len()
            invariant
                kept_boxes@ == kept.map_values(|i: usize| boxes[i as int]),
                kept_scores@ == kept.map_values(|i: usize| scores[i as int]),
                forall|j: int| 0 <= j < kept_boxes@.len() ==> bbox_wf(#[trigger] kept_boxes@[j]),
                target == kept.map_values(
                    |i: usize|
                        face_spec(
                            boxes[i as int],
                            box_center(boxes[i as int]),
                            scores[i as int],
                            image_h,
                            image_w,
                        ),
                ),
                0 <= m <= kept_boxes@.len(),
                faces@ == target.take(m as int),
            decreases kept_boxes@.len() - m,
        {
            let b = kept_boxes[m];
            proof {
                lemma_center_wf(b);
            }
            let center = Point { y: (b.y_min + b.y_max) / 2, x: (b.x_min + b.x_max) / 2 };
            faces.push(Face::new(b, center, kept_scores[m], image_h, image_w));
            m = m + 1;
            assert(faces@ =~= target.take(m as int));
        }
        assert(faces@ =~= target);
        BlazeFaceOutputs { faces }
    }
}

/// Decoding depends on its inputs alone: two decodings of the same outputs
/// give the same faces.
pub proof fn lemma_detect_repeatable(
    deltas: Seq<i64>,
    probs: Seq<u32>,
    anchors: Seq<Anchor>,
    confidence_threshold: u32,
    iou_threshold: u32,
    image_h: i32,
    image_w: i32,
    first: Seq<Face>,
    second: Seq<Face>,
)
    requires
        first == detect_spec(deltas, probs, anchors, confidence_threshold, iou_threshold, image_h, image_w),
        second == detect_spec(deltas, probs, anchors, confidence_threshold, iou_threshold, image_h, image_w),
    ensures
        first == second,
{
}

} // verus!
