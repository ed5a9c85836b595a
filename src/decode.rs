use vstd::prelude::*;
use crate::fixed::{UNIT, floor_div, clamp, div_floor, clamp_unit, lemma_floor_div_bounds};
use crate::anchors::{Anchor, anchor_wf};
use crate::boxes::{BBox, bbox_wf};
use crate::nms::{nms_spec, suppress};

verus! {

/// The box that `delta` regresses from `anchor`. The first four delta values
/// are pixel offsets of the model input in fixed point (`UNIT` per pixel); the
/// center moves by `delta / input_size` anchor sides, and the height and width
/// are `delta / input_size` themselves. Edges are clamped into `[0, UNIT]`.
pub open spec fn decode_spec(anchor: Anchor, delta: Seq<i64>, input_size: int) -> BBox {
    let dy = floor_div(delta[0] as int, input_size);
    let dx = floor_div(delta[1] as int, input_size);
    let dh = floor_div(delta[2] as int, input_size);
    let dw = floor_div(delta[3] as int, input_size);
    let cy = anchor.center_y + floor_div(dy * anchor.height, UNIT as int);
    let cx = anchor.center_x + floor_div(dx * anchor.width, UNIT as int);
    let half_h = floor_div(dh, 2);
    let half_w = floor_div(dw, 2);
    BBox {
        y_min: clamp(cy - half_h, 0, UNIT as int) as i64,
        x_min: clamp(cx - half_w, 0, UNIT as int) as i64,
        y_max: clamp(cy + half_h, 0, UNIT as int) as i64,
        x_max: clamp(cx + half_w, 0, UNIT as int) as i64,
    }
}

/// Decodes one anchor's regression delta into a normalized box.
pub fn decode_box(anchor: &Anchor, delta: &Vec<i64>, input_size: u32) -> (r: BBox)
    requires
        anchor_wf(*anchor),
        delta@.len() >= 4,
        input_size > 0,
    ensures
        r == decode_spec(*anchor, delta@, input_size as int),
        bbox_wf(r),
{
    let s = input_size as i128;
    let dy = div_floor(delta[0] as i128, s);
    let dx = div_floor(delta[1] as i128, s);
    let dh = div_floor(delta[2] as i128, s);
    let dw = div_floor(delta[3] as i128, s);
    proof {
        lemma_floor_div_bounds(delta[0] as int, s as int);
        lemma_floor_div_bounds(delta[1] as int, s as int);
        lemma_floor_div_bounds(delta[2] as int, s as int);
        lemma_floor_div_bounds(delta[3] as int, s as int);
        assert(-0x8000_0000_0000_0000 * UNIT <= dy * anchor.height <= 0x8000_0000_0000_0000 * UNIT)
            by (nonlinear_arith)
            requires
                -0x8000_0000_0000_0000 <= dy <= 0x8000_0000_0000_0000,
                0 <= anchor.height <= UNIT,
        ;
        assert(-0x8000_0000_0000_0000 * UNIT <= dx * anchor.width <= 0x8000_0000_0000_0000 * UNIT)
            by (nonlinear_arith)
            requires
                -0x8000_0000_0000_0000 <= dx <= 0x8000_0000_0000_0000,
                0 <= anchor.width <= UNIT,
        ;
    }
    let oy = div_floor(dy * anchor.height as i128, UNIT as i128);
    let ox = div_floor(dx * anchor.width as i128, UNIT as i128);
    proof {
        lemma_floor_div_bounds(dy * anchor.height, UNIT as int);
        lemma_floor_div_bounds(dx * anchor.width, UNIT as int);
        lemma_floor_div_bounds(dh as int, 2);
        lemma_floor_div_bounds(dw as int, 2);
    }
    let cy = anchor.center_y as i128 + oy;
    let cx = anchor.center_x as i128 + ox;
    let half_h = div_floor(dh, 2);
    let half_w = div_floor(dw, 2);
    BBox {
        y_min: clamp_unit(cy - half_h),
        x_min: clamp_unit(cx - half_w),
        y_max: clamp_unit(cy + half_h),
        x_max: clamp_unit(cx + half_w),
    }
}

/// The decoded box of every anchor, in anchor order.
pub open spec fn decoded_boxes(anchors: Seq<Anchor>, deltas: Seq<Vec<i64>>, input_size: int) -> Seq<
    BBox,
> {
    Seq::new(anchors.len(), |k: int| decode_spec(anchors[k], deltas[k]@, input_size))
}

/// Decodes every anchor's box, suppresses overlapping boxes, and returns the
/// surviving boxes with their scores, highest score first.
pub fn adjust_anchors(
    anchors: &Vec<Anchor>,
    deltas: &Vec<Vec<i64>>,
    scores: &Vec<u32>,
    input_size: u32,
    iou_threshold: u32,
) -> (r: (Vec<BBox>, Vec<u32>))
    requires
        anchors@.len() == deltas@.len(),
        anchors@.len() == scores@.len(),
        forall|k: int| 0 <= k < anchors@.len() ==> anchor_wf(#[trigger] anchors@[k]),
        forall|k: int| 0 <= k < deltas@.len() ==> (#[trigger] deltas@[k])@.len() >= 4,
        input_size > 0,
    ensures
        ({
            let boxes = decoded_boxes(anchors@, deltas@, input_size as int);
            let kept = nms_spec(boxes, scores@, iou_threshold);
            &&& r.0@ == kept.map_values(|i: usize| boxes[i as int])
            &&& r.1@ == kept.map_values(|i: usize| scores@[i as int])
        }),
        forall|k: int| 0 <= k < r.0@.len() ==> bbox_wf(#[trigger] r.0@[k]),
{
    let ghost spec_boxes = decoded_boxes(anchors@, deltas@, input_size as int);
    let mut boxes: Vec<BBox> = Vec::with_capacity(anchors.len());
    let mut k: usize = 0;
    while k < anchors.len()
        invariant
            anchors@.len() == deltas@.len(),
            forall|k: int| 0 <= k < anchors@.len() ==> anchor_wf(#[trigger] anchors@[k]),
            forall|k: int| 0 <= k < deltas@.len() ==> (#[trigger] deltas@[k])@.len() >= 4,
            input_size > 0,
            spec_boxes == decoded_boxes(anchors@, deltas@, input_size as int),
            0 <= k <= anchors@.len(),
            boxes@ == spec_boxes.take(k as int),
            forall|j: int| 0 <= j < boxes@.len() ==> bbox_wf(#[trigger] boxes@[j]),
        decreases anchors@.len() - k,
    {
        let b = decode_box(&anchors[k], &deltas[k], input_size);
        boxes.push(b);
        k = k + 1;
        assert(boxes@ =~= spec_boxes.take(k as int));
    }
    assert(boxes@ =~= spec_boxes);
    let kept = suppress(&boxes, scores, iou_threshold);
    let mut out_boxes: Vec<BBox> = Vec::with_capacity(kept.len());
    let mut out_scores: Vec<u32> = Vec::with_capacity(kept.len());
    let mut m: usize = 0;
    while m < kept.len()
        invariant
            boxes@ == spec_boxes,
            boxes@.len() == scores@.len(),
            forall|j: int| 0 <= j < boxes@.len() ==> bbox_wf(#[trigger] boxes@[j]),
            forall|j: int| 0 <= j < kept@.len() ==> #[trigger] kept@[j] < boxes@.len(),
            0 <= m <= kept@.len(),
            out_boxes@ == kept@.take(m as int).map_values(|i: usize| spec_boxes[i as int]),
            out_scores@ == kept@.take(m as int).map_values(|i: usize| scores@[i as int]),
            forall|j: int| 0 <= j < out_boxes@.len() ==> bbox_wf(#[trigger] out_boxes@[j]),
        decreases kept@.len() - m,
    {
        let i = kept[m];
        out_boxes.push(boxes[i]);
        out_scores.push(scores[i]);
        m = m + 1;
        assert(out_boxes@ =~= kept@.take(m as int).map_values(|i: usize| spec_boxes[i as int]));
        assert(out_scores@ =~= kept@.take(m as int).map_values(|i: usize| scores@[i as int]));
    }
    assert(kept@.take(m as int) =~= kept@);
    (out_boxes, out_scores)
}

} // verus!
