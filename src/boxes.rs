use vstd::prelude::*;
use crate::fixed::UNIT;

verus! {

/// An axis-aligned box in fixed-point normalized `[y_min, x_min, y_max, x_max]` form.
#[derive(Clone, Copy, Debug, PartialEq, Eq, Structural)]
pub struct BBox {
    pub y_min: i64,
    pub x_min: i64,
    pub y_max: i64,
    pub x_max: i64,
}

/// Every edge of the box lies in `[0, UNIT]`; the box may still be empty or
/// inverted.
pub open spec fn bbox_wf(b: BBox) -> bool {
    0 <= b.y_min <= UNIT && 0 <= b.x_min <= UNIT && 0 <= b.y_max <= UNIT && 0 <= b.x_max <= UNIT
}

pub open spec fn min(a: int, b: int) -> int {
    if a <= b {
        a
    } else {
        b
    }
}

pub open spec fn max(a: int, b: int) -> int {
    if a >= b {
        a
    } else {
        b
    }
}

/// Height of the common part of two boxes (negative when they are apart).
pub open spec fn inter_height(a: BBox, b: BBox) -> int {
    min(a.y_max as int, b.y_max as int) - max(a.y_min as int, b.y_min as int)
}

/// Width of the common part of two boxes (negative when they are apart).
pub open spec fn inter_width(a: BBox, b: BBox) -> int {
    min(a.x_max as int, b.x_max as int) - max(a.x_min as int, b.x_min as int)
}

/// Whether the two boxes share a part of positive area.
pub open spec fn overlapping(a: BBox, b: BBox) -> bool {
    inter_height(a, b) > 0 && inter_width(a, b) > 0
}

pub open spec fn area(a: BBox) -> int {
    (a.y_max - a.y_min) * (a.x_max - a.x_min)
}

/// Intersection over union as an exact fraction.
#[derive(Clone, Copy, Debug, PartialEq, Eq, Structural)]
pub struct Iou {
    pub intersection: i64,
    pub union_area: i64,
}

/// The IoU of two boxes: intersection area over union area, and `0 / 1` when
/// the boxes share no part of positive area.
pub open spec fn iou_spec(a: BBox, b: BBox) -> Iou {
    if overlapping(a, b) {
        let inter = inter_height(a, b) * inter_width(a, b);
        Iou { intersection: inter as i64, union_area: (area(a) + area(b) - inter) as i64 }
    } else {
        Iou { intersection: 0, union_area: 1 }
    }
}

/// Whether the IoU of `a` and `b` is above `threshold / UNIT`.
pub open spec fn iou_exceeds(a: BBox, b: BBox, threshold: u32) -> bool {
    let r = iou_spec(a, b);
    r.intersection * UNIT > threshold * r.union_area
}

proof fn lemma_iou_sound(a: BBox, b: BBox)
    requires
        bbox_wf(a),
        bbox_wf(b),
    ensures
        0 <= iou_spec(a, b).intersection <= UNIT * UNIT,
        0 < iou_spec(a, b).union_area <= 2 * UNIT * UNIT,
        iou_spec(a, b).intersection <= iou_spec(a, b).union_area,
{
    if overlapping(a, b) {
        let ih = inter_height(a, b);
        let iw = inter_width(a, b);
        let ha = a.y_max - a.y_min;
        let wa = a.x_max - a.x_min;
        let hb = b.y_max - b.y_min;
        let wb = b.x_max - b.x_min;
        assert(0 < ih <= ha && ih <= hb && ha <= UNIT && hb <= UNIT);
        assert(0 < iw <= wa && iw <= wb && wa <= UNIT && wb <= UNIT);
        assert(ih * iw <= ha * wa && ih * iw <= hb * wb && 0 < ih * iw && ha * wa <= UNIT * UNIT
            && hb * wb <= UNIT * UNIT) by (nonlinear_arith)
            requires
                0 < ih <= ha,
                ih <= hb,
                ha <= UNIT,
                hb <= UNIT,
                0 < iw <= wa,
                iw <= wb,
                wa <= UNIT,
                wb <= UNIT,
        ;
    }
}

impl Iou {
    /// Whether this ratio is above `threshold / UNIT`.
    pub fn exceeds(&self, threshold: u32) -> (r: bool)
        requires
            0 <= self.intersection <= UNIT * UNIT,
            0 < self.union_area <= 2 * UNIT * UNIT,
        ensures
            r == (self.intersection * UNIT > threshold * self.union_area),
    {
        let lhs: i128 = self.intersection as i128 * UNIT as i128;
        assert(threshold * self.union_area <= 0x1_0000_0000 * 2 * UNIT * UNIT) by (nonlinear_arith)
            requires
                0 <= threshold <= 0x1_0000_0000,
                0 < self.union_area <= 2 * UNIT * UNIT,
        ;
        let rhs: i128 = threshold as i128 * self.union_area as i128;
        lhs > rhs
    }
}

/// Intersection over union of two normalized boxes, as an exact fraction.
pub fn calculate_iou(box1: &BBox, box2: &BBox) -> (r: Iou)
    requires
        bbox_wf(*box1),
        bbox_wf(*box2),
    ensures
        r == iou_spec(*box1, *box2),
        0 <= r.intersection <= UNIT * UNIT,
        0 < r.union_area <= 2 * UNIT * UNIT,
        r.intersection <= r.union_area,
{
    proof {
        lemma_iou_sound(*box1, *box2);
    }
    let inter_y_min = if box1.y_min >= box2.y_min { box1.y_min } else { box2.y_min };
    let inter_x_min = if box1.x_min >= box2.x_min { box1.x_min } else { box2.x_min };
    let inter_y_max = if box1.y_max <= box2.y_max { box1.y_max } else { box2.y_max };
    let inter_x_max = if box1.x_max <= box2.x_max { box1.x_max } else { box2.x_max };
    if inter_y_max <= inter_y_min || inter_x_max <= inter_x_min {
        return Iou { intersection: 0, union_area: 1 };
    }
    let ih = inter_y_max - inter_y_min;
    let iw = inter_x_max - inter_x_min;
    let ha = box1.y_max - box1.y_min;
    let wa = box1.x_max - box1.x_min;
    let hb = box2.y_max - box2.y_min;
    let wb = box2.x_max - box2.x_min;
    assert(ih * iw <= UNIT * UNIT && ha * wa <= UNIT * UNIT && hb * wb <= UNIT * UNIT
        && ha * wa >= -UNIT * UNIT && hb * wb >= -UNIT * UNIT) by (nonlinear_arith)
        requires
            0 < ih <= UNIT,
            0 < iw <= UNIT,
            -UNIT <= ha <= UNIT,
            -UNIT <= wa <= UNIT,
            -UNIT <= hb <= UNIT,
            -UNIT <= wb <= UNIT,
    ;
    let inter = ih * iw;
    Iou { intersection: inter, union_area: ha * wa + hb * wb - inter }
}

} // verus!
