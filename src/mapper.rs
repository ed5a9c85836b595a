use vstd::prelude::*;
use crate::fixed::{UNIT, trunc_div};
use crate::boxes::{BBox, bbox_wf};

verus! {

/// A box in whole pixels of the source image, `[y_min, x_min, y_max, x_max]`.
#[derive(Clone, Copy, Debug, PartialEq, Eq, Structural)]
pub struct PixelBox {
    pub y_min: i32,
    pub x_min: i32,
    pub y_max: i32,
    pub x_max: i32,
}

/// `v / UNIT` of a dimension, rounded toward zero.
pub open spec fn to_pixels(v: int, dim: int) -> int {
    trunc_div(v * dim, UNIT as int)
}

fn scale_coord(v: i64, dim: i32) -> (r: i32)
    requires
        0 <= v <= UNIT,
    ensures
        r == to_pixels(v as int, dim as int),
{
    proof {
        lemma_scaled_fits(v as int, dim as int);
    }
    let p: i64 = v * dim as i64;
    if p >= 0 {
        assert(p / UNIT <= 0x7fff_ffff) by (nonlinear_arith)
            requires
                0 <= p <= 0x7fff_ffff * UNIT,
        ;
        (p / UNIT) as i32
    } else {
        let q: i64 = -p;
        assert(q / UNIT <= 0x8000_0000) by (nonlinear_arith)
            requires
                0 < q <= 0x8000_0000 * UNIT,
        ;
        (-(q / UNIT)) as i32
    }
}

/// Scales a normalized box to whole pixels of an `image_h` by `image_w` image,
/// rounding each edge toward zero.
pub fn scale_bbox(bbox: &BBox, image_h: i32, image_w: i32) -> (r: PixelBox)
    requires
        bbox_wf(*bbox),
    ensures
        r.y_min == to_pixels(bbox.y_min as int, image_h as int),
        r.x_min == to_pixels(bbox.x_min as int, image_w as int),
        r.y_max == to_pixels(bbox.y_max as int, image_h as int),
        r.x_max == to_pixels(bbox.x_max as int, image_w as int),
{
    PixelBox {
        y_min: scale_coord(bbox.y_min, image_h),
        x_min: scale_coord(bbox.x_min, image_w),
        y_max: scale_coord(bbox.y_max, image_h),
        x_max: scale_coord(bbox.x_max, image_w),
    }
}

/// A point `(y, x)`; normalized, or in fixed-point pixels once scaled.
#[derive(Clone, Copy, Debug, PartialEq, Eq, Structural)]
pub struct Point {
    pub y: i64,
    pub x: i64,
}

/// A rectangle `(x, y, width, height)` in fixed-point pixels (`UNIT` per pixel).
#[derive(Clone, Copy, Debug, PartialEq, Eq, Structural)]
pub struct Rect {
    pub x: i64,
    pub y: i64,
    pub width: i64,
    pub height: i64,
}

/// One detected face.
#[derive(Clone, Copy, Debug, PartialEq, Eq, Structural)]
pub struct Face {
    /// The face in fixed-point pixels of the source frame.
    pub bbox: Rect,
    /// The face in normalized model coordinates.
    pub bbox_raw: BBox,
    /// The center in fixed-point pixels of the source frame.
    pub center: Point,
    /// The probability, `UNIT` for certainty.
    pub score: u32,
    pub frame_h: i32,
    pub frame_w: i32,
}

/// The face record for a normalized box and center in an `image_h` by
/// `image_w` frame: coordinates are multiplied by the frame size, exactly.
pub open spec fn face_spec(bbox: BBox, center: Point, score: u32, image_h: i32, image_w: i32) -> Face {
    Face {
        bbox: Rect {
            x: (bbox.x_min * image_w) as i64,
            y: (bbox.y_min * image_h) as i64,
            width: (bbox.x_max * image_w - bbox.x_min * image_w) as i64,
            height: (bbox.y_max * image_h - bbox.y_min * image_h) as i64,
        },
        bbox_raw: bbox,
        center: Point { y: (center.y * image_h) as i64, x: (center.x * image_w) as i64 },
        score,
        frame_h: image_h,
        frame_w: image_w,
    }
}

/// The coordinate lies in `[0, UNIT]`.
pub open spec fn point_wf(p: Point) -> bool {
    0 <= p.y <= UNIT && 0 <= p.x <= UNIT
}

proof fn lemma_scaled_fits(v: int, dim: int)
    requires
        0 <= v <= UNIT,
        -0x8000_0000 <= dim <= 0x7fff_ffff,
    ensures
        -0x8000_0000 * UNIT <= v * dim <= 0x7fff_ffff * UNIT,
{
    assert(-0x8000_0000 * UNIT <= v * dim <= 0x7fff_ffff * UNIT) by (nonlinear_arith)
        requires
            0 <= v <= UNIT,
            -0x8000_0000 <= dim <= 0x7fff_ffff,
    ;
}

impl Face {
    /// Builds the record of a face from its normalized box and center.
    pub fn new(bbox: BBox, center: Point, score: u32, image_h: i32, image_w: i32) -> (r: Face)
        requires
            bbox_wf(bbox),
            point_wf(center),
        ensures
            r == face_spec(bbox, center, score, image_h, image_w),
    {
        let scaled = Face::scale_bbox(&bbox, image_h, image_w);
        let c = Face::scale_center(&center, image_h, image_w);
        proof {
            lemma_scaled_fits(bbox.y_min as int, image_h as int);
            lemma_scaled_fits(bbox.y_max as int, image_h as int);
            lemma_scaled_fits(bbox.x_min as int, image_w as int);
            lemma_scaled_fits(bbox.x_max as int, image_w as int);
        }
        Face {
            bbox: Rect {
                x: scaled.x_min,
                y: scaled.y_min,
                width: scaled.x_max - scaled.x_min,
                height: scaled.y_max - scaled.y_min,
            },
            bbox_raw: bbox,
            center: c,
            score,
            frame_h: image_h,
            frame_w: image_w,
        }
    }

    fn scale_bbox(bbox: &BBox, image_h: i32, image_w: i32) -> (r: BBox)
        requires
            bbox_wf(*bbox),
        ensures
            r.y_min == bbox.y_min * image_h,
            r.x_min == bbox.x_min * image_w,
            r.y_max == bbox.y_max * image_h,
            r.x_max == bbox.x_max * image_w,
    {
        proof {
            lemma_scaled_fits(bbox.y_min as int, image_h as int);
            lemma_scaled_fits(bbox.y_max as int, image_h as int);
            lemma_scaled_fits(bbox.x_min as int, image_w as int);
            lemma_scaled_fits(bbox.x_max as int, image_w as int);
        }
        BBox {
            y_min: bbox.y_min * image_h as i64,
            x_min: bbox.x_min * image_w as i64,
            y_max: bbox.y_max * image_h as i64,
            x_max: bbox.x_max * image_w as i64,
        }
    }

    fn scale_center(center: &Point, image_h: i32, image_w: i32) -> (r: Point)
        requires
            point_wf(*center),
        ensures
            r.y == center.y * image_h,
            r.x == center.x * image_w,
    {
        proof {
            lemma_scaled_fits(center.y as int, image_h as int);
            lemma_scaled_fits(center.x as int, image_w as int);
        }
        Point { y: center.y * image_h as i64, x: center.x * image_w as i64 }
    }
}

} // verus!
