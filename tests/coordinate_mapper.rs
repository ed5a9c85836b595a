use locinet::boxes::BBox;
use locinet::mapper::{scale_bbox, Face, PixelBox, Point, Rect};

#[test]
fn scale_quarter_box_to_pixels() {
    let b = BBox { y_min: 250000, x_min: 250000, y_max: 750000, x_max: 750000 };
    assert_eq!(scale_bbox(&b, 200, 100), PixelBox { y_min: 50, x_min: 25, y_max: 150, x_max: 75 });
}

#[test]
fn scale_truncates_toward_zero() {
    let b = BBox { y_min: 333333, x_min: 0, y_max: 1000000, x_max: 999999 };
    assert_eq!(scale_bbox(&b, 10, 10), PixelBox { y_min: 3, x_min: 0, y_max: 10, x_max: 9 });
}

#[test]
fn face_record_scales_box_and_center() {
    let b = BBox { y_min: 250000, x_min: 250000, y_max: 750000, x_max: 750000 };
    let f = Face::new(b, Point { y: 500000, x: 500000 }, 999955, 200, 100);
    assert_eq!(f.bbox, Rect { x: 25000000, y: 50000000, width: 50000000, height: 100000000 });
    assert_eq!(f.bbox_raw, b);
    assert_eq!(f.center, Point { y: 100000000, x: 50000000 });
    assert_eq!(f.score, 999955);
    assert_eq!((f.frame_h, f.frame_w), (200, 100));
}
