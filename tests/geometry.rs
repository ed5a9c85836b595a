use locinet::boxes::{calculate_iou, BBox, Iou};
use locinet::fixed::{clamp_unit, div_floor};

fn bx(y_min: i64, x_min: i64, y_max: i64, x_max: i64) -> BBox {
    BBox { y_min, x_min, y_max, x_max }
}

#[test]
fn iou_of_identical_boxes_is_one() {
    let a = bx(0, 0, 500000, 500000);
    let r = calculate_iou(&a, &a);
    assert_eq!(r.intersection, r.union_area);
    assert!(r.exceeds(999999));
    assert!(!r.exceeds(1000000));
}

#[test]
fn iou_of_half_overlap() {
    let a = bx(0, 0, 200000, 200000);
    let b = bx(0, 100000, 200000, 300000);
    let r = calculate_iou(&a, &b);
    assert_eq!(r, Iou { intersection: 20000000000, union_area: 60000000000 });
    assert!(r.exceeds(333333));
    assert!(!r.exceeds(333334));
}

#[test]
fn iou_of_disjoint_boxes_is_zero() {
    let a = bx(0, 0, 100000, 100000);
    let b = bx(100000, 100000, 200000, 200000);
    assert_eq!(calculate_iou(&a, &b), Iou { intersection: 0, union_area: 1 });
    assert!(!calculate_iou(&a, &b).exceeds(0));
}

#[test]
fn iou_of_degenerate_box_is_zero() {
    let a = bx(300000, 300000, 300000, 300000);
    let b = bx(0, 0, 1000000, 1000000);
    assert_eq!(calculate_iou(&a, &b), Iou { intersection: 0, union_area: 1 });
    let inverted = bx(600000, 600000, 400000, 400000);
    assert_eq!(calculate_iou(&inverted, &b), Iou { intersection: 0, union_area: 1 });
}

#[test]
fn floor_division_rounds_down() {
    assert_eq!(div_floor(7, 2), 3);
    assert_eq!(div_floor(-7, 2), -4);
    assert_eq!(div_floor(-8, 2), -4);
    assert_eq!(div_floor(0, 5), 0);
}

#[test]
fn clamp_to_unit() {
    assert_eq!(clamp_unit(-5), 0);
    assert_eq!(clamp_unit(2000000), 1000000);
    assert_eq!(clamp_unit(123), 123);
}
