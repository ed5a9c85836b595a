use locinet::anchors::Anchor;
use locinet::boxes::BBox;
use locinet::decode::{adjust_anchors, decode_box};

#[test]
fn decode_moves_center_and_sets_size() {
    let anchor = Anchor { center_y: 500000, center_x: 500000, height: 62500, width: 62500 };
    let delta = vec![12800000i64, -12800000, 32000000, 16000000, 0, 0, 0, 0, 0, 0, 0, 0, 0, 0, 0, 0];
    let b = decode_box(&anchor, &delta, 128);
    assert_eq!(b, BBox { y_min: 381250, x_min: 431250, y_max: 631250, x_max: 556250 });
}

#[test]
fn decode_clamps_to_unit_square() {
    let anchor = Anchor { center_y: 31250, center_x: 968750, height: 62500, width: 62500 };
    let delta = vec![0i64, 0, 64000000, 64000000];
    let b = decode_box(&anchor, &delta, 128);
    assert_eq!(b, BBox { y_min: 0, x_min: 718750, y_max: 281250, x_max: 1000000 });
}

#[test]
fn decode_with_zero_delta_is_the_anchor_center() {
    let anchor = Anchor { center_y: 250000, center_x: 750000, height: 62500, width: 62500 };
    let delta = vec![0i64; 16];
    let b = decode_box(&anchor, &delta, 128);
    assert_eq!(b, BBox { y_min: 250000, x_min: 750000, y_max: 250000, x_max: 750000 });
}

#[test]
fn adjust_keeps_best_of_overlapping_pair() {
    let a = Anchor { center_y: 500000, center_x: 500000, height: 62500, width: 62500 };
    let anchors = vec![a, a, Anchor { center_y: 100000, center_x: 100000, height: 62500, width: 62500 }];
    let size = vec![0i64, 0, 25600000, 25600000];
    let deltas = vec![size.clone(), size.clone(), size];
    let scores = vec![600000u32, 900000, 700000];
    let (boxes, kept_scores) = adjust_anchors(&anchors, &deltas, &scores, 128, 200000);
    assert_eq!(kept_scores, vec![900000u32, 700000]);
    assert_eq!(boxes[0], BBox { y_min: 400000, x_min: 400000, y_max: 600000, x_max: 600000 });
    assert_eq!(boxes[1], BBox { y_min: 0, x_min: 0, y_max: 200000, x_max: 200000 });
}
