use locinet::boxes::{calculate_iou, BBox};
use locinet::nms::{sort_desc, suppress};

fn bx(y_min: i64, x_min: i64, y_max: i64, x_max: i64) -> BBox {
    BBox { y_min, x_min, y_max, x_max }
}

#[test]
fn sort_is_descending_and_stable() {
    let scores = vec![5u32, 9, 5, 7, 9];
    assert_eq!(sort_desc(&scores), vec![1usize, 4, 3, 0, 2]);
}

#[test]
fn sort_of_empty_scores() {
    assert!(sort_desc(&Vec::new()).is_empty());
}

#[test]
fn overlapping_lower_score_is_suppressed() {
    let boxes = vec![
        bx(0, 0, 200000, 200000),
        bx(10000, 10000, 210000, 210000),
        bx(500000, 500000, 700000, 700000),
    ];
    let scores = vec![800000u32, 900000, 700000];
    assert_eq!(suppress(&boxes, &scores, 200000), vec![1usize, 2]);
}

#[test]
fn overlap_at_threshold_is_kept() {
    let a = bx(0, 0, 200000, 200000);
    let b = bx(0, 100000, 200000, 300000);
    let boxes = vec![a, b];
    let scores = vec![600000u32, 600000];
    assert_eq!(suppress(&boxes, &scores, 333334), vec![0usize, 1]);
    assert_eq!(suppress(&boxes, &scores, 333333), vec![0usize]);
}

#[test]
fn zero_threshold_keeps_only_disjoint_boxes() {
    let boxes = vec![
        bx(0, 0, 300000, 300000),
        bx(290000, 290000, 600000, 600000),
        bx(700000, 700000, 800000, 800000),
        bx(300000, 0, 600000, 280000),
    ];
    let scores = vec![100u32, 400, 300, 200];
    let kept = suppress(&boxes, &scores, 0);
    assert_eq!(kept, vec![1usize, 2, 3]);
    for i in 0..kept.len() {
        for j in 0..kept.len() {
            if i != j {
                assert_eq!(calculate_iou(&boxes[kept[i]], &boxes[kept[j]]).intersection, 0);
            }
        }
    }
}

#[test]
fn kept_pairs_stay_within_threshold() {
    let mut boxes = Vec::new();
    let mut scores = Vec::new();
    for k in 0..20i64 {
        boxes.push(bx(k * 20000, k * 15000, k * 20000 + 200000, k * 15000 + 200000));
        scores.push((1000 + (k * 37) % 11) as u32);
    }
    let kept = suppress(&boxes, &scores, 200000);
    assert!(!kept.is_empty());
    assert!(kept.len() < boxes.len());
    for i in 0..kept.len() {
        for j in 0..kept.len() {
            if i != j {
                assert!(!calculate_iou(&boxes[kept[i]], &boxes[kept[j]]).exceeds(200000));
            }
        }
    }
}

#[test]
fn suppress_of_nothing_is_empty() {
    assert!(suppress(&Vec::new(), &Vec::new(), 200000).is_empty());
}
