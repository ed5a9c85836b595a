use locinet::anchors::generate_anchors;
use locinet::filter::filter_scores;
use locinet::outputs::{BlazeFaceOutputs, DEFAULT_CONFIDENCE_THRESHOLD, DEFAULT_IOU_THRESHOLD};

fn probability(logit: f32) -> u32 {
    let p = 1.0f64 / (1.0f64 + (-(logit as f64)).exp());
    (p * 1_000_000.0).round() as u32
}

fn deltas_with_size(pixels: i64) -> Vec<i64> {
    let mut deltas = vec![0i64; 896 * 16];
    for i in 0..896 {
        deltas[i * 16 + 2] = pixels * 1_000_000;
        deltas[i * 16 + 3] = pixels * 1_000_000;
    }
    deltas
}

#[test]
fn one_confident_logit_gives_one_face() {
    let anchors = generate_anchors(128);
    let mut logits = vec![-10.0f32; 896];
    logits[100] = 10.0;
    let probs: Vec<u32> = logits.iter().map(|&l| probability(l)).collect();
    let out = BlazeFaceOutputs::new(&deltas_with_size(16), &probs, &anchors, 500000, 200000, 480, 640);
    assert_eq!(out.faces.len(), 1);
    let score = out.faces[0].score as i64;
    assert!((score - 999955).abs() <= 1);
    assert_eq!((out.faces[0].frame_h, out.faces[0].frame_w), (480, 640));
}

#[test]
fn all_even_logits_collapse_overlapping_anchors() {
    let anchors = generate_anchors(128);
    let probs: Vec<u32> = vec![probability(0.0); 896];
    assert_eq!(probs[0], 500000);
    assert_eq!(filter_scores(&probs, 500000).len(), 896);
    let out = BlazeFaceOutputs::new(&deltas_with_size(16), &probs, &anchors, 500000, 200000, 128, 128);
    assert!(!out.faces.is_empty());
    assert!(out.faces.len() < 896);
}

#[test]
fn default_thresholds_are_one_half_and_one_fifth() {
    assert_eq!(DEFAULT_CONFIDENCE_THRESHOLD, 500000);
    assert_eq!(DEFAULT_IOU_THRESHOLD, 200000);
}

#[test]
fn no_confident_logit_gives_no_face() {
    let anchors = generate_anchors(128);
    let probs: Vec<u32> = vec![probability(-10.0); 896];
    let out = BlazeFaceOutputs::new(&deltas_with_size(16), &probs, &anchors, 500000, 200000, 480, 640);
    assert!(out.faces.is_empty());
}

#[test]
fn decoding_twice_gives_the_same_faces() {
    let anchors = generate_anchors(128);
    let probs: Vec<u32> = (0..896).map(|i| ((i * 7919) % 1_000_001) as u32).collect();
    let deltas = deltas_with_size(20);
    let a = BlazeFaceOutputs::new(&deltas, &probs, &anchors, 500000, 200000, 480, 640);
    let b = BlazeFaceOutputs::new(&deltas, &probs, &anchors, 500000, 200000, 480, 640);
    assert_eq!(a.faces, b.faces);
}

#[test]
fn face_box_is_mapped_into_the_frame() {
    let anchors = generate_anchors(128);
    let mut probs = vec![0u32; 896];
    probs[0] = 900000;
    let mut deltas = vec![0i64; 896 * 16];
    deltas[2] = 8_000_000;
    deltas[3] = 8_000_000;
    let out = BlazeFaceOutputs::new(&deltas, &probs, &anchors, 500000, 200000, 200, 100);
    assert_eq!(out.faces.len(), 1);
    let f = &out.faces[0];
    assert_eq!(f.bbox_raw.y_min, 0);
    assert_eq!(f.bbox_raw.y_max, 62500);
    assert_eq!(f.bbox.height, 62500 * 200);
    assert_eq!(f.bbox.width, 62500 * 100);
    assert_eq!(f.center.y, 31250 * 200);
    assert_eq!(f.score, 900000);
}
