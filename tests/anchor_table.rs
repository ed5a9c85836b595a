use locinet::anchors::{generate_anchors, Anchor};

#[test]
fn table_has_896_anchors() {
    let anchors = generate_anchors(128);
    assert_eq!(anchors.len(), 896);
}

#[test]
fn table_is_the_same_on_every_call() {
    assert_eq!(generate_anchors(128), generate_anchors(128));
}

#[test]
fn first_cell_of_stride_8() {
    let anchors = generate_anchors(128);
    assert_eq!(anchors[0], Anchor { center_y: 31250, center_x: 31250, height: 62500, width: 62500 });
    assert_eq!(anchors[1], Anchor { center_y: 31250, center_x: 31250, height: 93750, width: 93750 });
    assert_eq!(anchors[2], Anchor { center_y: 31250, center_x: 93750, height: 62500, width: 62500 });
}

#[test]
fn second_row_of_stride_8() {
    let anchors = generate_anchors(128);
    assert_eq!(anchors[32], Anchor { center_y: 93750, center_x: 31250, height: 62500, width: 62500 });
}

#[test]
fn stride_16_follows_stride_8() {
    let anchors = generate_anchors(128);
    for i in 0..6 {
        let side = if i % 2 == 0 { 125000 } else { 187500 };
        assert_eq!(
            anchors[512 + i],
            Anchor { center_y: 62500, center_x: 62500, height: side, width: side }
        );
    }
    assert_eq!(anchors[895], Anchor { center_y: 937500, center_x: 937500, height: 187500, width: 187500 });
}

#[test]
fn anchors_are_normalized() {
    for a in generate_anchors(128) {
        assert!(a.center_y >= 0 && a.center_y <= 1000000);
        assert!(a.center_x >= 0 && a.center_x <= 1000000);
        assert!(a.height > 0 && a.height <= 1000000);
        assert_eq!(a.height, a.width);
    }
}
