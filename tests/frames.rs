use locinet::frame::{pad_frame, resize_image, Frame, FrameBuffer, RgbImage};

#[test]
fn frame_buffer_starts_empty() {
    let fb = FrameBuffer::new();
    assert!(fb.data.is_empty());
    assert_eq!((fb.width, fb.height), (0, 0));
}

#[test]
fn frame_buffer_update_and_borrow() {
    let mut fb = FrameBuffer::new();
    fb.update(vec![1, 2, 3, 4, 5, 6], 2, 1);
    let f = fb.to_frame();
    assert_eq!(f.data, &[1u8, 2, 3, 4, 5, 6][..]);
    assert_eq!((f.width, f.height), (2, 1));
}

#[test]
fn pad_wide_frame_centers_vertically() {
    let data = vec![1u8, 2, 3, 4, 5, 6, 7, 8, 9, 10, 11, 12, 13, 14, 15, 16, 17, 18];
    let frame = Frame { data: &data, width: 3, height: 2 };
    let img = pad_frame(&frame);
    assert_eq!((img.width, img.height), (3, 3));
    let mut expected = data.clone();
    expected.extend_from_slice(&[0u8; 9]);
    assert_eq!(img.data, expected);
}

#[test]
fn pad_tall_frame_leaves_odd_border_on_the_right() {
    let data = vec![10u8, 11, 12, 20, 21, 22];
    let frame = Frame { data: &data, width: 1, height: 2 };
    let img = pad_frame(&frame);
    assert_eq!((img.width, img.height), (2, 2));
    assert_eq!(img.data, vec![10u8, 11, 12, 0, 0, 0, 20, 21, 22, 0, 0, 0]);
}

#[test]
fn pad_square_frame_is_unchanged() {
    let data: Vec<u8> = (0..12).collect();
    let frame = Frame { data: &data, width: 2, height: 2 };
    assert_eq!(pad_frame(&frame).data, data);
}

#[test]
fn resize_to_same_size_copies() {
    let img = RgbImage { width: 2, height: 2, data: (0..12).collect() };
    let r = resize_image(&img, 2);
    assert_eq!(r.data, img.data);
}

#[test]
fn resize_upscales_with_nearest_pixel() {
    let img = RgbImage { width: 2, height: 2, data: (1..13).collect() };
    let r = resize_image(&img, 4);
    assert_eq!((r.width, r.height), (4, 4));
    assert_eq!(r.data.len(), 48);
    assert_eq!(&r.data[0..3], &[1u8, 2, 3][..]);
    assert_eq!(&r.data[45..48], &[10u8, 11, 12][..]);
}

#[test]
fn resize_of_empty_image_is_black() {
    let img = RgbImage { width: 0, height: 0, data: Vec::new() };
    let r = resize_image(&img, 2);
    assert_eq!(r.data, vec![0u8; 12]);
}
