use rvalt::lut::identity_lut;
use rvalt::preview::render;
use rvalt::preview::Grade;

fn coord(i: usize, last: usize) -> f32 {
    i as f32 / last as f32
}

fn split(v: f32, size: usize) -> (usize, f32) {
    let f = v.clamp(0.0, 1.0) * (size - 1) as f32;
    let low = f.floor() as usize;
    (low, f - low as f32)
}

fn mix(a: f32, b: f32, t: f32) -> f32 {
    a + (b - a) * t
}

fn byte(v: f32) -> u8 {
    (v.clamp(0.0, 1.0) * 255.0) as u8
}

#[test]
fn pixel_goes_through_the_table() {
    let lut = identity_lut(3, &coord);
    let grade = Grade { shape: |v: f32| v * 2.0, split, mix, byte };
    assert_eq!(grade.pixel(&lut, 3, [0.0, 0.25, 0.5, 0.9]), [0, 127, 255]);
    assert_eq!(grade.pixel(&lut, 3, [-1.0, 7.0, 0.0, 0.0]), [0, 255, 0]);
    assert_eq!(grade.pixel(&lut, 3, [1.0, 1.0, f32::NAN, 0.0]), [0, 0, 0]);
}

#[test]
fn image_is_rendered_row_by_row() {
    let lut = identity_lut(2, &coord);
    let grade = Grade { shape: |v: f32| v, split, mix, byte };
    let pixels = vec![
        vec![[1.0, 0.0, 0.0, 1.0], [0.0, 1.0, 0.0, 1.0]],
        vec![[0.0, 0.0, 1.0, 1.0], [1.0, 1.0, 1.0, 1.0]],
    ];
    let bytes = render(&pixels, 2, 2, &lut, 2, &grade);
    assert_eq!(bytes, vec![255, 0, 0, 0, 255, 0, 0, 0, 255, 255, 255, 255]);
}

#[test]
fn what_the_image_does_not_cover_is_black() {
    let lut = identity_lut(2, &coord);
    let grade = Grade { shape: |v: f32| v, split, mix, byte };
    let pixels = vec![vec![[1.0; 4]], Vec::new(), vec![[1.0; 4], [0.5; 4]]];
    let bytes = render(&pixels, 2, 4, &lut, 2, &grade);
    let mut expected = vec![0u8; 2 * 4 * 3];
    expected[0..3].fill(255);
    expected[12..15].fill(255);
    expected[15..18].fill(127);
    assert_eq!(bytes, expected);
}

#[test]
fn empty_rows_may_lie_past_the_height() {
    let lut = identity_lut(2, &coord);
    let grade = Grade { shape: |v: f32| v, split, mix, byte };
    let pixels = vec![vec![[1.0f32; 4]], Vec::new(), Vec::new()];
    assert_eq!(render(&pixels, 1, 1, &lut, 2, &grade), vec![255, 255, 255]);
}

#[test]
fn empty_raster_has_no_bytes() {
    let lut = identity_lut(2, &coord);
    let grade = Grade { shape: |v: f32| v, split, mix, byte };
    let pixels: Vec<Vec<[f32; 4]>> = Vec::new();
    assert!(render(&pixels, 0, 0, &lut, 2, &grade).is_empty());
}
