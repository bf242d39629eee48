use rvalt::exr::ExrImage;
use rvalt::thumbnail::can_thumb;
use rvalt::thumbnail::downsample_box_planar;
use rvalt::thumbnail::downsample_half_planar;
use rvalt::thumbnail::generate_thumb_planar;
use rvalt::thumbnail::thumbworker;
use rvalt::thumbnail::Kernel;
use rvalt::thumbnail::TextureId;
use rvalt::thumbnail::ThumbCache;
use rvalt::thumbnail::ThumbHandle;

fn bits(x: f32) -> u16 {
    half::f16::from_f32(x).to_bits()
}

fn value(b: u16) -> f32 {
    half::f16::from_bits(b).to_f32()
}

fn quarter(a: u16, b: u16, c: u16, d: u16) -> u16 {
    bits((value(a) + value(b) + value(c) + value(d)) * 0.25)
}

fn edge(i: usize, src: usize, dst: usize) -> usize {
    (i as f32 * (src as f32 / dst as f32)) as usize
}

fn plus(acc: f32, s: u16) -> f32 {
    acc + value(s)
}

fn divide(acc: f32, n: usize) -> u16 {
    bits(acc / n as f32)
}

fn plane(values: &[f32]) -> Vec<u16> {
    values.iter().map(|v| bits(*v)).collect()
}

fn image(width: usize, height: usize, v: f32) -> ExrImage {
    let p = || vec![bits(v); width * height];
    ExrImage { width, height, r: p(), g: p(), b: p(), a: p() }
}

fn scale(src: &[u16], w: usize, h: usize, dw: usize, dh: usize) -> Vec<u16> {
    downsample_box_planar(src, w, h, dw, dh, &edge, 0f32, &plus, &divide)
}

#[test]
fn halving_takes_the_mean_of_blocks() {
    let src = plane(&[0.0, 4.0, 8.0, 8.0, 2.0, 2.0, 8.0, 8.0]);
    let (dst, w, h) = downsample_half_planar(&src, 4, 2, &quarter);
    assert_eq!((w, h), (2, 1));
    assert_eq!(dst, plane(&[2.0, 8.0]));
}

#[test]
fn halving_leaves_the_odd_column_and_row_out() {
    let src = plane(&[1.0, 1.0, 9.0, 1.0, 1.0, 9.0, 9.0, 9.0, 9.0]);
    let (dst, w, h) = downsample_half_planar(&src, 3, 3, &quarter);
    assert_eq!((w, h), (1, 1));
    assert_eq!(dst, plane(&[1.0]));
}

#[test]
fn halving_a_single_row_reads_it_twice() {
    let (dst, w, h) = downsample_half_planar(&plane(&[1.0, 3.0, 5.0, 7.0]), 4, 1, &quarter);
    assert_eq!((w, h), (2, 1));
    assert_eq!(dst, plane(&[2.0, 6.0]));
    let (dst, w, h) = downsample_half_planar(&plane(&[5.0]), 1, 1, &quarter);
    assert_eq!((dst, w, h), (plane(&[5.0]), 1, 1));
}

#[test]
fn flat_plane_stays_flat() {
    let (dst, w, h) = downsample_half_planar(&vec![bits(0.25); 7 * 6], 7, 6, &quarter);
    assert_eq!((w, h), (3, 3));
    assert_eq!(dst, vec![bits(0.25); 9]);
}

#[test]
fn boxes_take_the_mean_under_them() {
    let src = plane(&[1.0, 2.0, 3.0, 4.0, 5.0, 6.0]);
    assert_eq!(scale(&src, 6, 1, 2, 1), plane(&[2.0, 5.0]));
    assert_eq!(scale(&src, 3, 2, 1, 2), plane(&[2.0, 5.0]));
    assert_eq!(scale(&src, 3, 2, 3, 1), plane(&[2.5, 3.5, 4.5]));
}

#[test]
fn boxes_enlarge_by_repeating_samples() {
    assert_eq!(scale(&plane(&[1.0, 2.0]), 2, 1, 4, 1), plane(&[1.0, 1.0, 2.0, 2.0]));
}

#[test]
fn no_boxes_give_no_samples() {
    assert!(scale(&plane(&[1.0, 2.0]), 2, 1, 0, 1).is_empty());
    assert!(scale(&plane(&[1.0, 2.0]), 2, 1, 2, 0).is_empty());
}

#[test]
fn boxes_without_samples_divide_by_zero_samples() {
    let dst = scale(&[], 0, 0, 1, 1);
    assert_eq!(dst.len(), 1);
    assert!(half::f16::from_bits(dst[0]).is_nan());
}

#[test]
fn planes_are_halved_to_the_target() {
    let kernel = Kernel { quarter, edge, zero: 0f32, plus, divide };
    let mut img = image(8, 4, 0.5);
    img.g = (0..32).map(|i| bits(i as f32)).collect();
    let (r, g, b, a) = generate_thumb_planar(&img, 2, 1, &kernel);
    assert_eq!(r, vec![bits(0.5); 2]);
    assert_eq!(g, plane(&[13.5, 17.5]));
    assert_eq!(b, vec![bits(0.5); 2]);
    assert_eq!(a, vec![bits(0.5); 2]);
}

#[test]
fn planes_that_do_not_halve_to_the_target_are_scaled() {
    let kernel = Kernel { quarter, edge, zero: 0f32, plus, divide };
    let mut img = image(6, 2, 1.0);
    img.r = plane(&[0.0, 2.0, 4.0, 6.0, 8.0, 10.0, 0.0, 2.0, 4.0, 6.0, 8.0, 10.0]);
    let (r, _, _, _) = generate_thumb_planar(&img, 1, 1, &kernel);
    assert_eq!(r, plane(&[5.0]));
    let (r, _, _, _) = generate_thumb_planar(&img, 6, 1, &kernel);
    assert_eq!(r, plane(&[1.0, 1.0, 5.0, 5.0, 9.0, 9.0]));
}

#[test]
fn worker_makes_thumbnails_of_one_size() {
    let kernel = Kernel { quarter, edge, zero: 0f32, plus, divide };
    for (w, h) in [(1920, 1080), (192, 96), (96, 48), (50, 200), (1, 1)] {
        let img = image(w, h, 0.5);
        assert!(can_thumb(&img));
        let small = thumbworker(&img, &kernel);
        assert_eq!((small.width, small.height), (96, 48));
        for p in [&small.r, &small.g, &small.b, &small.a] {
            assert_eq!(*p, vec![bits(0.5); 96 * 48]);
        }
    }
}

#[test]
fn images_without_enough_samples_have_no_thumbnail() {
    assert!(!can_thumb(&ExrImage::default()));
    assert!(!can_thumb(&image(0, 5, 0.0)));
    let mut img = image(4, 3, 0.0);
    assert!(can_thumb(&img));
    img.a.truncate(8);
    assert!(can_thumb(&img));
    img.a.truncate(7);
    assert!(!can_thumb(&img));
    let huge = ExrImage { width: usize::MAX, height: usize::MAX, ..image(2, 2, 0.0) };
    assert!(!can_thumb(&huge));
}

#[test]
fn thumbnails_are_found_under_their_frame() {
    let mut cache = ThumbCache::default();
    assert_eq!(cache.get(3), None);
    let first = ThumbHandle { texture: TextureId::User(7) };
    let second = ThumbHandle { texture: TextureId::Managed(1) };
    cache.insert(3, first);
    cache.insert(4, second);
    assert_eq!(cache.get(3), Some(first));
    assert_eq!(cache.get(4), Some(second));
    cache.insert(3, second);
    assert_eq!(cache.get(3), Some(second));
    assert_eq!(cache.get(5), None);
    assert_eq!(ThumbHandle::default().texture, TextureId::Managed(0));
}
