use rvalt::lut::bake_lut;
use rvalt::lut::fetch;
use rvalt::lut::flat_index;
use rvalt::lut::identity_lut;
use rvalt::lut::lerp;
use rvalt::lut::lut_texels;
use rvalt::lut::sample_lut_trilinear;
use rvalt::number::HALF_ONE;

fn coord(i: usize, last: usize) -> f32 {
    i as f32 / last as f32
}

fn mix(a: f32, b: f32, t: f32) -> f32 {
    a + (b - a) * t
}

#[test]
fn flat_index_runs_red_first() {
    assert_eq!(flat_index(32, 0, 0, 0), 0);
    assert_eq!(flat_index(32, 1, 0, 0), 3);
    assert_eq!(flat_index(32, 0, 1, 0), 96);
    assert_eq!(flat_index(32, 0, 0, 1), 3072);
    assert_eq!(flat_index(32, 31, 31, 31), 98301);
}

#[test]
fn fetch_reads_three_components() {
    let data: Vec<u32> = (0..24).collect();
    assert_eq!(fetch(&data, 2, 0, 0, 0), [0, 1, 2]);
    assert_eq!(fetch(&data, 2, 1, 0, 0), [3, 4, 5]);
    assert_eq!(fetch(&data, 2, 0, 1, 0), [6, 7, 8]);
    assert_eq!(fetch(&data, 2, 1, 1, 1), [21, 22, 23]);
}

#[test]
fn lerp_goes_part_of_the_way() {
    let c = lerp([0.0, 1.0, 2.0], [4.0, 1.0, 0.0], 0.25, &mix);
    assert_eq!(c, [1.0, 1.0, 1.5]);
}

#[test]
fn identity_of_two_holds_the_corners() {
    let data = identity_lut(2, &coord);
    assert_eq!(data.len(), 24);
    assert_eq!(
        data,
        vec![
            0.0, 0.0, 0.0, 1.0, 0.0, 0.0, 0.0, 1.0, 0.0, 1.0, 1.0, 0.0, 0.0, 0.0, 1.0, 1.0, 0.0,
            1.0, 0.0, 1.0, 1.0, 1.0, 1.0, 1.0,
        ]
    );
}

#[test]
fn identity_of_nothing_is_empty() {
    assert_eq!(identity_lut(0, &coord).len(), 0);
}

#[test]
fn identity_sampled_between_cells_gives_the_colour() {
    let data = identity_lut(3, &coord);
    let out = sample_lut_trilinear(&data, 3, (0, 1, 1), (0.5, 0.25, 0.75), &mix);
    assert_eq!(out, [0.25, 0.625, 0.875]);
}

#[test]
fn sample_at_the_far_corner_stays_in_the_table() {
    let data = identity_lut(3, &coord);
    let out = sample_lut_trilinear(&data, 3, (2, 2, 2), (0.0, 0.0, 0.0), &mix);
    assert_eq!(out, [1.0, 1.0, 1.0]);
}

#[test]
fn table_of_one_cell_can_be_sampled() {
    let data = vec![0.5f32, 0.25, 0.125];
    let out = sample_lut_trilinear(&data, 1, (0, 0, 0), (0.0, 0.0, 0.0), &mix);
    assert_eq!(out, [0.5, 0.25, 0.125]);
}

#[test]
fn baked_table_gives_back_the_transform_on_the_grid() {
    let linear = |i: usize, last: usize| 2f32.powf(coord(i, last) * 13.0 - 6.5);
    let apply = |c: [f32; 3]| [c[2], c[0] * 2.0, c[1] + 1.0];
    let data = bake_lut(4, &linear, &apply);
    assert_eq!(data.len(), 4 * 4 * 4 * 3);
    for (r, g, b) in [(0, 0, 0), (1, 2, 3), (3, 3, 3), (3, 0, 1)] {
        let out = sample_lut_trilinear(&data, 4, (r, g, b), (0.0, 0.0, 0.0), &mix);
        assert_eq!(out, apply([linear(r, 3), linear(g, 3), linear(b, 3)]));
    }
}

#[test]
fn baked_table_of_less_than_two_is_empty() {
    let apply = |c: [f32; 3]| c;
    assert!(bake_lut(0, &coord, &apply).is_empty());
    assert!(bake_lut(1, &coord, &apply).is_empty());
    assert_eq!(bake_lut(2, &coord, &apply), identity_lut(2, &coord));
}

#[test]
fn cells_of_a_table_do_not_overlap() {
    let mut seen = vec![false; 5 * 5 * 5 * 3];
    for b in 0..5 {
        for g in 0..5 {
            for r in 0..5 {
                let i = flat_index(5, r, g, b);
                for k in i..i + 3 {
                    assert!(!seen[k]);
                    seen[k] = true;
                }
            }
        }
    }
    assert!(seen.iter().all(|s| *s));
}

#[test]
fn texels_gain_an_opaque_channel() {
    let half = |x: f32| half::f16::from_f32(x).to_bits();
    let rgba = lut_texels(&[0.0f32, 0.5, 1.0, 2.0, -1.0, 0.25], &half, HALF_ONE);
    assert_eq!(
        rgba,
        vec![0x0000, 0x3800, 0x3c00, 0x3c00, 0x4000, 0xbc00, 0x3400, 0x3c00]
    );
}

#[test]
fn half_one_is_one() {
    assert_eq!(half::f16::from_bits(HALF_ONE).to_f32(), 1.0);
}
