use rvalt::exr::can_load;
use rvalt::exr::channel_to_f16_owned;
use rvalt::exr::load_exr;
use rvalt::exr::Channel;
use rvalt::exr::ExrImage;
use rvalt::exr::FlatSamples;
use rvalt::exr::Layer;
use rvalt::exr::LoadError;

fn single(x: f32) -> u16 {
    half::f16::from_f32(x).to_bits()
}

fn integer(n: u32) -> u16 {
    half::f16::from_f32(n as f32).to_bits()
}

fn channel(name: &str, samples: FlatSamples<f32>) -> Channel<f32> {
    Channel { name: name.to_string(), samples }
}

fn layer(width: usize, height: usize, channels: Vec<Channel<f32>>) -> Layer<f32> {
    Layer { width, height, channels }
}

#[test]
fn samples_in_half_precision_are_copied() {
    let samples: FlatSamples<f32> = FlatSamples::F16(vec![1, 2, 0xffff]);
    assert_eq!(channel_to_f16_owned(&samples, &single, &integer), vec![1, 2, 0xffff]);
}

#[test]
fn single_samples_are_rounded() {
    let samples = FlatSamples::F32(vec![1.0f32, 0.5, -2.0]);
    assert_eq!(
        channel_to_f16_owned(&samples, &single, &integer),
        vec![0x3c00, 0x3800, 0xc000]
    );
}

#[test]
fn whole_samples_are_rounded() {
    let samples: FlatSamples<f32> = FlatSamples::U32(vec![0, 1, 3, 100_000]);
    assert_eq!(
        channel_to_f16_owned(&samples, &single, &integer),
        vec![0x0000, 0x3c00, 0x4200, 0x7c00]
    );
}

#[test]
fn file_without_layers_has_no_image() {
    let layers: Vec<Layer<f32>> = Vec::new();
    let error = load_exr(&layers, &single, &integer).unwrap_err();
    assert_eq!(error, LoadError::NoLayers);
    assert_eq!(error.message(), "no layers");
}

#[test]
fn missing_colours_are_named() {
    let half = |v: u16| FlatSamples::F16(vec![v]);
    let load = |names: &[&str]| {
        let channels = names.iter().map(|n| channel(n, half(1))).collect();
        load_exr(&vec![layer(1, 1, channels)], &single, &integer).unwrap_err()
    };
    assert_eq!(load(&[]), LoadError::MissingRed);
    assert_eq!(load(&["G", "B"]).message(), "missing R channel");
    assert_eq!(load(&["R", "B"]), LoadError::MissingGreen);
    assert_eq!(load(&["R", "B"]).message(), "missing G channel");
    assert_eq!(load(&["R", "G", "A"]), LoadError::MissingBlue);
    assert_eq!(load(&["R", "G", "A"]).message(), "missing B channel");
    assert_eq!(load(&["RR", "G", "B"]), LoadError::MissingRed);
}

#[test]
fn channels_are_found_whatever_their_case() {
    let layers = vec![layer(
        2,
        1,
        vec![
            channel("a", FlatSamples::F32(vec![0.5, 0.25])),
            channel("b", FlatSamples::F16(vec![5, 6])),
            channel("G", FlatSamples::F16(vec![3, 4])),
            channel("r", FlatSamples::U32(vec![1, 2])),
        ],
    )];
    let img = load_exr(&layers, &single, &integer).unwrap();
    assert_eq!((img.width, img.height), (2, 1));
    assert_eq!(img.r, vec![0x3c00, 0x4000]);
    assert_eq!(img.g, vec![3, 4]);
    assert_eq!(img.b, vec![5, 6]);
    assert_eq!(img.a, vec![0x3800, 0x3400]);
}

#[test]
fn the_first_channel_of_a_name_counts() {
    let layers = vec![
        layer(
            1,
            1,
            vec![
                channel("r", FlatSamples::F16(vec![1])),
                channel("R", FlatSamples::F16(vec![2])),
                channel("G", FlatSamples::F16(vec![3])),
                channel("B", FlatSamples::F16(vec![4])),
            ],
        ),
        layer(1, 1, vec![channel("R", FlatSamples::F16(vec![9]))]),
    ];
    let img = load_exr(&layers, &single, &integer).unwrap();
    assert_eq!((img.r, img.g, img.b), (vec![1], vec![3], vec![4]));
}

#[test]
fn pixels_are_counted_where_all_colours_are_there() {
    let plane = || FlatSamples::F16(vec![1]);
    let huge = |names: &[&str]| {
        vec![layer(usize::MAX, 2, names.iter().map(|n| channel(n, plane())).collect())]
    };
    assert!(!can_load(&huge(&["R", "G", "B"])));
    assert!(can_load(&huge(&["R", "B"])));
    let error = load_exr(&huge(&["R", "B"]), &single, &integer).unwrap_err();
    assert_eq!(error, LoadError::MissingGreen);
    assert!(can_load::<f32>(&Vec::new()));
    let small = vec![layer(
        1,
        1,
        vec![channel("R", plane()), channel("G", plane()), channel("B", plane())],
    )];
    assert!(can_load(&small));
}

#[test]
fn image_without_alpha_is_opaque() {
    let plane = || FlatSamples::F16(vec![7; 6]);
    let layers = vec![layer(
        3,
        2,
        vec![channel("R", plane()), channel("G", plane()), channel("B", plane())],
    )];
    let img = load_exr(&layers, &single, &integer).unwrap();
    assert_eq!(img.a, vec![0x3c00; 6]);
    assert_eq!(img.r.len(), img.width * img.height);
}

#[test]
fn default_image_is_empty() {
    let img = ExrImage::default();
    assert_eq!((img.width, img.height), (0, 0));
    assert!(img.r.is_empty() && img.g.is_empty() && img.b.is_empty() && img.a.is_empty());
}
