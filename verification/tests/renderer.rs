use rvalt::exr::ExrImage;
use rvalt::number::Single;
use rvalt::renderer::plane_upload;
use rvalt::renderer::texel_bytes;
use rvalt::renderer::texture_extent;
use rvalt::renderer::ChannelMode;
use rvalt::renderer::ExrRenderer;
use rvalt::renderer::MAX_EXP;
use rvalt::renderer::MIN_EXP;

fn block(min: f32, max: f32, mode: u32) -> Vec<u8> {
    let mut bytes = Vec::new();
    bytes.extend(min.to_ne_bytes());
    bytes.extend(max.to_ne_bytes());
    bytes.extend(mode.to_ne_bytes());
    bytes.extend(0f32.to_ne_bytes());
    bytes
}

#[test]
fn exponents_are_the_bits_of_the_range() {
    assert_eq!(f32::from_bits(MIN_EXP), -6.5);
    assert_eq!(f32::from_bits(MAX_EXP), 6.5);
}

#[test]
fn channel_modes_are_numbered_and_named() {
    let all = ChannelMode::all();
    let expected = [
        (ChannelMode::Rgba, 0, "Rgba"),
        (ChannelMode::Red, 1, "Red"),
        (ChannelMode::Green, 2, "Green"),
        (ChannelMode::Blue, 3, "Blue"),
        (ChannelMode::Alpha, 4, "Alpha"),
        (ChannelMode::Luminance, 5, "Luminance"),
    ];
    assert_eq!(all.len(), expected.len());
    for (mode, (same, code, name)) in all.into_iter().zip(expected) {
        assert_eq!(mode, same);
        assert_eq!(mode.code(), code);
        assert_eq!(mode.name(), name);
    }
    assert_eq!(ChannelMode::default(), ChannelMode::Rgba);
}

#[test]
fn planes_are_uploaded_by_their_bytes() {
    let plane = [0x3c00u16, 0x0102, 0xfffe];
    let upload = plane_upload(&plane, 3, 1);
    let mut bytes = Vec::new();
    for v in plane {
        bytes.extend(v.to_ne_bytes());
    }
    assert_eq!(upload.bytes, bytes);
    assert_eq!(upload.bytes_per_row, 6);
    assert_eq!(upload.rows_per_image, 1);
}

#[test]
fn rows_of_a_whole_plane_fill_its_bytes() {
    let plane = vec![7u16; 5 * 4];
    let upload = plane_upload(&plane, 5, 4);
    assert_eq!(
        upload.bytes.len(),
        upload.bytes_per_row as usize * upload.rows_per_image as usize
    );
}

#[test]
fn empty_plane_has_no_bytes() {
    let upload = plane_upload(&[], 0, 0);
    assert!(upload.bytes.is_empty());
    assert_eq!((upload.bytes_per_row, upload.rows_per_image), (0, 0));
}

#[test]
fn texels_are_uploaded_by_their_bytes() {
    assert_eq!(texel_bytes(&[0x0201, 0x0403]), {
        let mut bytes = Vec::new();
        bytes.extend(0x0201u16.to_ne_bytes());
        bytes.extend(0x0403u16.to_ne_bytes());
        bytes
    });
}

#[test]
fn textures_are_as_large_as_the_image() {
    let img = ExrImage { width: 1920, height: 1080, ..ExrImage::default() };
    assert_eq!(texture_extent(&img), (1920, 1080));
}

#[test]
fn new_renderer_shows_all_channels() {
    let (_, bytes) = ExrRenderer::new();
    assert_eq!(bytes, block(-6.5, 6.5, 0));
}

#[test]
fn channel_mode_is_kept_when_a_table_comes_in() {
    let (mut renderer, _) = ExrRenderer::new();
    assert_eq!(renderer.set_channel_mode(4), block(-6.5, 6.5, 4));
    let bytes = renderer.set_color_lut(
        Single { bits: (-2.0f32).to_bits() },
        Single { bits: 3.5f32.to_bits() },
    );
    assert_eq!(bytes, block(-2.0, 3.5, 4));
    assert_eq!(renderer.set_channel_mode(1), block(-6.5, 6.5, 1));
}
