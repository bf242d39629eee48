//! What the graphics card is given.
use vstd::prelude::*;

use crate::exr::ExrImage;
use crate::number::Single;

verus! {

/// Which channels of an image are shown.
#[derive(Debug, Clone, Copy, PartialEq, Eq, Structural)]
pub enum ChannelMode {
    Rgba,
    Red,
    Green,
    Blue,
    Alpha,
    Luminance,
}

impl Default for ChannelMode {
    fn default() -> (mode: Self)
        ensures
            mode == ChannelMode::Rgba,
    {
        ChannelMode::Rgba
    }
}

impl ChannelMode {
    /// The number by which the shader knows a mode.
    pub open spec fn number(self) -> u32 {
        match self {
            ChannelMode::Rgba => 0,
            ChannelMode::Red => 1,
            ChannelMode::Green => 2,
            ChannelMode::Blue => 3,
            ChannelMode::Alpha => 4,
            ChannelMode::Luminance => 5,
        }
    }

    /// The modes, in the order of their numbers.
    pub open spec fn every() -> Seq<ChannelMode> {
        seq![
            ChannelMode::Rgba,
            ChannelMode::Red,
            ChannelMode::Green,
            ChannelMode::Blue,
            ChannelMode::Alpha,
            ChannelMode::Luminance,
        ]
    }

    /// The name by which the user knows a mode.
    pub open spec fn label(self) -> Seq<char> {
        match self {
            ChannelMode::Rgba => "Rgba"@,
            ChannelMode::Red => "Red"@,
            ChannelMode::Green => "Green"@,
            ChannelMode::Blue => "Blue"@,
            ChannelMode::Alpha => "Alpha"@,
            ChannelMode::Luminance => "Luminance"@,
        }
    }

    /// The number by which the shader knows the mode.
    pub fn code(self) -> (code: u32)
        ensures
            code == self.number(),
    {
        match self {
            ChannelMode::Rgba => 0,
            ChannelMode::Red => 1,
            ChannelMode::Green => 2,
            ChannelMode::Blue => 3,
            ChannelMode::Alpha => 4,
            ChannelMode::Luminance => 5,
        }
    }

    /// The name by which the user knows the mode.
    pub fn name(self) -> (name: &'static str)
        ensures
            name@ == self.label(),
    {
        match self {
            ChannelMode::Rgba => "Rgba",
            ChannelMode::Red => "Red",
            ChannelMode::Green => "Green",
            ChannelMode::Blue => "Blue",
            ChannelMode::Alpha => "Alpha",
            ChannelMode::Luminance => "Luminance",
        }
    }

    /// The modes, in the order of their numbers.
    pub fn all() -> (modes: Vec<ChannelMode>)
        ensures
            modes@ == ChannelMode::every(),
    {
        let modes = vec![
            ChannelMode::Rgba,
            ChannelMode::Red,
            ChannelMode::Green,
            ChannelMode::Blue,
            ChannelMode::Alpha,
            ChannelMode::Luminance,
        ];
        assert(modes@ =~= ChannelMode::every());
        modes
    }
}

/// Each mode stands at its number in the list of modes, so that no two modes share one.
pub proof fn lemma_modes_numbered(mode: ChannelMode)
    ensures
        mode.number() < ChannelMode::every().len(),
        ChannelMode::every()[mode.number() as int] == mode,
{
}

/// The bytes of a 16-bit word, low byte first where the machine puts it first.
pub open spec fn word16(word: u16, little: bool) -> Seq<u8> {
    let (low, high) = ((word % 256) as u8, (word / 256) as u8);
    if little {
        seq![low, high]
    } else {
        seq![high, low]
    }
}

/// The bytes of a 32-bit word, low byte first where the machine puts it first.
pub open spec fn word32(word: u32, little: bool) -> Seq<u8> {
    let (low, high) = ((word % 65536) as u16, (word / 65536) as u16);
    if little {
        word16(low, true) + word16(high, true)
    } else {
        word16(high, false) + word16(low, false)
    }
}

/// `bytes` are those of the words, one after another.
pub open spec fn bytes16(words: Seq<u16>, bytes: Seq<u8>, little: bool) -> bool {
    &&& bytes.len() == 2 * words.len()
    &&& forall|i: int|
        0 <= i < words.len() ==> bytes.subrange(2 * i, 2 * i + 2) == word16(
            #[trigger] words[i],
            little,
        )
}

/// `bytes` are those of the words, one after another.
pub open spec fn bytes32(words: Seq<u32>, bytes: Seq<u8>, little: bool) -> bool {
    &&& bytes.len() == 4 * words.len()
    &&& forall|i: int|
        0 <= i < words.len() ==> bytes.subrange(4 * i, 4 * i + 4) == word32(
            #[trigger] words[i],
            little,
        )
}

/// `bytes` are those of the words, in the order of some machine.
pub open spec fn in_memory16(words: Seq<u16>, bytes: Seq<u8>) -> bool {
    exists|little: bool| bytes16(words, bytes, little)
}

/// `bytes` are those of the words, in the order of some machine.
pub open spec fn in_memory32(words: Seq<u32>, bytes: Seq<u8>) -> bool {
    exists|little: bool| bytes32(words, bytes, little)
}

/// `bytemuck::cast_slice` from `u16` to `u8` gives the words' own bytes, in the order in
/// which the machine holds them in memory: all low byte first, or all high byte first.
#[verifier::external_body]
fn bytes_of_halves(words: &[u16]) -> (bytes: &[u8])
    ensures
        in_memory16(words@, bytes@),
{
    bytemuck::cast_slice(words)
}

/// `bytemuck::cast_slice` from `u32` to `u8` gives the words' own bytes, in the order in
/// which the machine holds them in memory: all low byte first, or all high byte first.
#[verifier::external_body]
fn bytes_of_words(words: &[u32]) -> (bytes: Vec<u8>)
    ensures
        in_memory32(words@, bytes@),
{
    bytemuck::cast_slice(words).to_vec()
}

/// A plane on its way to a texture of one half-precision number per texel.
pub struct PlaneUpload<'a> {
    pub bytes: &'a [u8],
    pub bytes_per_row: u32,
    pub rows_per_image: u32,
}

/// Bytes of a half-precision number.
pub const SAMPLE_BYTES: u32 = 2;

/// A plane as a texture of the given dimensions takes it.
pub fn plane_upload<'a>(plane: &'a [u16], width: u32, height: u32) -> (upload: PlaneUpload<'a>)
    requires
        width * SAMPLE_BYTES <= u32::MAX,
    ensures
        in_memory16(plane@, upload.bytes@),
        upload.bytes_per_row == width * SAMPLE_BYTES,
        upload.bytes_per_row == 2 * width,
        upload.rows_per_image == height,
{
    let bytes = bytes_of_halves(plane);
    PlaneUpload { bytes, bytes_per_row: width * SAMPLE_BYTES, rows_per_image: height }
}

/// The texels of a lookup table as a texture takes them.
pub fn texel_bytes<'a>(rgba: &'a [u16]) -> (bytes: &'a [u8])
    ensures
        in_memory16(rgba@, bytes@),
{
    bytes_of_halves(rgba)
}

/// The dimensions of the textures of an image: its own, as 32-bit numbers.
pub fn texture_extent(img: &ExrImage) -> (extent: (u32, u32))
    ensures
        extent.0 == img.width as u32,
        extent.1 == img.height as u32,
{
    (
        #[verifier::truncate]
        (img.width as u32),
        #[verifier::truncate]
        (img.height as u32),
    )
}

/// The lowest exponent that a lookup table covers: the bits of -6.5.
pub const MIN_EXP: u32 = 0xc0d0_0000;

/// The highest exponent that a lookup table covers: the bits of 6.5.
pub const MAX_EXP: u32 = 0x40d0_0000;

/// Edge length of the table that is shown before one has been baked.
pub const IDENTITY_SIZE: usize = 2;

/// The renderer's own state: what the shader was last told.
#[derive(Debug, Clone, Copy)]
pub struct ExrRenderer {
    channel_mode: u32,
    min_exp: Single,
    max_exp: Single,
}

/// The words of the shader's uniform block: the range of exponents, the channel mode, and
/// a word of padding.
pub open spec fn uniforms(min_exp: Single, max_exp: Single, channel_mode: u32) -> Seq<u32> {
    seq![min_exp.bits, max_exp.bits, channel_mode, 0u32]
}

impl ExrRenderer {
    /// The number of the channel mode.
    pub closed spec fn mode(&self) -> u32 {
        self.channel_mode
    }

    /// The lowest exponent.
    pub closed spec fn lowest(&self) -> Single {
        self.min_exp
    }

    /// The highest exponent.
    pub closed spec fn highest(&self) -> Single {
        self.max_exp
    }

    /// The uniform block is that of a range of exponents and a channel mode.
    pub open spec fn is_block(
        bytes: Seq<u8>,
        min_exp: Single,
        max_exp: Single,
        channel_mode: u32,
    ) -> bool {
        in_memory32(uniforms(min_exp, max_exp, channel_mode), bytes)
    }

    fn block(min_exp: Single, max_exp: Single, channel_mode: u32) -> (bytes: Vec<u8>)
        ensures
            ExrRenderer::is_block(bytes@, min_exp, max_exp, channel_mode),
    {
        let words: [u32; 4] = [min_exp.bits, max_exp.bits, channel_mode, 0];
        assert(words@ =~= uniforms(min_exp, max_exp, channel_mode));
        bytes_of_words(&words)
    }

    /// A renderer that shows all channels over the whole range, and its uniform block.
    pub fn new() -> (out: (Self, Vec<u8>))
        ensures
            out.0.mode() == 0,
            out.0.lowest() == (Single { bits: MIN_EXP }),
            out.0.highest() == (Single { bits: MAX_EXP }),
            ExrRenderer::is_block(
                out.1@,
                Single { bits: MIN_EXP },
                Single { bits: MAX_EXP },
                0,
            ),
    {
        let min_exp = Single { bits: MIN_EXP };
        let max_exp = Single { bits: MAX_EXP };
        (
            ExrRenderer { channel_mode: 0, min_exp, max_exp },
            ExrRenderer::block(min_exp, max_exp, 0),
        )
    }

    /// Changes the channel mode. Hands back the uniform block to write.
    pub fn set_channel_mode(&mut self, mode: u32) -> (block: Vec<u8>)
        ensures
            final(self).mode() == mode,
            final(self).lowest() == old(self).lowest(),
            final(self).highest() == old(self).highest(),
            ExrRenderer::is_block(block@, old(self).lowest(), old(self).highest(), mode),
    {
        self.channel_mode = mode;
        ExrRenderer::block(self.min_exp, self.max_exp, mode)
    }

    /// The uniform block to write along with a lookup table over a range of exponents. The
    /// channel mode stays.
    pub fn set_color_lut(&self, min_exp: Single, max_exp: Single) -> (block: Vec<u8>)
        ensures
            ExrRenderer::is_block(block@, min_exp, max_exp, self.mode()),
    {
        ExrRenderer::block(min_exp, max_exp, self.channel_mode)
    }
}

/// The rows of an upload of a whole plane fill its bytes.
pub proof fn lemma_upload_whole(plane: Seq<u16>, bytes: Seq<u8>, width: u32, height: u32)
    requires
        plane.len() == width * height,
        in_memory16(plane, bytes),
    ensures
        bytes.len() == (width * SAMPLE_BYTES) * height,
{
    assert((width * SAMPLE_BYTES) * height == SAMPLE_BYTES * (width * height)) by (nonlinear_arith);
}

/// The shader's number and the user's name of each mode.
pub proof fn lemma_mode_codes()
    ensures
        ChannelMode::Rgba.number() == 0 && ChannelMode::Rgba.label() == "Rgba"@,
        ChannelMode::Red.number() == 1 && ChannelMode::Red.label() == "Red"@,
        ChannelMode::Green.number() == 2 && ChannelMode::Green.label() == "Green"@,
        ChannelMode::Blue.number() == 3 && ChannelMode::Blue.label() == "Blue"@,
        ChannelMode::Alpha.number() == 4 && ChannelMode::Alpha.label() == "Alpha"@,
        ChannelMode::Luminance.number() == 5 && ChannelMode::Luminance.label() == "Luminance"@,
        ChannelMode::every().len() == 6,
{
}

/// The bytes of samples make up the samples again, two bytes for each in order, all of them with
/// the low byte first or all with the high byte first.
pub proof fn lemma_bytes_make_halves(words: Seq<u16>, bytes: Seq<u8>)
    requires
        in_memory16(words, bytes),
    ensures
        bytes.len() == 2 * words.len(),
        (forall|i: int|
            0 <= i < words.len() ==> bytes[2 * i] + 256 * bytes[2 * i + 1] == #[trigger] words[i])
            || (forall|i: int|
            0 <= i < words.len() ==> bytes[2 * i + 1] + 256 * bytes[2 * i] == #[trigger] words[i]),
{
    let little = choose|little: bool| bytes16(words, bytes, little);
    assert forall|i: int| 0 <= i < words.len() implies if little {
        bytes[2 * i] + 256 * bytes[2 * i + 1] == #[trigger] words[i]
    } else {
        bytes[2 * i + 1] + 256 * bytes[2 * i] == words[i]
    } by {
        let pair = bytes.subrange(2 * i, 2 * i + 2);
        assert(pair == word16(words[i], little));
        assert(pair[0] == bytes[2 * i] && pair[1] == bytes[2 * i + 1]);
    }
}

/// The bytes of words make up the words again, four bytes for each in order, all of them with the
/// lowest byte first or all with the highest byte first.
pub proof fn lemma_bytes_make_words(words: Seq<u32>, bytes: Seq<u8>)
    requires
        in_memory32(words, bytes),
    ensures
        bytes.len() == 4 * words.len(),
        (forall|i: int|
            0 <= i < words.len() ==> bytes[4 * i] + 256 * bytes[4 * i + 1] + 65536 * bytes[4 * i + 2]
                + 16777216 * bytes[4 * i + 3] == #[trigger] words[i]) || (forall|i: int|
            0 <= i < words.len() ==> bytes[4 * i + 3] + 256 * bytes[4 * i + 2] + 65536 * bytes[4 * i
                + 1] + 16777216 * bytes[4 * i] == #[trigger] words[i]),
{
    let little = choose|little: bool| bytes32(words, bytes, little);
    assert forall|i: int| 0 <= i < words.len() implies if little {
        bytes[4 * i] + 256 * bytes[4 * i + 1] + 65536 * bytes[4 * i + 2] + 16777216 * bytes[4 * i
            + 3] == #[trigger] words[i]
    } else {
        bytes[4 * i + 3] + 256 * bytes[4 * i + 2] + 65536 * bytes[4 * i + 1] + 16777216 * bytes[4
            * i] == words[i]
    } by {
        let four = bytes.subrange(4 * i, 4 * i + 4);
        assert(four == word32(words[i], little));
        assert(four[0] == bytes[4 * i] && four[1] == bytes[4 * i + 1] && four[2] == bytes[4 * i + 2]
            && four[3] == bytes[4 * i + 3]);
    }
}

/// The uniform block is four words long: the lowest exponent, the highest, the channel mode, and
/// nothing.
pub proof fn lemma_block_words(bytes: Seq<u8>, min_exp: Single, max_exp: Single, channel_mode: u32)
    requires
        ExrRenderer::is_block(bytes, min_exp, max_exp, channel_mode),
    ensures
        in_memory32(seq![min_exp.bits, max_exp.bits, channel_mode, 0u32], bytes),
        bytes.len() == 16,
{
    lemma_bytes_make_words(uniforms(min_exp, max_exp, channel_mode), bytes);
}

/// A new renderer covers the exponents from -6.5 to 6.5, here by their bits, and shows a table of
/// two cells along each edge until one is baked. A sample takes two bytes.
pub proof fn lemma_renderer_limits()
    ensures
        MIN_EXP == 0xc0d0_0000,
        MAX_EXP == 0x40d0_0000,
        IDENTITY_SIZE == 2,
        SAMPLE_BYTES == 2,
{
}

}
