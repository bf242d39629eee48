//! Images as planes of half-precision samples.
use vstd::prelude::*;

use crate::number::HALF_ONE;

verus! {

/// An image, one plane of samples per channel. A sample is a half-precision number held
/// by its bits.
#[derive(Debug, Clone)]
pub struct ExrImage {
    pub width: usize,
    pub height: usize,
    pub r: Vec<u16>,
    pub g: Vec<u16>,
    pub b: Vec<u16>,
    pub a: Vec<u16>,
}

impl Default for ExrImage {
    fn default() -> (img: Self)
        ensures
            img.width == 0,
            img.height == 0,
            img.r@.len() == 0,
            img.g@.len() == 0,
            img.b@.len() == 0,
            img.a@.len() == 0,
    {
        ExrImage { width: 0, height: 0, r: Vec::new(), g: Vec::new(), b: Vec::new(), a: Vec::new() }
    }
}

/// The samples of a channel as a file holds them: half-precision numbers, held by their
/// bits, single-precision numbers, or whole numbers.
#[derive(Debug)]
pub enum FlatSamples<F> {
    F16(Vec<u16>),
    F32(Vec<F>),
    U32(Vec<u32>),
}

/// A channel of a layer.
#[derive(Debug)]
pub struct Channel<F> {
    pub name: String,
    pub samples: FlatSamples<F>,
}

/// A layer of a file.
#[derive(Debug)]
pub struct Layer<F> {
    pub width: usize,
    pub height: usize,
    pub channels: Vec<Channel<F>>,
}

/// Why a file gives no image.
#[derive(Debug, Clone, Copy, PartialEq, Eq, Structural)]
pub enum LoadError {
    NoLayers,
    MissingRed,
    MissingGreen,
    MissingBlue,
}

impl LoadError {
    /// The error in words.
    pub open spec fn text(self) -> Seq<char> {
        match self {
            LoadError::NoLayers => "no layers"@,
            LoadError::MissingRed => "missing R channel"@,
            LoadError::MissingGreen => "missing G channel"@,
            LoadError::MissingBlue => "missing B channel"@,
        }
    }

    /// The error in words.
    pub fn message(self) -> (message: &'static str)
        ensures
            message@ == self.text(),
    {
        match self {
            LoadError::NoLayers => "no layers",
            LoadError::MissingRed => "missing R channel",
            LoadError::MissingGreen => "missing G channel",
            LoadError::MissingBlue => "missing B channel",
        }
    }
}

/// A character as a number, a capital of the Latin alphabet as its small letter.
pub open spec fn lower(c: char) -> int {
    if 'A' <= c <= 'Z' {
        c as int + 32
    } else {
        c as int
    }
}

/// Texts are the same but for the case of Latin letters.
pub open spec fn same_letters(a: Seq<char>, b: Seq<char>) -> bool {
    &&& a.len() == b.len()
    &&& forall|i: int| 0 <= i < a.len() ==> lower(#[trigger] a[i]) == lower(b[i])
}

/// The first channel of a name, whatever its case.
pub open spec fn first_named<F>(channels: Seq<Channel<F>>, name: Seq<char>) -> Option<int>
    decreases channels.len(),
{
    if channels.len() == 0 {
        None
    } else {
        match first_named(channels.drop_last(), name) {
            Some(i) => Some(i),
            None => if same_letters(channels.last().name@, name) {
                Some(channels.len() - 1)
            } else {
                None
            },
        }
    }
}

/// `out` are the samples in half precision.
pub open spec fn as_half<F, S: Fn(F) -> u16, I: Fn(u32) -> u16>(
    single: S,
    integer: I,
    samples: FlatSamples<F>,
    out: Seq<u16>,
) -> bool {
    match samples {
        FlatSamples::F16(v) => out == v@,
        FlatSamples::F32(v) => {
            &&& out.len() == v@.len()
            &&& forall|i: int|
                0 <= i < out.len() ==> call_ensures(single, (v@[i],), #[trigger] out[i])
        },
        FlatSamples::U32(v) => {
            &&& out.len() == v@.len()
            &&& forall|i: int|
                0 <= i < out.len() ==> call_ensures(integer, (v@[i],), #[trigger] out[i])
        },
    }
}

/// How many samples a channel has.
pub open spec fn sample_count<F>(samples: FlatSamples<F>) -> nat {
    match samples {
        FlatSamples::F16(v) => v@.len(),
        FlatSamples::F32(v) => v@.len(),
        FlatSamples::U32(v) => v@.len(),
    }
}

/// The image that the first layer of a file holds, or why it holds none.
pub open spec fn loaded<F, S: Fn(F) -> u16, I: Fn(u32) -> u16>(
    single: S,
    integer: I,
    layers: Seq<Layer<F>>,
    result: Result<ExrImage, LoadError>,
) -> bool {
    if layers.len() == 0 {
        result == Err::<ExrImage, LoadError>(LoadError::NoLayers)
    } else {
        let channels = layers[0].channels@;
        match (
            first_named(channels, seq!['R']),
            first_named(channels, seq!['G']),
            first_named(channels, seq!['B']),
        ) {
            (None, _, _) => result == Err::<ExrImage, LoadError>(LoadError::MissingRed),
            (Some(_), None, _) => result == Err::<ExrImage, LoadError>(LoadError::MissingGreen),
            (Some(_), Some(_), None) => result == Err::<ExrImage, LoadError>(
                LoadError::MissingBlue,
            ),
            (Some(r), Some(g), Some(b)) => {
                &&& result matches Ok(img)
                &&& img.width == layers[0].width
                &&& img.height == layers[0].height
                &&& as_half(single, integer, channels[r].samples, img.r@)
                &&& as_half(single, integer, channels[g].samples, img.g@)
                &&& as_half(single, integer, channels[b].samples, img.b@)
                &&& match first_named(channels, seq!['A']) {
                    Some(a) => as_half(single, integer, channels[a].samples, img.a@),
                    None => img.a@ == Seq::new(
                        (img.width * img.height) as nat,
                        |i: int| HALF_ONE,
                    ),
                }
            },
        }
    }
}

/// The layer has a channel of each colour.
pub open spec fn has_colors<F>(layer: Layer<F>) -> bool {
    &&& first_named(layer.channels@, seq!['R']) is Some
    &&& first_named(layer.channels@, seq!['G']) is Some
    &&& first_named(layer.channels@, seq!['B']) is Some
}

/// The first channel of a name, whatever its case: it bears the name, and no channel before
/// it does. There is none only where no channel bears the name.
pub proof fn lemma_first_named_is_first<F>(channels: Seq<Channel<F>>, name: Seq<char>)
    ensures
        match first_named(channels, name) {
            Some(i) => {
                &&& 0 <= i < channels.len()
                &&& same_letters(channels[i].name@, name)
                &&& forall|j: int|
                    0 <= j < i ==> !same_letters(#[trigger] channels[j].name@, name)
            },
            None => forall|j: int|
                0 <= j < channels.len() ==> !same_letters(#[trigger] channels[j].name@, name),
        },
    decreases channels.len(),
{
    if channels.len() > 0 {
        let rest = channels.drop_last();
        lemma_first_named_is_first(rest, name);
        assert(forall|j: int| 0 <= j < rest.len() ==> rest[j] == channels[j]);
    }
}

/// An image has whole planes where the channels of its layer have a sample for each pixel.
pub proof fn lemma_loaded_whole<F, S: Fn(F) -> u16, I: Fn(u32) -> u16>(
    single: S,
    integer: I,
    layers: Seq<Layer<F>>,
    img: ExrImage,
)
    requires
        loaded(single, integer, layers, Ok(img)),
        forall|i: int|
            0 <= i < layers[0].channels@.len() ==> sample_count(
                (#[trigger] layers[0].channels@[i]).samples,
            ) == layers[0].width * layers[0].height,
    ensures
        img.r@.len() == img.width * img.height,
        img.g@.len() == img.width * img.height,
        img.b@.len() == img.width * img.height,
        img.a@.len() == img.width * img.height,
{
    let channels = layers[0].channels@;
    lemma_first_named_is_first(channels, seq!['R']);
    lemma_first_named_is_first(channels, seq!['G']);
    lemma_first_named_is_first(channels, seq!['B']);
    lemma_first_named_is_first(channels, seq!['A']);
    if first_named(channels, seq!['A']) is None {
        assert(0 <= img.width * img.height) by (nonlinear_arith);
    }
}

fn lower_of(c: char) -> (n: u32)
    ensures
        n == lower(c),
{
    if 'A' <= c && c <= 'Z' {
        c as u32 + 32
    } else {
        c as u32
    }
}

/// Whether a text is a single letter, whatever its case.
fn is_letter(text: &str, letter: char) -> (yes: bool)
    ensures
        yes == same_letters(text@, seq![letter]),
{
    let n: usize = text.unicode_len();
    if n != 1 {
        return false;
    }
    let yes = lower_of(text.get_char(0)) == lower_of(letter);
    assert(seq![letter][0] == letter);
    assert(!yes ==> lower(text@[0]) != lower(seq![letter][0]));
    yes
}

/// The samples of the first channel of a name, whatever its case.
fn find_channel<F>(channels: &Vec<Channel<F>>, letter: char) -> (found: Option<&FlatSamples<F>>)
    ensures
        match first_named(channels@, seq![letter]) {
            Some(i) => found == Some(&channels@[i].samples),
            None => found is None,
        },
{
    for i in 0..channels.len()
        invariant
            first_named(channels@.take(i as int), seq![letter]) is None,
    {
        assert(channels@.take(i + 1).drop_last() =~= channels@.take(i as int));
        if is_letter(channels[i].name.as_str(), letter) {
            proof {
                lemma_first_named_prefix(channels@, i + 1, seq![letter]);
            }
            return Some(&channels[i].samples);
        }
    }
    assert(channels@.take(channels@.len() as int) =~= channels@);
    None
}

/// A channel found among the first ones is the one found among all.
proof fn lemma_first_named_prefix<F>(channels: Seq<Channel<F>>, n: int, name: Seq<char>)
    requires
        0 <= n <= channels.len(),
        first_named(channels.take(n), name) is Some,
    ensures
        first_named(channels, name) == first_named(channels.take(n), name),
    decreases channels.len(),
{
    if n < channels.len() {
        assert(channels.drop_last().take(n) =~= channels.take(n));
        lemma_first_named_prefix(channels.drop_last(), n, name);
    } else {
        assert(channels.take(n) =~= channels);
    }
}

/// The samples, where they are in half precision already.
fn channel_to_f16<F>(samples: &FlatSamples<F>) -> (half: Option<&Vec<u16>>)
    ensures
        half == (match *samples {
            FlatSamples::F16(v) => Some(&v),
            _ => None,
        }),
{
    match samples {
        FlatSamples::F16(v) => Some(v),
        _ => None,
    }
}

/// The samples in half precision.
///
/// `single(x)` and `integer(n)` are the half-precision numbers nearest to a
/// single-precision number and to a whole number.
pub fn channel_to_f16_owned<F: Copy, S: Fn(F) -> u16, I: Fn(u32) -> u16>(
    samples: &FlatSamples<F>,
    single: &S,
    integer: &I,
) -> (half: Vec<u16>)
    requires
        forall|x: F| call_requires(single, (x,)),
        forall|n: u32| call_requires(integer, (n,)),
    ensures
        as_half(*single, *integer, *samples, half@),
{
    if let Some(half) = channel_to_f16(samples) {
        return copied(half);
    }
    let mut out: Vec<u16> = Vec::new();
    match samples {
        FlatSamples::F16(v) => {
            return copied(v);
        },
        FlatSamples::F32(v) => {
            for i in 0..v.len()
                invariant
                    forall|x: F| call_requires(single, (x,)),
                    out@.len() == i,
                    forall|k: int|
                        0 <= k < i ==> call_ensures(single, (v@[k],), #[trigger] out@[k]),
            {
                out.push(single(v[i]));
            }
        },
        FlatSamples::U32(v) => {
            for i in 0..v.len()
                invariant
                    forall|n: u32| call_requires(integer, (n,)),
                    out@.len() == i,
                    forall|k: int|
                        0 <= k < i ==> call_ensures(integer, (v@[k],), #[trigger] out@[k]),
            {
                out.push(integer(v[i]));
            }
        },
    }
    out
}

/// Whether an image can be loaded or the reason given why there is none: the pixels of a layer
/// with all colours can be counted.
pub fn can_load<F>(layers: &Vec<Layer<F>>) -> (can: bool)
    ensures
        can == (layers@.len() > 0 && has_colors(layers@[0]) ==> layers@[0].width * layers@[0].height
            <= usize::MAX),
{
    if layers.len() == 0 {
        return true;
    }
    let layer = &layers[0];
    if find_channel(&layer.channels, 'R').is_none() || find_channel(&layer.channels, 'G').is_none()
        || find_channel(&layer.channels, 'B').is_none() {
        return true;
    }
    layer.width.checked_mul(layer.height).is_some()
}

/// The image that the first layer of a file holds: its planes in half precision, opaque
/// where it has no alpha channel.
///
/// `single(x)` and `integer(n)` are the half-precision numbers nearest to a
/// single-precision number and to a whole number.
pub fn load_exr<F: Copy, S: Fn(F) -> u16, I: Fn(u32) -> u16>(
    layers: &Vec<Layer<F>>,
    single: &S,
    integer: &I,
) -> (result: Result<ExrImage, LoadError>)
    requires
        layers@.len() > 0 && has_colors(layers@[0]) ==> layers@[0].width * layers@[0].height
            <= usize::MAX,
        forall|x: F| call_requires(single, (x,)),
        forall|n: u32| call_requires(integer, (n,)),
    ensures
        loaded(*single, *integer, layers@, result),
{
    if layers.len() == 0 {
        return Err(LoadError::NoLayers);
    }
    let layer = &layers[0];
    let r = match find_channel(&layer.channels, 'R') {
        Some(samples) => samples,
        None => {
            return Err(LoadError::MissingRed);
        },
    };
    let g = match find_channel(&layer.channels, 'G') {
        Some(samples) => samples,
        None => {
            return Err(LoadError::MissingGreen);
        },
    };
    let b = match find_channel(&layer.channels, 'B') {
        Some(samples) => samples,
        None => {
            return Err(LoadError::MissingBlue);
        },
    };
    let a = find_channel(&layer.channels, 'A');
    let pixel_count: usize = layer.width * layer.height;
    let alpha: Vec<u16> = match a {
        Some(samples) => channel_to_f16_owned(samples, single, integer),
        None => vec![HALF_ONE; pixel_count],
    };
    assert(a is None ==> alpha@ =~= Seq::new(pixel_count as nat, |i: int| HALF_ONE));
    Ok(
        ExrImage {
            width: layer.width,
            height: layer.height,
            r: channel_to_f16_owned(r, single, integer),
            g: channel_to_f16_owned(g, single, integer),
            b: channel_to_f16_owned(b, single, integer),
            a: alpha,
        },
    )
}

/// A copy of samples.
fn copied(v: &Vec<u16>) -> (out: Vec<u16>)
    ensures
        out@ == v@,
{
    let out = v.clone();
    assert(out@ =~= v@);
    out
}

/// A single Latin letter is matched by itself and by its other case, and by nothing else.
pub proof fn lemma_letter_cases(text: Seq<char>)
    ensures
        same_letters(text, seq!['R']) <==> text == seq!['R'] || text == seq!['r'],
        same_letters(text, seq!['G']) <==> text == seq!['G'] || text == seq!['g'],
        same_letters(text, seq!['B']) <==> text == seq!['B'] || text == seq!['b'],
        same_letters(text, seq!['A']) <==> text == seq!['A'] || text == seq!['a'],
{
    lemma_letter_case(text, 'R', 'r');
    lemma_letter_case(text, 'G', 'g');
    lemma_letter_case(text, 'B', 'b');
    lemma_letter_case(text, 'A', 'a');
}

proof fn lemma_letter_case(text: Seq<char>, capital: char, small: char)
    requires
        'A' <= capital <= 'Z',
        small as int == capital as int + 32,
    ensures
        same_letters(text, seq![capital]) <==> text == seq![capital] || text == seq![small],
{
    assert(seq![capital][0] == capital);
    if same_letters(text, seq![capital]) {
        assert(lower(text[0]) == lower(capital));
        if text[0] == capital {
            assert(text =~= seq![capital]);
        } else {
            assert(text[0] as int == small as int);
            assert(seq![small][0] == small);
            assert(text =~= seq![small]);
        }
    }
}

/// A channel that bears the name of a letter, in either case, and comes before all others that
/// do, is the one that is found. Where no channel bears it, none is found.
proof fn lemma_found<F>(channels: Seq<Channel<F>>, capital: char, small: char, i: int)
    requires
        'A' <= capital <= 'Z',
        small as int == capital as int + 32,
    ensures
        0 <= i < channels.len() && (channels[i].name@ == seq![capital] || channels[i].name@ == seq![
            small,
        ]) && (forall|j: int|
            0 <= j < i ==> (#[trigger] channels[j]).name@ != seq![capital] && channels[j].name@
                != seq![small]) ==> first_named(channels, seq![capital]) == Some(i),
        (forall|j: int|
            0 <= j < channels.len() ==> (#[trigger] channels[j]).name@ != seq![capital]
                && channels[j].name@ != seq![small]) ==> first_named(channels, seq![capital]) is None,
{
    lemma_first_named_is_first(channels, seq![capital]);
    assert forall|j: int| 0 <= j < channels.len() implies (same_letters(
        (#[trigger] channels[j]).name@,
        seq![capital],
    ) <==> channels[j].name@ == seq![capital] || channels[j].name@ == seq![small]) by {
        lemma_letter_case(channels[j].name@, capital, small);
    }
    if first_named(channels, seq![capital]) is Some {
        let f = first_named(channels, seq![capital])->0;
        assert(channels[f].name@ == seq![capital] || channels[f].name@ == seq![small]);
        if 0 <= i < channels.len() && f < i {
            assert(channels[f].name@ == channels[f].name@);
        }
        if 0 <= i < f {
            assert(!same_letters(channels[i].name@, seq![capital]));
        }
    } else if 0 <= i < channels.len() {
        assert(!same_letters(channels[i].name@, seq![capital]));
    }
}

/// The samples of a channel keep their number and their order on the way to half precision, and
/// those that are in half precision already stay as they are.
pub proof fn lemma_half_precision<F, S: Fn(F) -> u16, I: Fn(u32) -> u16>(
    single: S,
    integer: I,
    samples: FlatSamples<F>,
    out: Seq<u16>,
)
    requires
        as_half(single, integer, samples, out),
    ensures
        samples matches FlatSamples::F16(v) ==> out == v@,
        samples matches FlatSamples::F32(v) ==> out.len() == v@.len() && forall|i: int|
            0 <= i < v@.len() ==> call_ensures(single, (v@[i],), #[trigger] out[i]),
        samples matches FlatSamples::U32(v) ==> out.len() == v@.len() && forall|i: int|
            0 <= i < v@.len() ==> call_ensures(integer, (v@[i],), #[trigger] out[i]),
{
}

/// Each plane of an image holds the samples of its own channel, whatever their type: where the
/// first channel of the first layer that is named by the plane's letter, in either case, is the
/// one at `i`, its half-precision samples are the plane, and its other samples are the plane
/// once they are rounded. `plane` counts the planes: red, green, blue, alpha.
pub proof fn lemma_loaded_plane<F, S: Fn(F) -> u16, I: Fn(u32) -> u16>(
    single: S,
    integer: I,
    layers: Seq<Layer<F>>,
    img: ExrImage,
    plane: int,
    i: int,
)
    requires
        loaded(single, integer, layers, Ok(img)),
        0 <= plane < 4,
        0 <= i < layers[0].channels@.len(),
        ({
            let channels = layers[0].channels@;
            let capital = seq!['R', 'G', 'B', 'A'][plane];
            let small = seq!['r', 'g', 'b', 'a'][plane];
            &&& channels[i].name@ == seq![capital] || channels[i].name@ == seq![small]
            &&& forall|j: int|
                0 <= j < i ==> (#[trigger] channels[j]).name@ != seq![capital]
                    && channels[j].name@ != seq![small]
        }),
    ensures
        ({
            let out = seq![img.r@, img.g@, img.b@, img.a@][plane];
            match layers[0].channels@[i].samples {
                FlatSamples::F16(v) => out == v@,
                FlatSamples::F32(v) => out.len() == v@.len() && forall|k: int|
                    0 <= k < v@.len() ==> call_ensures(single, (v@[k],), #[trigger] out[k]),
                FlatSamples::U32(v) => out.len() == v@.len() && forall|k: int|
                    0 <= k < v@.len() ==> call_ensures(integer, (v@[k],), #[trigger] out[k]),
            }
        }),
{
    let channels = layers[0].channels@;
    let capital = seq!['R', 'G', 'B', 'A'][plane];
    let small = seq!['r', 'g', 'b', 'a'][plane];
    let out = seq![img.r@, img.g@, img.b@, img.a@][plane];
    lemma_found(channels, capital, small, i);
    assert(layers.len() > 0) by {
        if layers.len() == 0 {
            assert(loaded(single, integer, layers, Ok(img)));
        }
    }
    assert(as_half(single, integer, channels[i].samples, out)) by {
        if plane == 0 {
            assert(capital == 'R' && out == img.r@);
        } else if plane == 1 {
            assert(capital == 'G' && out == img.g@);
        } else if plane == 2 {
            assert(capital == 'B' && out == img.b@);
        } else {
            assert(capital == 'A' && out == img.a@);
        }
    }
    lemma_half_precision(single, integer, channels[i].samples, out);
}

/// An image has the dimensions of the first layer and, where no channel of it is named A, is
/// opaque throughout: one sample for each pixel, each the number one.
pub proof fn lemma_loaded_extent<F, S: Fn(F) -> u16, I: Fn(u32) -> u16>(
    single: S,
    integer: I,
    layers: Seq<Layer<F>>,
    img: ExrImage,
)
    requires
        loaded(single, integer, layers, Ok(img)),
    ensures
        layers.len() > 0,
        img.width == layers[0].width,
        img.height == layers[0].height,
        (forall|j: int|
            0 <= j < layers[0].channels@.len() ==> (#[trigger] layers[0].channels@[j]).name@ != seq![
                'A',
            ] && layers[0].channels@[j].name@ != seq!['a']) ==> img.a@.len() == img.width
            * img.height && forall|k: int|
            0 <= k < img.a@.len() ==> #[trigger] img.a@[k] == 0x3c00,
{
    lemma_found(layers[0].channels@, 'A', 'a', 0);
    assert(0 <= img.width * img.height) by (nonlinear_arith);
}

/// When a file gives an image and when it gives which error: without layers there is none;
/// otherwise the first of red, green and blue that no channel of the first layer is named by, in
/// either case, is missing; and where all three are there, so is the image. Later layers do not
/// count.
pub proof fn lemma_load_outcome<F, S: Fn(F) -> u16, I: Fn(u32) -> u16>(
    single: S,
    integer: I,
    layers: Seq<Layer<F>>,
    result: Result<ExrImage, LoadError>,
)
    requires
        loaded(single, integer, layers, result),
    ensures
        layers.len() == 0 <==> result == Err::<ExrImage, LoadError>(LoadError::NoLayers),
        layers.len() > 0 ==> {
            let channels = layers[0].channels@;
            let red = exists|j: int|
                0 <= j < channels.len() && ((#[trigger] channels[j]).name@ == seq!['R']
                    || channels[j].name@ == seq!['r']);
            let green = exists|j: int|
                0 <= j < channels.len() && ((#[trigger] channels[j]).name@ == seq!['G']
                    || channels[j].name@ == seq!['g']);
            let blue = exists|j: int|
                0 <= j < channels.len() && ((#[trigger] channels[j]).name@ == seq!['B']
                    || channels[j].name@ == seq!['b']);
            &&& result == Err::<ExrImage, LoadError>(LoadError::MissingRed) <==> !red
            &&& result == Err::<ExrImage, LoadError>(LoadError::MissingGreen) <==> red && !green
            &&& result == Err::<ExrImage, LoadError>(LoadError::MissingBlue) <==> red && green
                && !blue
            &&& result is Ok <==> red && green && blue
        },
{
    if layers.len() > 0 {
        let channels = layers[0].channels@;
        lemma_named_at_all(channels, 'R', 'r');
        lemma_named_at_all(channels, 'G', 'g');
        lemma_named_at_all(channels, 'B', 'b');
    }
}

/// A channel is found if and only if some channel bears the name.
proof fn lemma_named_at_all<F>(channels: Seq<Channel<F>>, capital: char, small: char)
    requires
        'A' <= capital <= 'Z',
        small as int == capital as int + 32,
    ensures
        first_named(channels, seq![capital]) is Some <==> exists|j: int|
            0 <= j < channels.len() && ((#[trigger] channels[j]).name@ == seq![capital]
                || channels[j].name@ == seq![small]),
{
    lemma_first_named_is_first(channels, seq![capital]);
    assert forall|j: int| 0 <= j < channels.len() implies (same_letters(
        (#[trigger] channels[j]).name@,
        seq![capital],
    ) <==> channels[j].name@ == seq![capital] || channels[j].name@ == seq![small]) by {
        lemma_letter_case(channels[j].name@, capital, small);
    }
    if first_named(channels, seq![capital]) is Some {
        let f = first_named(channels, seq![capital])->0;
        assert(channels[f].name@ == seq![capital] || channels[f].name@ == seq![small]);
    } else {
        assert forall|j: int| 0 <= j < channels.len() implies (#[trigger] channels[j]).name@
            != seq![capital] && channels[j].name@ != seq![small] by {
            assert(!same_letters(channels[j].name@, seq![capital]));
        }
    }
}

/// Each error says in words what is missing.
pub proof fn lemma_error_words()
    ensures
        LoadError::NoLayers.text() == "no layers"@,
        LoadError::MissingRed.text() == "missing R channel"@,
        LoadError::MissingGreen.text() == "missing G channel"@,
        LoadError::MissingBlue.text() == "missing B channel"@,
{
}

/// A layer has all colours where some channel is named by each of their letters, in either case.
pub proof fn lemma_colors_named<F>(layer: Layer<F>)
    ensures
        has_colors(layer) <==> {
            let channels = layer.channels@;
            &&& exists|j: int|
                0 <= j < channels.len() && ((#[trigger] channels[j]).name@ == seq!['R']
                    || channels[j].name@ == seq!['r'])
            &&& exists|j: int|
                0 <= j < channels.len() && ((#[trigger] channels[j]).name@ == seq!['G']
                    || channels[j].name@ == seq!['g'])
            &&& exists|j: int|
                0 <= j < channels.len() && ((#[trigger] channels[j]).name@ == seq!['B']
                    || channels[j].name@ == seq!['b'])
        },
{
    lemma_named_at_all(layer.channels@, 'R', 'r');
    lemma_named_at_all(layer.channels@, 'G', 'g');
    lemma_named_at_all(layer.channels@, 'B', 'b');
}

}
