//! The preview: an image seen through a lookup table.
use vstd::prelude::*;

use crate::grid::lemma_digits;
use crate::lut::far_coord;
use crate::lut::lemma_cell_in_table;
use crate::lut::sample_lut_trilinear;
use crate::lut::table_len;
use crate::lut::trilinear;

verus! {

/// A raster of pixels of three channels, held by `image::ImageBuffer`.
#[verifier::external_body]
pub struct Canvas {
    buffer: image::ImageBuffer<image::Rgb<u8>, Vec<u8>>,
}

/// The width and the height of a raster.
pub uninterp spec fn canvas_size(canvas: Canvas) -> (u32, u32);

/// The channels of the pixels of a raster, row by row.
pub uninterp spec fn canvas_bytes(canvas: Canvas) -> Seq<u8>;

/// Where the channels of a pixel begin.
pub open spec fn pixel_start(width: int, x: int, y: int) -> int {
    3 * (y * width + x)
}

/// The channels of a raster with the pixel that begins at `at` replaced.
pub open spec fn with_pixel(bytes: Seq<u8>, at: int, pixel: [u8; 3]) -> Seq<u8> {
    bytes.update(at, pixel@[0]).update(at + 1, pixel@[1]).update(at + 2, pixel@[2])
}

/// `image::ImageBuffer::new` makes a raster of a width and a height whose channels are all
/// zero. It panics where a row has more channels than an index can count, or the whole
/// more than a vector can hold, and is not called there.
#[verifier::external_body]
fn blank(width: u32, height: u32) -> (canvas: Canvas)
    requires
        3 * width <= usize::MAX,
        3 * width * height <= isize::MAX,
    ensures
        canvas_size(canvas) == (width, height),
        canvas_bytes(canvas) == Seq::new((3 * width * height) as nat, |i: int| 0u8),
{
    Canvas { buffer: image::ImageBuffer::new(width, height) }
}

/// `image::ImageBuffer::put_pixel` replaces the pixel at a column and a row. It panics outside
/// the raster, and is not called there.
#[verifier::external_body]
fn put_pixel(canvas: &mut Canvas, x: u32, y: u32, pixel: [u8; 3])
    requires
        x < canvas_size(*old(canvas)).0,
        y < canvas_size(*old(canvas)).1,
    ensures
        canvas_size(*final(canvas)) == canvas_size(*old(canvas)),
        canvas_bytes(*final(canvas)) == with_pixel(
            canvas_bytes(*old(canvas)),
            pixel_start(canvas_size(*old(canvas)).0 as int, x as int, y as int),
            pixel,
        ),
{
    canvas.buffer.put_pixel(x, y, image::Rgb(pixel))
}

/// `image::ImageBuffer::into_raw` hands out the channels of the pixels, row by row.
#[verifier::external_body]
fn into_raw(canvas: Canvas) -> (bytes: Vec<u8>)
    ensures
        bytes@ == canvas_bytes(canvas),
{
    canvas.buffer.into_raw()
}

/// The arithmetic of a preview.
///
/// - `shape` takes a channel of the image to the scale of the table,
/// - `split` cuts a channel on that scale into a coordinate of the grid and the rest,
/// - `mix` goes a part of the way from one value to another,
/// - `byte` rounds a channel off to a byte.
pub struct Grade<S, C, M, B> {
    pub shape: S,
    pub split: C,
    pub mix: M,
    pub byte: B,
}

impl<S, C, M, B> Grade<S, C, M, B> {
    /// The arithmetic is defined everywhere, and a coordinate lies in the grid.
    pub open spec fn usable<F>(&self, size: usize) -> bool where
        S: Fn(F) -> F,
        C: Fn(F, usize) -> (usize, F),
        M: Fn(F, F, F) -> F,
        B: Fn(F) -> u8,
     {
        &&& forall|v: F| call_requires(self.shape, (v,))
        &&& forall|v: F| call_requires(self.split, (v, size))
        &&& forall|v: F, part: (usize, F)|
            call_ensures(self.split, (v, size), part) ==> part.0 < size
        &&& forall|v: F, w: F, u: F| call_requires(self.mix, (v, w, u))
        &&& forall|v: F| call_requires(self.byte, (v,))
    }

    /// The way of a colour through the table, step by step.
    pub open spec fn steps<F>(
        &self,
        lut: Seq<F>,
        size: usize,
        color: [F; 4],
        shaped: [F; 3],
        parts: [(usize, F); 3],
        display: [F; 3],
        pixel: [u8; 3],
    ) -> bool where
        S: Fn(F) -> F,
        C: Fn(F, usize) -> (usize, F),
        M: Fn(F, F, F) -> F,
        B: Fn(F) -> u8,
     {
        &&& forall|i: int|
            0 <= i < 3 ==> call_ensures(self.shape, (color@[i],), #[trigger] shaped@[i])
        &&& forall|i: int|
            0 <= i < 3 ==> call_ensures(self.split, (shaped@[i], size), #[trigger] parts@[i])
        &&& trilinear(
            self.mix,
            lut,
            size as int,
            (parts@[0].0 as int, parts@[1].0 as int, parts@[2].0 as int),
            (parts@[0].1, parts@[1].1, parts@[2].1),
            display,
        )
        &&& forall|i: int|
            0 <= i < 3 ==> call_ensures(self.byte, (display@[i],), #[trigger] pixel@[i])
    }

    /// A pixel shows a colour: the bytes of what the table holds for it, its fourth channel
    /// left aside.
    pub open spec fn shows<F>(&self, lut: Seq<F>, size: usize, color: [F; 4], pixel: [u8; 3]) -> bool where
        S: Fn(F) -> F,
        C: Fn(F, usize) -> (usize, F),
        M: Fn(F, F, F) -> F,
        B: Fn(F) -> u8,
     {
        exists|shaped: [F; 3], parts: [(usize, F); 3], display: [F; 3]| #[trigger]
            self.steps(lut, size, color, shaped, parts, display, pixel)
    }

    /// The pixel that shows a colour.
    pub fn pixel<F: Copy>(&self, lut: &[F], size: usize, color: [F; 4]) -> (pixel: [u8; 3]) where
        S: Fn(F) -> F,
        C: Fn(F, usize) -> (usize, F),
        M: Fn(F, F, F) -> F,
        B: Fn(F) -> u8,

        requires
            size >= 1,
            table_len(size as int) <= lut.len(),
            self.usable(size),
        ensures
            self.shows(lut@, size, color, pixel),
    {
        let shaped = [(self.shape)(color[0]), (self.shape)(color[1]), (self.shape)(color[2])];
        let parts = [
            (self.split)(shaped[0], size),
            (self.split)(shaped[1], size),
            (self.split)(shaped[2], size),
        ];
        let low = (parts[0].0, parts[1].0, parts[2].0);
        proof {
            lemma_cell_in_table(
                size as int,
                far_coord(size as int, low.0 as int),
                far_coord(size as int, low.1 as int),
                far_coord(size as int, low.2 as int),
            );
        }
        let display = sample_lut_trilinear(
            lut,
            size,
            low,
            (parts[0].1, parts[1].1, parts[2].1),
            &self.mix,
        );
        let pixel = [(self.byte)(display[0]), (self.byte)(display[1]), (self.byte)(display[2])];
        assert(self.steps(lut@, size, color, shaped, parts, display, pixel));
        pixel
    }
}

/// The pixel at a column and a row, in the channels of a raster.
pub open spec fn pixel_at(bytes: Seq<u8>, width: int, x: int, y: int) -> [u8; 3] {
    let at = pixel_start(width, x, y);
    [bytes[at], bytes[at + 1], bytes[at + 2]]
}

/// Each pixel of an image shows its colour, and what the image does not cover is black.
pub open spec fn rendered<F, S, C, M, B>(
    grade: Grade<S, C, M, B>,
    lut: Seq<F>,
    size: usize,
    pixels: Seq<Vec<[F; 4]>>,
    width: u32,
    height: u32,
    bytes: Seq<u8>,
) -> bool where
    S: Fn(F) -> F,
    C: Fn(F, usize) -> (usize, F),
    M: Fn(F, F, F) -> F,
    B: Fn(F) -> u8,
 {
    &&& bytes.len() == 3 * width * height
    &&& forall|x: int, y: int|
        0 <= x < width && 0 <= y < height ==> {
            let pixel = #[trigger] pixel_at(bytes, width as int, x, y);
            if y < pixels.len() && x < pixels[y]@.len() {
                grade.shows(lut, size, pixels[y]@[x], pixel)
            } else {
                pixel == [0u8, 0u8, 0u8]
            }
        }
}

/// Each pixel of an image that comes before a column of a row shows its colour; the rest of the
/// raster is black.
spec fn rendered_before<F, S, C, M, B>(
    grade: Grade<S, C, M, B>,
    lut: Seq<F>,
    size: usize,
    pixels: Seq<Vec<[F; 4]>>,
    width: u32,
    height: u32,
    bytes: Seq<u8>,
    column: int,
    row: int,
) -> bool where
    S: Fn(F) -> F,
    C: Fn(F, usize) -> (usize, F),
    M: Fn(F, F, F) -> F,
    B: Fn(F) -> u8,
 {
    &&& bytes.len() == 3 * width * height
    &&& forall|x: int, y: int|
        0 <= x < width && 0 <= y < height ==> {
            let pixel = #[trigger] pixel_at(bytes, width as int, x, y);
            if y < pixels.len() && x < pixels[y]@.len() && (y < row || y == row && x < column) {
                grade.shows(lut, size, pixels[y]@[x], pixel)
            } else {
                pixel == [0u8, 0u8, 0u8]
            }
        }
}

/// The channels of a pixel of a raster lie within it.
proof fn lemma_pixel_inside(width: int, height: int, x: int, y: int)
    requires
        0 <= x < width,
        0 <= y < height,
    ensures
        0 <= pixel_start(width, x, y),
        pixel_start(width, x, y) + 3 <= 3 * width * height,
{
    assert(0 <= y * width && y * width + width <= width * height) by (nonlinear_arith)
        requires
            0 <= x < width,
            0 <= y < height,
    ;
    assert(3 * width * height == 3 * (width * height)) by (nonlinear_arith);
}

/// A pixel that is put is there, and the others are as they were.
proof fn lemma_put(bytes: Seq<u8>, width: int, height: int, x: int, y: int, pixel: [u8; 3])
    requires
        bytes.len() == 3 * width * height,
        0 <= x < width,
        0 <= y < height,
    ensures
        with_pixel(bytes, pixel_start(width, x, y), pixel).len() == bytes.len(),
        forall|i: int, j: int|
            0 <= i < width && 0 <= j < height ==> #[trigger] pixel_at(
                with_pixel(bytes, pixel_start(width, x, y), pixel),
                width,
                i,
                j,
            ) == if i == x && j == y {
                pixel
            } else {
                pixel_at(bytes, width, i, j)
            },
{
    let after = with_pixel(bytes, pixel_start(width, x, y), pixel);
    lemma_pixel_inside(width, height, x, y);
    assert forall|i: int, j: int| 0 <= i < width && 0 <= j < height implies #[trigger] pixel_at(
        after,
        width,
        i,
        j,
    ) == if i == x && j == y {
        pixel
    } else {
        pixel_at(bytes, width, i, j)
    } by {
        lemma_pixel_inside(width, height, i, j);
        if j * width + i == y * width + x {
            lemma_digits(width, j, i, y, x);
        }
        if i == x && j == y {
            assert(pixel_at(after, width, i, j)@ =~= pixel@);
            assert(pixel_at(after, width, i, j) =~= pixel);
        }
    }
}

/// The channels of an image seen through a lookup table, row by row, on a raster of a width and
/// a height. What the image does not cover stays black.
pub fn render<F: Copy, S, C, M, B>(
    pixels: &Vec<Vec<[F; 4]>>,
    width: u32,
    height: u32,
    lut: &[F],
    size: usize,
    grade: &Grade<S, C, M, B>,
) -> (bytes: Vec<u8>) where
    S: Fn(F) -> F,
    C: Fn(F, usize) -> (usize, F),
    M: Fn(F, F, F) -> F,
    B: Fn(F) -> u8,

    requires
        3 * width <= usize::MAX,
        3 * width * height <= isize::MAX,
        forall|y: int|
            0 <= y < pixels@.len() && (#[trigger] pixels@[y])@.len() > 0 ==> y < height
                && pixels@[y]@.len() <= width,
        size >= 1,
        table_len(size as int) <= lut.len(),
        grade.usable(size),
    ensures
        rendered(*grade, lut@, size, pixels@, width, height, bytes@),
{
    let mut canvas = blank(width, height);
    let rows: usize = pixels.len();
    let mut y: usize = 0;
    assert forall|i: int, j: int| 0 <= i < width && 0 <= j < height implies #[trigger] pixel_at(
        canvas_bytes(canvas),
        width as int,
        i,
        j,
    ) == [0u8, 0u8, 0u8] by {
        lemma_pixel_inside(width as int, height as int, i, j);
        assert(pixel_at(canvas_bytes(canvas), width as int, i, j)@ =~= [0u8, 0u8, 0u8]@);
        assert(pixel_at(canvas_bytes(canvas), width as int, i, j) =~= [0u8, 0u8, 0u8]);
    }
    while y < rows
        invariant
            0 <= y <= rows,
            rows == pixels@.len(),
            forall|j: int|
                0 <= j < pixels@.len() && (#[trigger] pixels@[j])@.len() > 0 ==> j < height
                    && pixels@[j]@.len() <= width,
            size >= 1,
            table_len(size as int) <= lut.len(),
            grade.usable(size),
            canvas_size(canvas) == (width, height),
            rendered_before(
                *grade,
                lut@,
                size,
                pixels@,
                width,
                height,
                canvas_bytes(canvas),
                0,
                y as int,
            ),
        decreases rows - y,
    {
        let row = &pixels[y];
        let columns: usize = row.len();
        let mut x: usize = 0;
        while x < columns
            invariant
                0 <= x <= columns,
                columns > 0 ==> columns <= width && y < height,
                0 <= y < rows,
                rows == pixels@.len(),
                *row == pixels@[y as int],
                columns == row@.len(),
                size >= 1,
                table_len(size as int) <= lut.len(),
                grade.usable(size),
                canvas_size(canvas) == (width, height),
                rendered_before(
                    *grade,
                    lut@,
                    size,
                    pixels@,
                    width,
                    height,
                    canvas_bytes(canvas),
                    x as int,
                    y as int,
                ),
            decreases columns - x,
        {
            let pixel = grade.pixel(lut, size, row[x]);
            proof {
                lemma_put(
                    canvas_bytes(canvas),
                    width as int,
                    height as int,
                    x as int,
                    y as int,
                    pixel,
                );
            }
            put_pixel(&mut canvas, x as u32, y as u32, pixel);
            x = x + 1;
        }
        y = y + 1;
    }
    into_raw(canvas)
}

/// Pixels lie behind one another: the first at the start, the next one three channels on, the next
/// row as many channels on as a row has.
pub proof fn lemma_raster_layout(width: int, x: int, y: int)
    ensures
        pixel_start(width, 0, 0) == 0,
        pixel_start(width, x + 1, y) == pixel_start(width, x, y) + 3,
        pixel_start(width, x, y + 1) == pixel_start(width, x, y) + 3 * width,
{
    assert(0 * width == 0) by (nonlinear_arith);
    assert((y + 1) * width == y * width + width) by (nonlinear_arith);
}

/// Putting a pixel changes its three channels and no others.
pub proof fn lemma_pixel_put(bytes: Seq<u8>, at: int, pixel: [u8; 3], i: int)
    requires
        0 <= at,
        at + 3 <= bytes.len(),
        0 <= i < bytes.len(),
    ensures
        with_pixel(bytes, at, pixel).len() == bytes.len(),
        with_pixel(bytes, at, pixel)[i] == (if at <= i < at + 3 {
            pixel@[i - at]
        } else {
            bytes[i]
        }),
{
}

/// The way of a colour to its pixel, channel by channel: each of the first three is brought to the
/// scale of the table and cut into a coordinate and the rest, the table is read there, and what is
/// read is rounded off to the pixel's channel of the same place.
pub proof fn lemma_shown_channels<F, S, C, M, B>(
    grade: Grade<S, C, M, B>,
    lut: Seq<F>,
    size: usize,
    color: [F; 4],
    pixel: [u8; 3],
) where S: Fn(F) -> F, C: Fn(F, usize) -> (usize, F), M: Fn(F, F, F) -> F, B: Fn(F) -> u8
    requires
        grade.shows(lut, size, color, pixel),
    ensures
        exists|
            r: F,
            g: F,
            b: F,
            pr: (usize, F),
            pg: (usize, F),
            pb: (usize, F),
            display: [F; 3],
        |
            {
                &&& #[trigger] call_ensures(grade.shape, (color@[0],), r)
                &&& #[trigger] call_ensures(grade.shape, (color@[1],), g)
                &&& #[trigger] call_ensures(grade.shape, (color@[2],), b)
                &&& #[trigger] call_ensures(grade.split, (r, size), pr)
                &&& #[trigger] call_ensures(grade.split, (g, size), pg)
                &&& #[trigger] call_ensures(grade.split, (b, size), pb)
                &&& #[trigger] trilinear(
                    grade.mix,
                    lut,
                    size as int,
                    (pr.0 as int, pg.0 as int, pb.0 as int),
                    (pr.1, pg.1, pb.1),
                    display,
                )
                &&& call_ensures(grade.byte, (display@[0],), pixel@[0])
                &&& call_ensures(grade.byte, (display@[1],), pixel@[1])
                &&& call_ensures(grade.byte, (display@[2],), pixel@[2])
            },
{
    let (shaped, parts, display) = choose|
        shaped: [F; 3],
        parts: [(usize, F); 3],
        display: [F; 3],
    | #[trigger]
        grade.steps(lut, size, color, shaped, parts, display, pixel);
    let (r, g, b) = (shaped@[0], shaped@[1], shaped@[2]);
    let (pr, pg, pb) = (parts@[0], parts@[1], parts@[2]);
    assert(call_ensures(grade.shape, (color@[0],), r));
    assert(call_ensures(grade.shape, (color@[1],), g));
    assert(call_ensures(grade.shape, (color@[2],), b));
    assert(call_ensures(grade.split, (r, size), pr));
    assert(call_ensures(grade.split, (g, size), pg));
    assert(call_ensures(grade.split, (b, size), pb));
    assert(trilinear(
        grade.mix,
        lut,
        size as int,
        (pr.0 as int, pg.0 as int, pb.0 as int),
        (pr.1, pg.1, pb.1),
        display,
    ));
    assert(call_ensures(grade.byte, (display@[0],), pixel@[0]));
    assert(call_ensures(grade.byte, (display@[1],), pixel@[1]));
    assert(call_ensures(grade.byte, (display@[2],), pixel@[2]));
}

/// A rendered image shows each pixel at its own column and row, and is black where it has none.
pub proof fn lemma_rendered_pixel<F, S, C, M, B>(
    grade: Grade<S, C, M, B>,
    lut: Seq<F>,
    size: usize,
    pixels: Seq<Vec<[F; 4]>>,
    width: u32,
    height: u32,
    bytes: Seq<u8>,
    x: int,
    y: int,
) where S: Fn(F) -> F, C: Fn(F, usize) -> (usize, F), M: Fn(F, F, F) -> F, B: Fn(F) -> u8
    requires
        rendered(grade, lut, size, pixels, width, height, bytes),
        0 <= x < width,
        0 <= y < height,
    ensures
        bytes.len() == 3 * width * height,
        ({
            let at = 3 * (y * width + x);
            let pixel = [bytes[at], bytes[at + 1], bytes[at + 2]];
            if y < pixels.len() && x < pixels[y]@.len() {
                grade.shows(lut, size, pixels[y]@[x], pixel)
            } else {
                bytes[at] == 0 && bytes[at + 1] == 0 && bytes[at + 2] == 0
            }
        }),
{
    let pixel = pixel_at(bytes, width as int, x, y);
    let at = 3 * (y * width + x);
    assert(pixel@[0] == bytes[at] && pixel@[1] == bytes[at + 1] && pixel@[2] == bytes[at + 2]);
    let black = [0u8, 0u8, 0u8];
    assert(black@[0] == 0 && black@[1] == 0 && black@[2] == 0);
}

}
