//! Thumbnails of planar images.
//!
//! A plane is a row-major sequence of half-precision samples, each held by its bits. What
//! is computed with sample values comes in as functions.
use std::collections::HashMap;
use std::collections::HashSet;

use vstd::prelude::*;

use crate::exr::ExrImage;
use crate::grid::lemma_earlier;

verus! {

/// Sample at column `x` and row `y`.
pub open spec fn sample(plane: Seq<u16>, width: int, x: int, y: int) -> u16 {
    plane[y * width + x]
}

/// Half of a length, but at least one.
pub open spec fn half_dim(n: int) -> int {
    if n / 2 > 1 {
        n / 2
    } else {
        1
    }
}

/// Number of samples that halving a plane needs: up to the last sample of the last
/// block of two by two.
pub open spec fn half_extent(width: int, height: int) -> int {
    (half_rows(height) - 1) * width + half_rows(width)
}

/// Number of rows, or columns, that halving reads.
pub open spec fn half_rows(n: int) -> int {
    if 2 * half_dim(n) < n {
        2 * half_dim(n)
    } else {
        n
    }
}

/// The second row, or column, of a block, held at the last one.
pub open spec fn block_end(n: int, start: int) -> int {
    if start + 1 < n - 1 {
        start + 1
    } else {
        n - 1
    }
}

/// `v` is the mean of the block of two by two samples that halving puts at `(x, y)`.
pub open spec fn block_mean<Q: Fn(u16, u16, u16, u16) -> u16>(
    quarter: Q,
    src: Seq<u16>,
    width: int,
    height: int,
    x: int,
    y: int,
    v: u16,
) -> bool {
    let (x0, y0) = (2 * x, 2 * y);
    let (x1, y1) = (block_end(width, x0), block_end(height, y0));
    call_ensures(
        quarter,
        (
            sample(src, width, x0, y0),
            sample(src, width, x1, y0),
            sample(src, width, x0, y1),
            sample(src, width, x1, y1),
        ),
        v,
    )
}

/// `dst` is `src` at half its width and half its height.
pub open spec fn halved<Q: Fn(u16, u16, u16, u16) -> u16>(
    quarter: Q,
    src: Seq<u16>,
    width: int,
    height: int,
    dst: Seq<u16>,
) -> bool {
    let (nw, nh) = (half_dim(width), half_dim(height));
    &&& dst.len() == nw * nh
    &&& forall|x: int, y: int|
        0 <= x < nw && 0 <= y < nh ==> block_mean(
            quarter,
            src,
            width,
            height,
            x,
            y,
            #[trigger] sample(dst, nw, x, y),
        )
}

/// Every sample that halving reads lies inside the plane.
proof fn lemma_block_in_plane(width: int, height: int, x: int, y: int)
    requires
        1 <= width,
        1 <= height,
        0 <= x < half_rows(width),
        0 <= y < half_rows(height),
    ensures
        0 <= y * width,
        0 <= y * width + x < half_extent(width, height),
{
    assert(0 <= y * width <= (half_rows(height) - 1) * width) by (nonlinear_arith)
        requires
            0 <= y <= half_rows(height) - 1,
            1 <= width,
    ;
}

/// The plane at half its width and half its height: each sample is the mean of a block of
/// two by two.
///
/// `quarter(a, b, c, d)` is the mean of four samples.
pub fn downsample_half_planar<Q: Fn(u16, u16, u16, u16) -> u16>(
    src: &[u16],
    width: usize,
    height: usize,
    quarter: &Q,
) -> (out: (Vec<u16>, usize, usize))
    requires
        1 <= width,
        1 <= height,
        half_extent(width as int, height as int) <= src.len(),
        forall|a: u16, b: u16, c: u16, d: u16| call_requires(quarter, (a, b, c, d)),
    ensures
        out.1 == half_dim(width as int),
        out.2 == half_dim(height as int),
        halved(*quarter, src@, width as int, height as int, out.0@),
{
    let nw: usize = if width / 2 > 1 { width / 2 } else { 1 };
    let nh: usize = if height / 2 > 1 { height / 2 } else { 1 };
    let ghost (w, h) = (width as int, height as int);
    let mut dst: Vec<u16> = Vec::new();
    assert(0 * nw == 0) by (nonlinear_arith);
    for y in 0..nh
        invariant
            w == width,
            h == height,
            1 <= width,
            1 <= height,
            nw == half_dim(w),
            nh == half_dim(h),
            half_extent(w, h) <= src.len(),
            forall|a: u16, b: u16, c: u16, d: u16| call_requires(quarter, (a, b, c, d)),
            dst@.len() == y * nw,
            forall|i: int, j: int|
                0 <= i < nw && 0 <= j < y ==> block_mean(
                    *quarter,
                    src@,
                    w,
                    h,
                    i,
                    j,
                    #[trigger] sample(dst@, nw as int, i, j),
                ),
    {
        let sy0: usize = y * 2;
        let sy1: usize = if sy0 < height - 1 { sy0 + 1 } else { height - 1 };
        for x in 0..nw
            invariant
                w == width,
                h == height,
                1 <= width,
                1 <= height,
                nw == half_dim(w),
                nh == half_dim(h),
                y < nh,
                sy0 == 2 * y,
                sy1 == block_end(h, sy0 as int),
                half_extent(w, h) <= src.len(),
                forall|a: u16, b: u16, c: u16, d: u16| call_requires(quarter, (a, b, c, d)),
                dst@.len() == y * nw + x,
                forall|i: int, j: int|
                    0 <= i < nw && 0 <= j && (j < y || (j == y && i < x)) ==> block_mean(
                        *quarter,
                        src@,
                        w,
                        h,
                        i,
                        j,
                        #[trigger] sample(dst@, nw as int, i, j),
                    ),
        {
            let sx0: usize = x * 2;
            let sx1: usize = if sx0 < width - 1 { sx0 + 1 } else { width - 1 };
            proof {
                lemma_block_in_plane(w, h, sx0 as int, sy0 as int);
                lemma_block_in_plane(w, h, sx1 as int, sy0 as int);
                lemma_block_in_plane(w, h, sx0 as int, sy1 as int);
                lemma_block_in_plane(w, h, sx1 as int, sy1 as int);
            }
            let v: u16 = quarter(
                src[sy0 * width + sx0],
                src[sy0 * width + sx1],
                src[sy1 * width + sx0],
                src[sy1 * width + sx1],
            );
            let ghost before = dst@;
            dst.push(v);
            assert forall|i: int, j: int|
                0 <= i < nw && 0 <= j && (j < y || (j == y && i < x + 1)) implies block_mean(
                *quarter,
                src@,
                w,
                h,
                i,
                j,
                #[trigger] sample(dst@, nw as int, i, j),
            ) by {
                if j < y || i < x {
                    lemma_earlier(nw as int, j, i, y as int, x as int);
                    assert(sample(dst@, nw as int, i, j) == sample(before, nw as int, i, j));
                }
            }
        }
        assert((y + 1) * nw == y * nw + nw) by (nonlinear_arith);
    }
    assert(nh * nw == nw * nh) by (nonlinear_arith);
    (dst, nw, nh)
}

/// First source column, or row, of box `i`.
pub open spec fn box_start(edges: Seq<usize>, i: int) -> int {
    edges[i] as int
}

/// End of the source columns, or rows, of box `i`: the next edge, but at least one past
/// the start and at most the end of the source.
pub open spec fn box_end(edges: Seq<usize>, limit: int, i: int) -> int {
    let end = if edges[i + 1] > edges[i] + 1 {
        edges[i + 1] as int
    } else {
        edges[i] + 1
    };
    if end < limit {
        end
    } else {
        limit
    }
}

/// Number of source columns, or rows, of box `i`.
pub open spec fn box_len(edges: Seq<usize>, limit: int, i: int) -> int {
    if box_start(edges, i) < box_end(edges, limit, i) {
        box_end(edges, limit, i) - box_start(edges, i)
    } else {
        0
    }
}

/// The samples of a box, row by row.
pub open spec fn box_samples(
    src: Seq<u16>,
    width: int,
    x0: int,
    y0: int,
    columns: int,
    rows: int,
) -> Seq<u16> {
    Seq::new(
        (rows * columns) as nat,
        |k: int| sample(src, width, x0 + k % columns, y0 + k / columns),
    )
}

/// `acc` is what adding the samples in order to `zero` gives.
pub open spec fn summed<A, P: Fn(A, u16) -> A>(
    plus: P,
    zero: A,
    samples: Seq<u16>,
    acc: A,
) -> bool
    decreases samples.len(),
{
    if samples.len() == 0 {
        acc == zero
    } else {
        exists|prev: A|
            summed(plus, zero, samples.drop_last(), prev) && #[trigger] call_ensures(
                plus,
                (prev, samples.last()),
                acc,
            )
    }
}

/// `v` is the mean of the samples: their sum, divided by how many they are.
pub open spec fn mean<A, P: Fn(A, u16) -> A, D: Fn(A, usize) -> u16>(
    plus: P,
    divide: D,
    zero: A,
    samples: Seq<u16>,
    v: u16,
) -> bool {
    exists|acc: A|
        #[trigger] summed(plus, zero, samples, acc) && call_ensures(
            divide,
            (acc, samples.len() as usize),
            v,
        )
}

/// The samples of the box that lies under `(x, y)` of a scaled plane.
pub open spec fn box_under(
    src: Seq<u16>,
    width: int,
    height: int,
    x_edges: Seq<usize>,
    y_edges: Seq<usize>,
    x: int,
    y: int,
) -> Seq<u16> {
    box_samples(
        src,
        width,
        box_start(x_edges, x),
        box_start(y_edges, y),
        box_len(x_edges, width, x),
        box_len(y_edges, height, y),
    )
}

/// `dst` is `src` scaled to `dst_w` by `dst_h` boxes with the given edges.
pub open spec fn boxed<A, P: Fn(A, u16) -> A, D: Fn(A, usize) -> u16>(
    plus: P,
    divide: D,
    zero: A,
    src: Seq<u16>,
    width: int,
    height: int,
    x_edges: Seq<usize>,
    y_edges: Seq<usize>,
    dst: Seq<u16>,
) -> bool {
    let (dst_w, dst_h) = (x_edges.len() - 1, y_edges.len() - 1);
    &&& dst.len() == dst_w * dst_h
    &&& forall|x: int, y: int|
        0 <= x < dst_w && 0 <= y < dst_h ==> mean(
            plus,
            divide,
            zero,
            box_under(src, width, height, x_edges, y_edges, x, y),
            #[trigger] sample(dst, dst_w, x, y),
        )
}

proof fn lemma_summed_step<A, P: Fn(A, u16) -> A>(
    plus: P,
    zero: A,
    samples: Seq<u16>,
    k: int,
    prev: A,
    acc: A,
)
    requires
        0 <= k < samples.len(),
        summed(plus, zero, samples.take(k), prev),
        call_ensures(plus, (prev, samples[k]), acc),
    ensures
        summed(plus, zero, samples.take(k + 1), acc),
{
    let more = samples.take(k + 1);
    assert(more.drop_last() =~= samples.take(k));
    assert(call_ensures(plus, (prev, more.last()), acc));
}

/// The mean of one box.
fn box_mean<A, P: Fn(A, u16) -> A, D: Fn(A, usize) -> u16>(
    src: &[u16],
    width: usize,
    columns: (usize, usize),
    rows: (usize, usize),
    zero: A,
    plus: &P,
    divide: &D,
) -> (v: u16)
    requires
        columns.0 < columns.1 && rows.0 < rows.1 ==> columns.1 <= width && (rows.1 - 1) * width
            + columns.1 <= src.len(),
        forall|acc: A, s: u16| call_requires(plus, (acc, s)),
        forall|acc: A, n: usize| call_requires(divide, (acc, n)),
    ensures
        mean(
            *plus,
            *divide,
            zero,
            box_samples(
                src@,
                width as int,
                columns.0 as int,
                rows.0 as int,
                if columns.0 < columns.1 {
                    columns.1 - columns.0
                } else {
                    0
                },
                if rows.0 < rows.1 {
                    rows.1 - rows.0
                } else {
                    0
                },
            ),
            v,
        ),
{
    let (x0, x1) = columns;
    let (y0, y1) = rows;
    let ghost w = width as int;
    let ghost nc = if x0 < x1 { x1 - x0 } else { 0 };
    let ghost nr = if y0 < y1 { y1 - y0 } else { 0 };
    let ghost all = box_samples(src@, w, x0 as int, y0 as int, nc, nr);
    let mut acc: A = zero;
    let mut count: usize = 0;
    assert(all.take(0) =~= Seq::<u16>::empty());
    let mut y: usize = y0;
    assert((y - y0) * nc == 0) by (nonlinear_arith)
        requires
            y == y0,
    ;
    while y < y1
        invariant
            y0 <= y,
            y0 < y1 ==> y <= y1,
            w == width,
            nc == (if x0 < x1 { x1 - x0 } else { 0 }),
            nr == (if y0 < y1 { y1 - y0 } else { 0 }),
            all == box_samples(src@, w, x0 as int, y0 as int, nc, nr),
            x0 < x1 && y0 < y1 ==> x1 <= width && (y1 - 1) * width + x1 <= src.len(),
            forall|acc: A, s: u16| call_requires(plus, (acc, s)),
            count == (y - y0) * nc,
            summed(*plus, zero, all.take(count as int), acc),
            y0 >= y1 ==> y == y0,
        decreases y1 - y,
    {
        let mut x: usize = x0;
        let ghost start = count as int;
        while x < x1
            invariant
                x0 <= x,
                y0 <= y < y1,
                x0 < x1 ==> x <= x1,
                w == width,
                nc == (if x0 < x1 { x1 - x0 } else { 0 }),
                nr == y1 - y0,
                all == box_samples(src@, w, x0 as int, y0 as int, nc, nr),
                x0 < x1 && y0 < y1 ==> x1 <= width && (y1 - 1) * width + x1 <= src.len(),
                forall|acc: A, s: u16| call_requires(plus, (acc, s)),
                start == (y - y0) * nc,
                count == start + (x - x0),
                summed(*plus, zero, all.take(count as int), acc),
                x0 >= x1 ==> x == x0,
            decreases x1 - x,
        {
            let ghost k = count as int;
            proof {
                let (dy, dx) = (y - y0, x - x0);
                assert(0 <= y * w && y * w + x < (y1 - 1) * w + x1) by (nonlinear_arith)
                    requires
                        0 <= y <= y1 - 1,
                        0 <= x < x1,
                        0 <= w,
                ;
                assert(k < nr * nc && dy * nc <= y * w) by (nonlinear_arith)
                    requires
                        k == dy * nc + dx,
                        0 <= dx < nc,
                        0 <= dy < nr,
                        dy <= y,
                        0 <= nc <= w,
                ;
                vstd::arithmetic::div_mod::lemma_fundamental_div_mod_converse(k, nc, dy, dx);
                assert(all[k] == src@[y * w + x]);
            }
            let ghost prev = acc;
            acc = plus(acc, src[y * width + x]);
            count = count + 1;
            proof {
                lemma_summed_step(*plus, zero, all, k, prev, acc);
            }
            x = x + 1;
        }
        assert((y + 1 - y0) * nc == (y - y0) * nc + nc) by (nonlinear_arith);
        y = y + 1;
    }
    assert(count == nr * nc) by (nonlinear_arith)
        requires
            count == (y - y0) * nc,
            y - y0 == nr,
    ;
    assert(all.take(count as int) =~= all);
    divide(acc, count)
}

/// Every box under the scaled plane lies inside the source.
pub open spec fn boxes_fit(
    src_len: int,
    width: int,
    height: int,
    x_edges: Seq<usize>,
    y_edges: Seq<usize>,
) -> bool {
    forall|x: int, y: int|
        #![trigger box_len(x_edges, width, x), box_len(y_edges, height, y)]
        0 <= x < x_edges.len() - 1 && 0 <= y < y_edges.len() - 1 && 0 < box_len(x_edges, width, x)
            && 0 < box_len(y_edges, height, y) ==> (box_end(y_edges, height, y) - 1) * width
            + box_end(x_edges, width, x) <= src_len
}

/// End of the source columns, or rows, of box `i`.
fn end_of_box(edges: &[usize], limit: usize, i: usize) -> (end: usize)
    requires
        i + 1 < edges.len(),
        edges[i as int] < usize::MAX,
    ensures
        end == box_end(edges@, limit as int, i as int),
{
    let after: usize = edges[i] + 1;
    let end: usize = if edges[i + 1] > after { edges[i + 1] } else { after };
    if end < limit { end } else { limit }
}

/// The plane scaled by boxes with the given edges: each sample is the mean of the box of
/// source samples under it. There is one more edge on an axis than there are boxes.
fn scale_by_boxes<A: Copy, P: Fn(A, u16) -> A, D: Fn(A, usize) -> u16>(
    src: &[u16],
    src_w: usize,
    src_h: usize,
    x_edges: &[usize],
    y_edges: &[usize],
    zero: A,
    plus: &P,
    divide: &D,
) -> (dst: Vec<u16>)
    requires
        1 <= x_edges.len(),
        1 <= y_edges.len(),
        (x_edges.len() - 1) * (y_edges.len() - 1) <= usize::MAX,
        forall|i: int| 0 <= i < x_edges.len() - 1 ==> #[trigger] x_edges[i] < usize::MAX,
        forall|i: int| 0 <= i < y_edges.len() - 1 ==> #[trigger] y_edges[i] < usize::MAX,
        boxes_fit(src.len() as int, src_w as int, src_h as int, x_edges@, y_edges@),
        forall|acc: A, s: u16| call_requires(plus, (acc, s)),
        forall|acc: A, n: usize| call_requires(divide, (acc, n)),
    ensures
        boxed(
            *plus,
            *divide,
            zero,
            src@,
            src_w as int,
            src_h as int,
            x_edges@,
            y_edges@,
            dst@,
        ),
{
    let dst_w: usize = x_edges.len() - 1;
    let dst_h: usize = y_edges.len() - 1;
    let ghost (w, h) = (src_w as int, src_h as int);
    let mut dst: Vec<u16> = Vec::new();
    assert(0 * dst_w == 0) by (nonlinear_arith);
    for dy in 0..dst_h
        invariant
            w == src_w,
            h == src_h,
            dst_w == x_edges.len() - 1,
            dst_h == y_edges.len() - 1,
            forall|i: int| 0 <= i < dst_w ==> #[trigger] x_edges[i] < usize::MAX,
            forall|i: int| 0 <= i < dst_h ==> #[trigger] y_edges[i] < usize::MAX,
            boxes_fit(src.len() as int, w, h, x_edges@, y_edges@),
            forall|acc: A, s: u16| call_requires(plus, (acc, s)),
            forall|acc: A, n: usize| call_requires(divide, (acc, n)),
            dst@.len() == dy * dst_w,
            forall|i: int, j: int|
                0 <= i < dst_w && 0 <= j < dy ==> mean(
                    *plus,
                    *divide,
                    zero,
                    box_under(src@, w, h, x_edges@, y_edges@, i, j),
                    #[trigger] sample(dst@, dst_w as int, i, j),
                ),
    {
        let sy0: usize = y_edges[dy];
        let sy1: usize = end_of_box(y_edges, src_h, dy);
        for dx in 0..dst_w
            invariant
                w == src_w,
                h == src_h,
                dst_w == x_edges.len() - 1,
                dst_h == y_edges.len() - 1,
                dy < dst_h,
                sy0 == box_start(y_edges@, dy as int),
                sy1 == box_end(y_edges@, h, dy as int),
                forall|i: int| 0 <= i < dst_w ==> #[trigger] x_edges[i] < usize::MAX,
                forall|i: int| 0 <= i < dst_h ==> #[trigger] y_edges[i] < usize::MAX,
                boxes_fit(src.len() as int, w, h, x_edges@, y_edges@),
                forall|acc: A, s: u16| call_requires(plus, (acc, s)),
                forall|acc: A, n: usize| call_requires(divide, (acc, n)),
                dst@.len() == dy * dst_w + dx,
                forall|i: int, j: int|
                    0 <= i < dst_w && 0 <= j && (j < dy || (j == dy && i < dx)) ==> mean(
                        *plus,
                        *divide,
                        zero,
                        box_under(src@, w, h, x_edges@, y_edges@, i, j),
                        #[trigger] sample(dst@, dst_w as int, i, j),
                    ),
        {
            let sx0: usize = x_edges[dx];
            let sx1: usize = end_of_box(x_edges, src_w, dx);
            assert(0 < box_len(x_edges@, w, dx as int) && 0 < box_len(y_edges@, h, dy as int) ==> (
            sy1 - 1) * w + sx1 <= src.len());
            let v: u16 = box_mean(src, src_w, (sx0, sx1), (sy0, sy1), zero, plus, divide);
            let ghost before = dst@;
            dst.push(v);
            assert forall|i: int, j: int|
                0 <= i < dst_w && 0 <= j && (j < dy || (j == dy && i < dx + 1)) implies mean(
                *plus,
                *divide,
                zero,
                box_under(src@, w, h, x_edges@, y_edges@, i, j),
                #[trigger] sample(dst@, dst_w as int, i, j),
            ) by {
                if j < dy || i < dx {
                    lemma_earlier(dst_w as int, j, i, dy as int, dx as int);
                    assert(sample(dst@, dst_w as int, i, j) == sample(before, dst_w as int, i, j));
                }
            }
        }
        assert((dy + 1) * dst_w == dy * dst_w + dst_w) by (nonlinear_arith);
    }
    assert(dst_h * dst_w == dst_w * dst_h) by (nonlinear_arith);
    dst
}

/// The edges that divide an axis of `src` samples into `dst` boxes.
pub open spec fn axis_edges<E: Fn(usize, usize, usize) -> usize>(
    edge: E,
    src: usize,
    dst: usize,
    edges: Seq<usize>,
) -> bool {
    &&& edges.len() == dst + 1
    &&& forall|i: int|
        0 <= i <= dst ==> call_ensures(edge, (i as usize, src, dst), #[trigger] edges[i])
}

/// `dst` is `src` scaled to `dst_w` by `dst_h`.
pub open spec fn scaled<
    A,
    E: Fn(usize, usize, usize) -> usize,
    P: Fn(A, u16) -> A,
    D: Fn(A, usize) -> u16,
>(
    edge: E,
    plus: P,
    divide: D,
    zero: A,
    src: Seq<u16>,
    src_w: usize,
    src_h: usize,
    dst_w: usize,
    dst_h: usize,
    dst: Seq<u16>,
) -> bool {
    &&& dst.len() == dst_w * dst_h
    &&& dst_w > 0 && dst_h > 0 ==> exists|x_edges: Seq<usize>, y_edges: Seq<usize>|
        {
            &&& #[trigger] axis_edges(edge, src_w, dst_w, x_edges)
            &&& #[trigger] axis_edges(edge, src_h, dst_h, y_edges)
            &&& boxed(
                plus,
                divide,
                zero,
                src,
                src_w as int,
                src_h as int,
                x_edges,
                y_edges,
                dst,
            )
        }
}

/// The edges of an axis.
fn edges_of_axis<E: Fn(usize, usize, usize) -> usize>(
    src: usize,
    dst: usize,
    edge: &E,
) -> (edges: Vec<usize>)
    requires
        dst < usize::MAX,
        forall|i: usize, s: usize, d: usize| call_requires(edge, (i, s, d)),
    ensures
        axis_edges(*edge, src, dst, edges@),
{
    let mut edges: Vec<usize> = Vec::new();
    for i in 0..dst + 1
        invariant
            dst < usize::MAX,
            forall|i: usize, s: usize, d: usize| call_requires(edge, (i, s, d)),
            edges@.len() == i,
            forall|k: int|
                0 <= k < i ==> call_ensures(edge, (k as usize, src, dst), #[trigger] edges@[k]),
    {
        edges.push(edge(i, src, dst));
    }
    edges
}

/// The plane scaled to other dimensions: each sample is the mean of the box of source
/// samples under it.
///
/// `edge(i, src, dst)` is where box `i` of `dst` boxes starts on an axis of `src` samples.
/// `plus(acc, s)` adds a sample to a sum that starts at `zero`, and `divide(acc, n)` is
/// the sample nearest to an `n`-th of a sum.
pub fn downsample_box_planar<
    A: Copy,
    E: Fn(usize, usize, usize) -> usize,
    P: Fn(A, u16) -> A,
    D: Fn(A, usize) -> u16,
>(
    src: &[u16],
    src_w: usize,
    src_h: usize,
    dst_w: usize,
    dst_h: usize,
    edge: &E,
    zero: A,
    plus: &P,
    divide: &D,
) -> (dst: Vec<u16>)
    requires
        dst_w * dst_h < usize::MAX,
        forall|i: usize, s: usize, d: usize| call_requires(edge, (i, s, d)),
        forall|i: usize, s: usize, d: usize, e: usize|
            i < d && call_ensures(edge, (i, s, d), e) ==> e < usize::MAX,
        forall|x_edges: Seq<usize>, y_edges: Seq<usize>|
            #[trigger] axis_edges(*edge, src_w, dst_w, x_edges) && #[trigger] axis_edges(
                *edge,
                src_h,
                dst_h,
                y_edges,
            ) ==> boxes_fit(src.len() as int, src_w as int, src_h as int, x_edges, y_edges),
        forall|acc: A, s: u16| call_requires(plus, (acc, s)),
        forall|acc: A, n: usize| call_requires(divide, (acc, n)),
    ensures
        scaled(*edge, *plus, *divide, zero, src@, src_w, src_h, dst_w, dst_h, dst@),
{
    if dst_w == 0 || dst_h == 0 {
        return Vec::new();
    }
    assert(dst_w <= dst_w * dst_h && dst_h <= dst_w * dst_h) by (nonlinear_arith)
        requires
            1 <= dst_w,
            1 <= dst_h,
    ;
    let x_edges = edges_of_axis(src_w, dst_w, edge);
    let y_edges = edges_of_axis(src_h, dst_h, edge);
    assert forall|i: int| 0 <= i < dst_w implies #[trigger] x_edges@[i] < usize::MAX by {
        assert(call_ensures(edge, (i as usize, src_w, dst_w), x_edges@[i]));
    }
    assert forall|i: int| 0 <= i < dst_h implies #[trigger] y_edges@[i] < usize::MAX by {
        assert(call_ensures(edge, (i as usize, src_h, dst_h), y_edges@[i]));
    }
    scale_by_boxes(src, src_w, src_h, &x_edges, &y_edges, zero, plus, divide)
}

/// What thumbnails compute with sample values.
///
/// `quarter(a, b, c, d)` is the mean of four samples. `edge(i, src, dst)` is where box `i`
/// of `dst` boxes starts on an axis of `src` samples. `plus(acc, s)` adds a sample to a
/// sum that starts at `zero`, and `divide(acc, n)` is the sample nearest to an `n`-th of a
/// sum.
pub struct Kernel<A, Q, E, P, D> {
    pub quarter: Q,
    pub edge: E,
    pub zero: A,
    pub plus: P,
    pub divide: D,
}

impl<
    A,
    Q: Fn(u16, u16, u16, u16) -> u16,
    E: Fn(usize, usize, usize) -> usize,
    P: Fn(A, u16) -> A,
    D: Fn(A, usize) -> u16,
> Kernel<A, Q, E, P, D> {
    /// The functions answer on every argument, and no box starts at the largest index.
    pub open spec fn usable(self) -> bool {
        &&& forall|a: u16, b: u16, c: u16, d: u16| call_requires(self.quarter, (a, b, c, d))
        &&& forall|i: usize, s: usize, d: usize| call_requires(self.edge, (i, s, d))
        &&& forall|acc: A, s: u16| call_requires(self.plus, (acc, s))
        &&& forall|acc: A, n: usize| call_requires(self.divide, (acc, n))
        &&& forall|i: usize, s: usize, d: usize, e: usize|
            i < d && call_ensures(self.edge, (i, s, d), e) ==> e < usize::MAX
    }

    /// Means of one and the same sample, of up to `most` of it, are that sample, and every box
    /// starts inside its axis.
    pub open spec fn steady(self, v: u16, most: int) -> bool {
        &&& forall|m: u16| call_ensures(self.quarter, (v, v, v, v), m) ==> m == v
        &&& forall|samples: Seq<u16>, m: u16|
            flat(samples, v) && 0 < samples.len() <= most && #[trigger] mean(
                self.plus,
                self.divide,
                self.zero,
                samples,
                m,
            ) ==> m == v
        &&& forall|i: usize, s: usize, d: usize, e: usize|
            i < d && 1 <= s && call_ensures(self.edge, (i, s, d), e) ==> e < s
    }

    /// A plane can be halved once more and still cover the target.
    pub open spec fn shrinks(w: int, h: int, tw: int, th: int) -> bool {
        &&& 1 <= w && 1 <= h && (1 <= tw || 1 <= th)
        &&& w / 2 >= tw && h / 2 >= th
    }

    /// `(out, ow, oh)` is what is left of a plane that is halved for as long as it still
    /// covers the target.
    pub open spec fn shrunk(
        self,
        src: Seq<u16>,
        w: int,
        h: int,
        tw: int,
        th: int,
        out: (Seq<u16>, int, int),
    ) -> bool
        decreases w + h,
    {
        if Self::shrinks(w, h, tw, th) {
            exists|mid: Seq<u16>|
                #[trigger] halved(self.quarter, src, w, h, mid) && self.shrunk(
                    mid,
                    half_dim(w),
                    half_dim(h),
                    tw,
                    th,
                    out,
                )
        } else {
            out == (src, w, h)
        }
    }

    /// `dst` is the thumbnail of a plane: halved once, halved on for as long as it covers
    /// the target, and scaled to the target where its dimensions are others.
    pub open spec fn thumb(
        self,
        src: Seq<u16>,
        w: int,
        h: int,
        tw: usize,
        th: usize,
        dst: Seq<u16>,
    ) -> bool {
        exists|first: Seq<u16>, last: (Seq<u16>, int, int)|
            {
                &&& #[trigger] halved(self.quarter, src, w, h, first)
                &&& #[trigger] self.shrunk(
                    first,
                    half_dim(w),
                    half_dim(h),
                    tw as int,
                    th as int,
                    last,
                )
                &&& if last.1 == tw && last.2 == th {
                    dst == last.0
                } else {
                    scaled(
                        self.edge,
                        self.plus,
                        self.divide,
                        self.zero,
                        last.0,
                        last.1 as usize,
                        last.2 as usize,
                        tw,
                        th,
                        dst,
                    )
                }
            }
    }
}

/// A whole plane has a sample under every box.
proof fn lemma_plane_covers(
    len: int,
    width: int,
    height: int,
    x_edges: Seq<usize>,
    y_edges: Seq<usize>,
)
    requires
        len == width * height,
    ensures
        boxes_fit(len, width, height, x_edges, y_edges),
{
    assert forall|x: int, y: int|
        #![trigger box_len(x_edges, width, x), box_len(y_edges, height, y)]
        0 <= x < x_edges.len() - 1 && 0 <= y < y_edges.len() - 1 && 0 < box_len(x_edges, width, x)
            && 0 < box_len(y_edges, height, y) implies (box_end(y_edges, height, y) - 1) * width
        + box_end(x_edges, width, x) <= len by {
        let (ex, ey) = (box_end(x_edges, width, x), box_end(y_edges, height, y));
        assert((ey - 1) * width + ex <= width * height) by (nonlinear_arith)
            requires
                0 <= ex <= width,
                ey <= height,
        ;
    }
}

/// A whole plane can be halved.
proof fn lemma_plane_halves(width: int, height: int)
    requires
        1 <= width,
        1 <= height,
    ensures
        half_extent(width, height) <= width * height,
{
    assert((half_rows(height) - 1) * width + half_rows(width) <= width * height) by (
        nonlinear_arith)
        requires
            half_rows(width) <= width,
            half_rows(height) <= height,
            0 <= width,
    ;
}

/// The thumbnail of one plane.
fn thumb_plane<
    A: Copy,
    Q: Fn(u16, u16, u16, u16) -> u16,
    E: Fn(usize, usize, usize) -> usize,
    P: Fn(A, u16) -> A,
    D: Fn(A, usize) -> u16,
>(
    src: &[u16],
    width: usize,
    height: usize,
    target_w: usize,
    target_h: usize,
    kernel: &Kernel<A, Q, E, P, D>,
) -> (dst: Vec<u16>)
    requires
        1 <= width,
        1 <= height,
        half_extent(width as int, height as int) <= src.len(),
        1 <= target_w || 1 <= target_h,
        target_w * target_h < usize::MAX,
        kernel.usable(),
    ensures
        dst@.len() == target_w * target_h,
        kernel.thumb(src@, width as int, height as int, target_w, target_h, dst@),
{
    let (first, nw, nh) = downsample_half_planar(src, width, height, &kernel.quarter);
    let ghost first_samples = first@;
    let mut buf: Vec<u16> = first;
    let mut w: usize = nw;
    let mut h: usize = nh;
    while w / 2 >= target_w && h / 2 >= target_h
        invariant
            1 <= w,
            1 <= h,
            buf@.len() == w * h,
            1 <= target_w || 1 <= target_h,
            kernel.usable(),
            forall|out: (Seq<u16>, int, int)|
                kernel.shrunk(
                    buf@,
                    w as int,
                    h as int,
                    target_w as int,
                    target_h as int,
                    out,
                ) ==> #[trigger] kernel.shrunk(
                    first_samples,
                    nw as int,
                    nh as int,
                    target_w as int,
                    target_h as int,
                    out,
                ),
        decreases w + h,
    {
        proof {
            lemma_plane_halves(w as int, h as int);
        }
        let (next, next_w, next_h) = downsample_half_planar(&buf, w, h, &kernel.quarter);
        assert forall|out: (Seq<u16>, int, int)|
            kernel.shrunk(
                next@,
                next_w as int,
                next_h as int,
                target_w as int,
                target_h as int,
                out,
            ) implies #[trigger] kernel.shrunk(
            first_samples,
            nw as int,
            nh as int,
            target_w as int,
            target_h as int,
            out,
        ) by {
            assert(halved(kernel.quarter, buf@, w as int, h as int, next@));
            assert(kernel.shrunk(
                buf@,
                w as int,
                h as int,
                target_w as int,
                target_h as int,
                out,
            ));
        }
        buf = next;
        w = next_w;
        h = next_h;
    }
    let ghost last = (buf@, w as int, h as int);
    assert(kernel.shrunk(buf@, w as int, h as int, target_w as int, target_h as int, last));
    assert(kernel.shrunk(
        first_samples,
        nw as int,
        nh as int,
        target_w as int,
        target_h as int,
        last,
    ));
    if w != target_w || h != target_h {
        assert forall|x_edges: Seq<usize>, y_edges: Seq<usize>|
            #[trigger] axis_edges(kernel.edge, w, target_w, x_edges) && #[trigger] axis_edges(
                kernel.edge,
                h,
                target_h,
                y_edges,
            ) implies boxes_fit(buf@.len() as int, w as int, h as int, x_edges, y_edges) by {
            lemma_plane_covers(buf@.len() as int, w as int, h as int, x_edges, y_edges);
        }
        downsample_box_planar(
            &buf,
            w,
            h,
            target_w,
            target_h,
            &kernel.edge,
            kernel.zero,
            &kernel.plus,
            &kernel.divide,
        )
    } else {
        buf
    }
}

/// Every plane of the image has the samples that a thumbnail needs.
pub open spec fn thumbable(img: ExrImage) -> bool {
    let needed = half_extent(img.width as int, img.height as int);
    &&& 1 <= img.width
    &&& 1 <= img.height
    &&& needed <= img.r@.len()
    &&& needed <= img.g@.len()
    &&& needed <= img.b@.len()
    &&& needed <= img.a@.len()
}

/// Whether every plane of an image has the samples that a thumbnail needs.
pub fn can_thumb(img: &ExrImage) -> (can: bool)
    ensures
        can == thumbable(*img),
{
    if img.width == 0 || img.height == 0 {
        return false;
    }
    let columns: usize = if img.width > 1 { img.width / 2 * 2 } else { 1 };
    let rows: usize = if img.height > 1 { img.height / 2 * 2 } else { 1 };
    assert(columns == half_rows(img.width as int));
    assert(rows == half_rows(img.height as int));
    let ghost before_last = (rows - 1) * img.width;
    assert(0 <= before_last <= u64::MAX * u64::MAX) by (nonlinear_arith)
        requires
            before_last == (rows - 1) * img.width,
            1 <= rows <= u64::MAX,
            0 <= img.width <= u64::MAX,
    ;
    let needed: u128 = (rows - 1) as u128 * img.width as u128 + columns as u128;
    needed <= img.r.len() as u128 && needed <= img.g.len() as u128 && needed <= img.b.len() as u128
        && needed <= img.a.len() as u128
}

/// The thumbnails of the four planes of an image.
pub fn generate_thumb_planar<
    A: Copy,
    Q: Fn(u16, u16, u16, u16) -> u16,
    E: Fn(usize, usize, usize) -> usize,
    P: Fn(A, u16) -> A,
    D: Fn(A, usize) -> u16,
>(img: &ExrImage, target_w: usize, target_h: usize, kernel: &Kernel<A, Q, E, P, D>) -> (planes: (
    Vec<u16>,
    Vec<u16>,
    Vec<u16>,
    Vec<u16>,
))
    requires
        thumbable(*img),
        1 <= target_w || 1 <= target_h,
        target_w * target_h < usize::MAX,
        kernel.usable(),
    ensures
        planes.0@.len() == target_w * target_h,
        planes.1@.len() == target_w * target_h,
        planes.2@.len() == target_w * target_h,
        planes.3@.len() == target_w * target_h,
        kernel.thumb(img.r@, img.width as int, img.height as int, target_w, target_h, planes.0@),
        kernel.thumb(img.g@, img.width as int, img.height as int, target_w, target_h, planes.1@),
        kernel.thumb(img.b@, img.width as int, img.height as int, target_w, target_h, planes.2@),
        kernel.thumb(img.a@, img.width as int, img.height as int, target_w, target_h, planes.3@),
{
    let r = thumb_plane(&img.r, img.width, img.height, target_w, target_h, kernel);
    let g = thumb_plane(&img.g, img.width, img.height, target_w, target_h, kernel);
    let b = thumb_plane(&img.b, img.width, img.height, target_w, target_h, kernel);
    let a = thumb_plane(&img.a, img.width, img.height, target_w, target_h, kernel);
    (r, g, b, a)
}

/// Width of a thumbnail.
pub const THUMB_WIDTH: usize = 96;

/// Height of a thumbnail.
pub const THUMB_HEIGHT: usize = 48;

/// Number of threads that make thumbnails.
pub const THUMB_WORKERS: usize = 4;

/// The thumbnail that a thumbnail worker makes of a frame.
pub fn thumbworker<
    A: Copy,
    Q: Fn(u16, u16, u16, u16) -> u16,
    E: Fn(usize, usize, usize) -> usize,
    P: Fn(A, u16) -> A,
    D: Fn(A, usize) -> u16,
>(img: &ExrImage, kernel: &Kernel<A, Q, E, P, D>) -> (small: ExrImage)
    requires
        thumbable(*img),
        kernel.usable(),
    ensures
        small.width == THUMB_WIDTH,
        small.height == THUMB_HEIGHT,
        small.width == 96,
        small.height == 48,
        small.r@.len() == small.width * small.height,
        small.g@.len() == small.width * small.height,
        small.b@.len() == small.width * small.height,
        small.a@.len() == small.width * small.height,
        kernel.thumb(
            img.r@,
            img.width as int,
            img.height as int,
            THUMB_WIDTH,
            THUMB_HEIGHT,
            small.r@,
        ),
        kernel.thumb(
            img.g@,
            img.width as int,
            img.height as int,
            THUMB_WIDTH,
            THUMB_HEIGHT,
            small.g@,
        ),
        kernel.thumb(
            img.b@,
            img.width as int,
            img.height as int,
            THUMB_WIDTH,
            THUMB_HEIGHT,
            small.b@,
        ),
        kernel.thumb(
            img.a@,
            img.width as int,
            img.height as int,
            THUMB_WIDTH,
            THUMB_HEIGHT,
            small.a@,
        ),
{
    let (r, g, b, a) = generate_thumb_planar(img, THUMB_WIDTH, THUMB_HEIGHT, kernel);
    ExrImage { width: THUMB_WIDTH, height: THUMB_HEIGHT, r, g, b, a }
}

/// A texture of the user interface.
#[derive(Debug, Clone, Copy, PartialEq, Eq, Structural)]
pub enum TextureId {
    Managed(u64),
    User(u64),
}

/// The texture of a thumbnail.
#[derive(Debug, Clone, Copy, PartialEq, Eq, Structural)]
pub struct ThumbHandle {
    pub texture: TextureId,
}

impl Default for ThumbHandle {
    fn default() -> (handle: Self)
        ensures
            handle.texture == TextureId::Managed(0),
    {
        ThumbHandle { texture: TextureId::Managed(0) }
    }
}

/// The thumbnails on hand, and the frames whose thumbnail is under way.
pub struct ThumbCache {
    thumbs: HashMap<u64, ThumbHandle>,
    pending: HashSet<u64>,
}

impl ThumbCache {
    /// The thumbnail of each frame that has one.
    pub closed spec fn thumbs(&self) -> Map<u64, ThumbHandle> {
        self.thumbs@
    }

    /// The frames whose thumbnail is under way.
    pub closed spec fn pending(&self) -> Set<u64> {
        self.pending@
    }

    /// The thumbnail of a frame, if there is one.
    pub open spec fn lookup(&self, frame: u64) -> Option<ThumbHandle> {
        if self.thumbs().contains_key(frame) {
            Some(self.thumbs()[frame])
        } else {
            None
        }
    }

    /// The thumbnail of a frame, if there is one.
    pub fn get(&self, frame: u64) -> (handle: Option<ThumbHandle>)
        ensures
            handle == self.lookup(frame),
    {
        broadcast use vstd::std_specs::hash::group_hash_axioms;

        match self.thumbs.get(&frame) {
            Some(handle) => Some(*handle),
            None => None,
        }
    }

    /// Puts the thumbnail of a frame in place; it is no longer under way.
    pub fn insert(&mut self, frame: u64, handle: ThumbHandle)
        ensures
            final(self).thumbs() == old(self).thumbs().insert(frame, handle),
            final(self).pending() == old(self).pending().remove(frame),
    {
        broadcast use vstd::std_specs::hash::group_hash_axioms;

        self.thumbs.insert(frame, handle);
        self.pending.remove(&frame);
    }
}

impl Default for ThumbCache {
    fn default() -> (cache: Self)
        ensures
            cache.thumbs() == Map::<u64, ThumbHandle>::empty(),
            cache.pending() == Set::<u64>::empty(),
    {
        ThumbCache { thumbs: HashMap::new(), pending: HashSet::new() }
    }
}

/// An image with whole planes has a thumbnail.
pub proof fn lemma_whole_is_thumbable(img: ExrImage)
    requires
        1 <= img.width,
        1 <= img.height,
        img.r@.len() == img.width * img.height,
        img.g@.len() == img.width * img.height,
        img.b@.len() == img.width * img.height,
        img.a@.len() == img.width * img.height,
    ensures
        thumbable(img),
{
    lemma_plane_halves(img.width as int, img.height as int);
}

/// All samples of a plane are one and the same.
pub open spec fn flat(plane: Seq<u16>, v: u16) -> bool {
    forall|i: int| 0 <= i < plane.len() ==> #[trigger] plane[i] == v
}

/// A plane is flat where it holds the same sample at each column of each row.
proof fn lemma_flat_grid(plane: Seq<u16>, width: int, height: int, v: u16)
    requires
        1 <= width,
        plane.len() == width * height,
        forall|x: int, y: int|
            0 <= x < width && 0 <= y < height ==> #[trigger] sample(plane, width, x, y) == v,
    ensures
        flat(plane, v),
{
    assert forall|i: int| 0 <= i < plane.len() implies #[trigger] plane[i] == v by {
        let (x, y) = (i % width, i / width);
        vstd::arithmetic::div_mod::lemma_fundamental_div_mod(i, width);
        vstd::arithmetic::div_mod::lemma_multiply_divide_lt(i, width, height);
        vstd::arithmetic::div_mod::lemma_div_pos_is_pos(i, width);
        assert(y * width == width * y) by (nonlinear_arith);
        assert(sample(plane, width, x, y) == v);
    }
}

/// Halving leaves a plane of one and the same sample as it is, where the mean of four such
/// samples is that sample.
pub proof fn lemma_flat_halved<Q: Fn(u16, u16, u16, u16) -> u16>(
    quarter: Q,
    src: Seq<u16>,
    width: int,
    height: int,
    dst: Seq<u16>,
    v: u16,
)
    requires
        1 <= width,
        1 <= height,
        half_extent(width, height) <= src.len(),
        halved(quarter, src, width, height, dst),
        flat(src, v),
        forall|mean: u16| call_ensures(quarter, (v, v, v, v), mean) ==> mean == v,
    ensures
        flat(dst, v),
{
    assert forall|x: int, y: int|
        0 <= x < half_dim(width) && 0 <= y < half_dim(height) implies #[trigger] sample(
        dst,
        half_dim(width),
        x,
        y,
    ) == v by {
        let (x0, y0) = (2 * x, 2 * y);
        let (x1, y1) = (block_end(width, x0), block_end(height, y0));
        lemma_block_in_plane(width, height, x0, y0);
        lemma_block_in_plane(width, height, x1, y0);
        lemma_block_in_plane(width, height, x0, y1);
        lemma_block_in_plane(width, height, x1, y1);
        assert(block_mean(
            quarter,
            src,
            width,
            height,
            x,
            y,
            sample(dst, half_dim(width), x, y),
        ));
    }
    lemma_flat_grid(dst, half_dim(width), half_dim(height), v);
}

/// Halving stops in time: a plane that covers the target still covers it in the end, and could
/// not be halved again without falling short of it. What is left is a whole plane.
pub proof fn lemma_shrunk_covers<
    A,
    Q: Fn(u16, u16, u16, u16) -> u16,
    E: Fn(usize, usize, usize) -> usize,
    P: Fn(A, u16) -> A,
    D: Fn(A, usize) -> u16,
>(
    kernel: Kernel<A, Q, E, P, D>,
    src: Seq<u16>,
    w: int,
    h: int,
    tw: int,
    th: int,
    out: (Seq<u16>, int, int),
)
    requires
        1 <= w,
        1 <= h,
        0 <= tw,
        0 <= th,
        1 <= tw || 1 <= th,
        src.len() == w * h,
        kernel.shrunk(src, w, h, tw, th, out),
    ensures
        1 <= out.1 <= w,
        1 <= out.2 <= h,
        out.0.len() == out.1 * out.2,
        tw <= w && th <= h ==> tw <= out.1 && th <= out.2,
        out.1 / 2 < tw || out.2 / 2 < th,
    decreases w + h,
{
    if Kernel::<A, Q, E, P, D>::shrinks(w, h, tw, th) {
        let mid = choose|mid: Seq<u16>|
            #[trigger] halved(kernel.quarter, src, w, h, mid) && kernel.shrunk(
                mid,
                half_dim(w),
                half_dim(h),
                tw,
                th,
                out,
            );
        lemma_shrunk_covers(kernel, mid, half_dim(w), half_dim(h), tw, th, out);
    }
}

/// Halving on leaves a flat plane flat.
proof fn lemma_flat_shrunk<
    A,
    Q: Fn(u16, u16, u16, u16) -> u16,
    E: Fn(usize, usize, usize) -> usize,
    P: Fn(A, u16) -> A,
    D: Fn(A, usize) -> u16,
>(
    kernel: Kernel<A, Q, E, P, D>,
    src: Seq<u16>,
    w: int,
    h: int,
    tw: int,
    th: int,
    out: (Seq<u16>, int, int),
    v: u16,
)
    requires
        1 <= w,
        1 <= h,
        src.len() == w * h,
        flat(src, v),
        forall|mean: u16| call_ensures(kernel.quarter, (v, v, v, v), mean) ==> mean == v,
        kernel.shrunk(src, w, h, tw, th, out),
    ensures
        flat(out.0, v),
    decreases w + h,
{
    if Kernel::<A, Q, E, P, D>::shrinks(w, h, tw, th) {
        let mid = choose|mid: Seq<u16>|
            #[trigger] halved(kernel.quarter, src, w, h, mid) && kernel.shrunk(
                mid,
                half_dim(w),
                half_dim(h),
                tw,
                th,
                out,
            );
        lemma_plane_halves(w, h);
        lemma_flat_halved(kernel.quarter, src, w, h, mid, v);
        lemma_flat_shrunk(kernel, mid, half_dim(w), half_dim(h), tw, th, out, v);
    }
}

/// A box inside a flat plane is flat, and not larger than the plane.
proof fn lemma_flat_box(
    src: Seq<u16>,
    width: int,
    height: int,
    x0: int,
    y0: int,
    columns: int,
    rows: int,
    v: u16,
)
    requires
        src.len() == width * height,
        flat(src, v),
        0 <= x0,
        0 <= y0,
        0 < columns <= width - x0,
        0 < rows <= height - y0,
    ensures
        flat(box_samples(src, width, x0, y0, columns, rows), v),
        0 < box_samples(src, width, x0, y0, columns, rows).len() <= width * height,
{
    assert(0 < rows * columns <= width * height) by (nonlinear_arith)
        requires
            0 < columns <= width,
            0 < rows <= height,
    ;
    let samples = box_samples(src, width, x0, y0, columns, rows);
    assert forall|k: int| 0 <= k < samples.len() implies #[trigger] samples[k] == v by {
        let (x, y) = (x0 + k % columns, y0 + k / columns);
        assert(columns * rows == rows * columns) by (nonlinear_arith);
        vstd::arithmetic::div_mod::lemma_fundamental_div_mod(k, columns);
        vstd::arithmetic::div_mod::lemma_multiply_divide_lt(k, columns, rows);
        vstd::arithmetic::div_mod::lemma_div_pos_is_pos(k, columns);
        assert(0 <= y * width + x < width * height) by (nonlinear_arith)
            requires
                0 <= x < width,
                0 <= y < height,
        ;
        assert(samples[k] == src[y * width + x]);
    }
}

/// Scaling leaves a flat plane flat.
proof fn lemma_flat_scaled<
    A,
    Q: Fn(u16, u16, u16, u16) -> u16,
    E: Fn(usize, usize, usize) -> usize,
    P: Fn(A, u16) -> A,
    D: Fn(A, usize) -> u16,
>(
    kernel: Kernel<A, Q, E, P, D>,
    src: Seq<u16>,
    src_w: usize,
    src_h: usize,
    dst_w: usize,
    dst_h: usize,
    dst: Seq<u16>,
    v: u16,
    most: int,
)
    requires
        1 <= src_w,
        1 <= src_h,
        src.len() == src_w * src_h,
        src_w * src_h <= most,
        flat(src, v),
        kernel.steady(v, most),
        scaled(
            kernel.edge,
            kernel.plus,
            kernel.divide,
            kernel.zero,
            src,
            src_w,
            src_h,
            dst_w,
            dst_h,
            dst,
        ),
    ensures
        flat(dst, v),
{
    if dst_w > 0 && dst_h > 0 {
        let (w, h) = (src_w as int, src_h as int);
        let (xe, ye) = choose|x_edges: Seq<usize>, y_edges: Seq<usize>|
            {
                &&& #[trigger] axis_edges(kernel.edge, src_w, dst_w, x_edges)
                &&& #[trigger] axis_edges(kernel.edge, src_h, dst_h, y_edges)
                &&& boxed(
                    kernel.plus,
                    kernel.divide,
                    kernel.zero,
                    src,
                    src_w as int,
                    src_h as int,
                    x_edges,
                    y_edges,
                    dst,
                )
            };
        assert forall|x: int, y: int| 0 <= x < dst_w && 0 <= y < dst_h implies #[trigger] sample(
            dst,
            dst_w as int,
            x,
            y,
        ) == v by {
            assert(call_ensures(kernel.edge, (x as usize, src_w, dst_w), xe[x]));
            assert(call_ensures(kernel.edge, (y as usize, src_h, dst_h), ye[y]));
            lemma_flat_box(
                src,
                w,
                h,
                box_start(xe, x),
                box_start(ye, y),
                box_len(xe, w, x),
                box_len(ye, h, y),
                v,
            );
            assert(mean(
                kernel.plus,
                kernel.divide,
                kernel.zero,
                box_under(src, w, h, xe, ye, x, y),
                sample(dst, dst_w as int, x, y),
            ));
        }
        lemma_flat_grid(dst, dst_w as int, dst_h as int, v);
    } else {
        assert(dst_w * dst_h == 0) by (nonlinear_arith)
            requires
                dst_w == 0 || dst_h == 0,
        ;
    }
}

/// The thumbnail of a plane of one and the same sample is of that sample throughout, where means
/// of that sample are that sample and every box starts inside the plane.
pub proof fn lemma_flat_thumb<
    A,
    Q: Fn(u16, u16, u16, u16) -> u16,
    E: Fn(usize, usize, usize) -> usize,
    P: Fn(A, u16) -> A,
    D: Fn(A, usize) -> u16,
>(
    kernel: Kernel<A, Q, E, P, D>,
    src: Seq<u16>,
    w: usize,
    h: usize,
    tw: usize,
    th: usize,
    dst: Seq<u16>,
    v: u16,
)
    requires
        1 <= w,
        1 <= h,
        half_extent(w as int, h as int) <= src.len(),
        1 <= tw || 1 <= th,
        flat(src, v),
        kernel.steady(v, w * h),
        kernel.thumb(src, w as int, h as int, tw, th, dst),
    ensures
        flat(dst, v),
{
    let (hw, hh) = (half_dim(w as int), half_dim(h as int));
    let (first, last) = choose|first: Seq<u16>, last: (Seq<u16>, int, int)|
        {
            &&& #[trigger] halved(kernel.quarter, src, w as int, h as int, first)
            &&& #[trigger] kernel.shrunk(first, hw, hh, tw as int, th as int, last)
            &&& if last.1 == tw && last.2 == th {
                dst == last.0
            } else {
                scaled(
                    kernel.edge,
                    kernel.plus,
                    kernel.divide,
                    kernel.zero,
                    last.0,
                    last.1 as usize,
                    last.2 as usize,
                    tw,
                    th,
                    dst,
                )
            }
        };
    lemma_flat_halved(kernel.quarter, src, w as int, h as int, first, v);
    lemma_shrunk_covers(kernel, first, hw, hh, tw as int, th as int, last);
    lemma_flat_shrunk(kernel, first, hw, hh, tw as int, th as int, last, v);
    if last.1 != tw || last.2 != th {
        assert(last.1 * last.2 <= w * h) by (nonlinear_arith)
            requires
                1 <= last.1 <= w,
                1 <= last.2 <= h,
        ;
        lemma_flat_scaled(
            kernel,
            last.0,
            last.1 as usize,
            last.2 as usize,
            tw,
            th,
            dst,
            v,
            w * h,
        );
    }
}

/// A thumbnail that was put in place is found under its frame, and those of other frames are
/// found as before.
pub proof fn lemma_thumb_read_back(
    before: ThumbCache,
    after: ThumbCache,
    frame: u64,
    handle: ThumbHandle,
    other: u64,
)
    requires
        after.thumbs() == before.thumbs().insert(frame, handle),
        other != frame,
    ensures
        after.lookup(frame) == Some(handle),
        after.lookup(other) == before.lookup(other),
{
}

/// Halving halves the dimensions, leaving the odd column and the odd row out, but leaves no
/// dimension without a sample.
pub proof fn lemma_half_dimensions(n: int)
    requires
        1 <= n,
    ensures
        n >= 2 ==> half_dim(n) == n / 2,
        n == 1 ==> half_dim(n) == 1,
{
}

/// A halved plane holds at each column and row the mean of the two by two samples under it: those
/// of columns `2 * x` and `2 * x + 1` in rows `2 * y` and `2 * y + 1`. Where there is only one
/// column, or one row, that one counts twice.
pub proof fn lemma_halved_block<Q: Fn(u16, u16, u16, u16) -> u16>(
    quarter: Q,
    src: Seq<u16>,
    width: int,
    height: int,
    dst: Seq<u16>,
    x: int,
    y: int,
)
    requires
        1 <= width,
        1 <= height,
        halved(quarter, src, width, height, dst),
        0 <= x,
        0 <= y,
        x < width / 2 || (width == 1 && x == 0),
        y < height / 2 || (height == 1 && y == 0),
    ensures
        ({
            let nw = if width == 1 {
                1
            } else {
                width / 2
            };
            let nh = if height == 1 {
                1
            } else {
                height / 2
            };
            let right = if width == 1 {
                0
            } else {
                2 * x + 1
            };
            let below = if height == 1 {
                0
            } else {
                2 * y + 1
            };
            &&& dst.len() == nw * nh
            &&& call_ensures(
                quarter,
                (
                    src[(2 * y) * width + 2 * x],
                    src[(2 * y) * width + right],
                    src[below * width + 2 * x],
                    src[below * width + right],
                ),
                dst[y * nw + x],
            )
        }),
{
    assert(block_mean(quarter, src, width, height, x, y, sample(dst, half_dim(width), x, y)));
}

/// A sum runs through the samples in order, from `zero` on, and adds each of them once.
pub proof fn lemma_sum_in_order<A, P: Fn(A, u16) -> A>(
    plus: P,
    zero: A,
    samples: Seq<u16>,
    acc: A,
)
    requires
        summed(plus, zero, samples, acc),
    ensures
        exists|partial: Seq<A>|
            {
                &&& #[trigger] partial.len() == samples.len() + 1
                &&& partial[0] == zero
                &&& partial[samples.len() as int] == acc
                &&& forall|i: int|
                    0 <= i < samples.len() ==> call_ensures(
                        plus,
                        (partial[i], #[trigger] samples[i]),
                        partial[i + 1],
                    )
            },
    decreases samples.len(),
{
    if samples.len() == 0 {
        let partial = seq![zero];
        assert(partial.len() == samples.len() + 1);
    } else {
        let rest = samples.drop_last();
        let prev = choose|prev: A|
            summed(plus, zero, rest, prev) && #[trigger] call_ensures(
                plus,
                (prev, samples.last()),
                acc,
            );
        lemma_sum_in_order(plus, zero, rest, prev);
        let before = choose|partial: Seq<A>|
            {
                &&& #[trigger] partial.len() == rest.len() + 1
                &&& partial[0] == zero
                &&& partial[rest.len() as int] == prev
                &&& forall|i: int|
                    0 <= i < rest.len() ==> call_ensures(
                        plus,
                        (partial[i], #[trigger] rest[i]),
                        partial[i + 1],
                    )
            };
        let partial = before.push(acc);
        assert(partial.len() == samples.len() + 1);
        assert forall|i: int| 0 <= i < samples.len() implies call_ensures(
            plus,
            (partial[i], #[trigger] samples[i]),
            partial[i + 1],
        ) by {
            if i < rest.len() {
                assert(rest[i] == samples[i]);
            }
        }
    }
}

/// A mean is a sum divided by how many samples were added.
pub proof fn lemma_mean_divides<A, P: Fn(A, u16) -> A, D: Fn(A, usize) -> u16>(
    plus: P,
    divide: D,
    zero: A,
    samples: Seq<u16>,
    v: u16,
)
    requires
        mean(plus, divide, zero, samples, v),
    ensures
        exists|acc: A|
            summed(plus, zero, samples, acc) && #[trigger] call_ensures(
                divide,
                (acc, samples.len() as usize),
                v,
            ),
{
    let acc = choose|acc: A|
        #[trigger] summed(plus, zero, samples, acc) && call_ensures(
            divide,
            (acc, samples.len() as usize),
            v,
        );
    assert(call_ensures(divide, (acc, samples.len() as usize), v));
}

/// A scaled plane holds at each column and row the mean of the samples of one box of the source:
/// row by row those from where its box starts to where the next one does, on each axis, but at
/// least one and none past the end of the source.
pub proof fn lemma_scaled_box<
    A,
    E: Fn(usize, usize, usize) -> usize,
    P: Fn(A, u16) -> A,
    D: Fn(A, usize) -> u16,
>(
    edge: E,
    plus: P,
    divide: D,
    zero: A,
    src: Seq<u16>,
    src_w: usize,
    src_h: usize,
    dst_w: usize,
    dst_h: usize,
    dst: Seq<u16>,
    x: int,
    y: int,
)
    requires
        scaled(edge, plus, divide, zero, src, src_w, src_h, dst_w, dst_h, dst),
        0 <= x < dst_w,
        0 <= y < dst_h,
    ensures
        dst.len() == dst_w * dst_h,
        exists|x0: usize, x1: usize, y0: usize, y1: usize, samples: Seq<u16>|
            {
                &&& #[trigger] call_ensures(edge, (x as usize, src_w, dst_w), x0)
                &&& #[trigger] call_ensures(edge, ((x + 1) as usize, src_w, dst_w), x1)
                &&& #[trigger] call_ensures(edge, (y as usize, src_h, dst_h), y0)
                &&& #[trigger] call_ensures(edge, ((y + 1) as usize, src_h, dst_h), y1)
                &&& #[trigger] mean(plus, divide, zero, samples, dst[y * dst_w + x])
                &&& x0 < src_w && y0 < src_h ==> {
                    let right = if x1 > x0 + 1 {
                        x1 as int
                    } else {
                        x0 + 1
                    };
                    let below = if y1 > y0 + 1 {
                        y1 as int
                    } else {
                        y0 + 1
                    };
                    let columns = if right < src_w {
                        right - x0
                    } else {
                        src_w - x0
                    };
                    let rows = if below < src_h {
                        below - y0
                    } else {
                        src_h - y0
                    };
                    &&& samples.len() == rows * columns
                    &&& forall|i: int, j: int|
                        #![trigger samples[j * columns + i]]
                        0 <= i < columns && 0 <= j < rows ==> samples[j * columns + i] == src[(y0
                            + j) * src_w + (x0 + i)]
                }
            },
{
    let (w, h) = (src_w as int, src_h as int);
    let (xe, ye) = choose|x_edges: Seq<usize>, y_edges: Seq<usize>|
        {
            &&& #[trigger] axis_edges(edge, src_w, dst_w, x_edges)
            &&& #[trigger] axis_edges(edge, src_h, dst_h, y_edges)
            &&& boxed(plus, divide, zero, src, w, h, x_edges, y_edges, dst)
        };
    let (x0, x1, y0, y1) = (xe[x], xe[x + 1], ye[y], ye[y + 1]);
    let samples = box_under(src, w, h, xe, ye, x, y);
    assert(call_ensures(edge, (x as usize, src_w, dst_w), x0));
    assert(call_ensures(edge, ((x + 1) as usize, src_w, dst_w), x1));
    assert(call_ensures(edge, (y as usize, src_h, dst_h), y0));
    assert(call_ensures(edge, ((y + 1) as usize, src_h, dst_h), y1));
    assert(mean(plus, divide, zero, samples, sample(dst, dst_w as int, x, y)));
    let columns = box_len(xe, w, x);
    let rows = box_len(ye, h, y);
    if x0 < src_w && y0 < src_h {
        assert(0 <= rows * columns) by (nonlinear_arith)
            requires
                0 <= rows,
                0 <= columns,
        ;
        assert forall|i: int, j: int|
            #![trigger samples[j * columns + i]]
            0 <= i < columns && 0 <= j < rows implies samples[j * columns + i] == src[(y0 + j)
            * src_w + (x0 + i)] by {
            let k = j * columns + i;
            assert(0 <= k < rows * columns) by (nonlinear_arith)
                requires
                    k == j * columns + i,
                    0 <= i < columns,
                    0 <= j < rows,
            ;
            vstd::arithmetic::div_mod::lemma_fundamental_div_mod_converse(k, columns, j, i);
        }
    }
}

/// Halving on goes plane by plane: each plane is the half of the one before it, is only made while
/// it still covers the target, and the last one is what is left.
pub proof fn lemma_shrunk_chain<
    A,
    Q: Fn(u16, u16, u16, u16) -> u16,
    E: Fn(usize, usize, usize) -> usize,
    P: Fn(A, u16) -> A,
    D: Fn(A, usize) -> u16,
>(
    kernel: Kernel<A, Q, E, P, D>,
    src: Seq<u16>,
    w: int,
    h: int,
    tw: int,
    th: int,
    out: (Seq<u16>, int, int),
)
    requires
        1 <= w,
        1 <= h,
        0 <= tw,
        0 <= th,
        1 <= tw || 1 <= th,
        kernel.shrunk(src, w, h, tw, th, out),
    ensures
        exists|chain: Seq<(Seq<u16>, int, int)>|
            {
                &&& #[trigger] chain.len() >= 1
                &&& chain[0] == (src, w, h)
                &&& chain.last() == out
                &&& forall|i: int|
                    0 <= i < chain.len() - 1 ==> {
                        let (plane, cw, ch) = #[trigger] chain[i];
                        let (next, nw, nh) = chain[i + 1];
                        &&& tw <= cw / 2 && th <= ch / 2
                        &&& nw == (if cw == 1 {
                            1
                        } else {
                            cw / 2
                        })
                        &&& nh == (if ch == 1 {
                            1
                        } else {
                            ch / 2
                        })
                        &&& halved(kernel.quarter, plane, cw, ch, next)
                    }
            },
        out.1 / 2 < tw || out.2 / 2 < th,
    decreases w + h,
{
    if Kernel::<A, Q, E, P, D>::shrinks(w, h, tw, th) {
        let mid = choose|mid: Seq<u16>|
            #[trigger] halved(kernel.quarter, src, w, h, mid) && kernel.shrunk(
                mid,
                half_dim(w),
                half_dim(h),
                tw,
                th,
                out,
            );
        lemma_shrunk_chain(kernel, mid, half_dim(w), half_dim(h), tw, th, out);
        let rest = choose|chain: Seq<(Seq<u16>, int, int)>|
            {
                &&& #[trigger] chain.len() >= 1
                &&& chain[0] == (mid, half_dim(w), half_dim(h))
                &&& chain.last() == out
                &&& forall|i: int|
                    0 <= i < chain.len() - 1 ==> {
                        let (plane, cw, ch) = #[trigger] chain[i];
                        let (next, nw, nh) = chain[i + 1];
                        &&& tw <= cw / 2 && th <= ch / 2
                        &&& nw == (if cw == 1 {
                            1
                        } else {
                            cw / 2
                        })
                        &&& nh == (if ch == 1 {
                            1
                        } else {
                            ch / 2
                        })
                        &&& halved(kernel.quarter, plane, cw, ch, next)
                    }
            };
        let chain = seq![(src, w, h)] + rest;
        assert(chain.len() >= 1);
        assert(chain.last() == out);
        assert forall|i: int| 0 <= i < chain.len() - 1 implies {
            let (plane, cw, ch) = #[trigger] chain[i];
            let (next, nw, nh) = chain[i + 1];
            &&& tw <= cw / 2 && th <= ch / 2
            &&& nw == (if cw == 1 {
                1
            } else {
                cw / 2
            })
            &&& nh == (if ch == 1 {
                1
            } else {
                ch / 2
            })
            &&& halved(kernel.quarter, plane, cw, ch, next)
        } by {
            if i > 0 {
                assert(chain[i] == rest[i - 1]);
                assert(chain[i + 1] == rest[i]);
            } else {
                assert(chain[1] == rest[0]);
            }
        }
    } else {
        let chain = seq![(src, w, h)];
        assert(chain.len() >= 1);
        assert(chain.last() == out);
    }
}

/// A thumbnail is made of the plane halved once at least, however small the plane is, then halved
/// on, and then only scaled where it has not come out at the target's dimensions.
pub proof fn lemma_thumb_stages<
    A,
    Q: Fn(u16, u16, u16, u16) -> u16,
    E: Fn(usize, usize, usize) -> usize,
    P: Fn(A, u16) -> A,
    D: Fn(A, usize) -> u16,
>(
    kernel: Kernel<A, Q, E, P, D>,
    src: Seq<u16>,
    w: usize,
    h: usize,
    tw: usize,
    th: usize,
    dst: Seq<u16>,
)
    requires
        1 <= w,
        1 <= h,
        1 <= tw || 1 <= th,
        kernel.thumb(src, w as int, h as int, tw, th, dst),
    ensures
        dst.len() == tw * th,
        exists|first: Seq<u16>, fw: int, fh: int, last: Seq<u16>, lw: usize, lh: usize|
            {
                &&& #[trigger] halved(kernel.quarter, src, w as int, h as int, first)
                &&& fw == (if w == 1 {
                    1
                } else {
                    w as int / 2
                })
                &&& fh == (if h == 1 {
                    1
                } else {
                    h as int / 2
                })
                &&& #[trigger] kernel.shrunk(
                    first,
                    fw,
                    fh,
                    tw as int,
                    th as int,
                    (last, lw as int, lh as int),
                )
                &&& lw == tw && lh == th ==> dst == last
                &&& lw != tw || lh != th ==> scaled(
                    kernel.edge,
                    kernel.plus,
                    kernel.divide,
                    kernel.zero,
                    last,
                    lw,
                    lh,
                    tw,
                    th,
                    dst,
                )
            },
{
    let (hw, hh) = (half_dim(w as int), half_dim(h as int));
    let (first, last) = choose|first: Seq<u16>, last: (Seq<u16>, int, int)|
        {
            &&& #[trigger] halved(kernel.quarter, src, w as int, h as int, first)
            &&& #[trigger] kernel.shrunk(first, hw, hh, tw as int, th as int, last)
            &&& if last.1 == tw && last.2 == th {
                dst == last.0
            } else {
                scaled(
                    kernel.edge,
                    kernel.plus,
                    kernel.divide,
                    kernel.zero,
                    last.0,
                    last.1 as usize,
                    last.2 as usize,
                    tw,
                    th,
                    dst,
                )
            }
        };
    lemma_shrunk_covers(kernel, first, hw, hh, tw as int, th as int, last);
    let (lw, lh) = (last.1 as usize, last.2 as usize);
    assert(last == (last.0, lw as int, lh as int));
    assert(kernel.shrunk(first, hw, hh, tw as int, th as int, (last.0, lw as int, lh as int)));
}

/// An image has a thumbnail where it has a pixel and each of its planes reaches to the last sample
/// that halving reads: all columns and rows but for an odd one past the first.
pub proof fn lemma_thumbable_extent(img: ExrImage)
    ensures
        img.width == 0 || img.height == 0 ==> !thumbable(img),
        img.width > 0 && img.height > 0 ==> (thumbable(img) <==> {
            let columns = if img.width == 1 {
                1
            } else {
                2 * (img.width as int / 2)
            };
            let rows = if img.height == 1 {
                1
            } else {
                2 * (img.height as int / 2)
            };
            let needed = (rows - 1) * img.width + columns;
            &&& needed <= img.r@.len()
            &&& needed <= img.g@.len()
            &&& needed <= img.b@.len()
            &&& needed <= img.a@.len()
        }),
{
}

/// Thumbnails are 96 by 48 samples, and four threads make them.
pub proof fn lemma_thumb_limits()
    ensures
        THUMB_WIDTH == 96,
        THUMB_HEIGHT == 48,
        THUMB_WORKERS == 4,
{
}

/// A thumbnail is found where the frame has one, and none is found where it has not.
pub proof fn lemma_thumb_lookup(cache: ThumbCache, frame: u64)
    ensures
        cache.lookup(frame) is Some <==> cache.thumbs().contains_key(frame),
        cache.lookup(frame) is Some ==> cache.lookup(frame)->0 == cache.thumbs()[frame],
{
}

}
