//! Three-dimensional colour lookup tables.
//!
//! A table of edge length `size` holds `size * size * size` cells of three components,
//! red varying fastest. The components are of any copyable type; what is computed with
//! them comes in as a function.
use vstd::prelude::*;

use crate::grid::lemma_digits;

verus! {

/// Position of the first component of a cell.
pub open spec fn cell(size: int, r: int, g: int, b: int) -> int {
    (b * size * size + g * size + r) * 3
}

/// A colour is a cell of the grid.
pub open spec fn in_grid(size: int, r: int, g: int, b: int) -> bool {
    0 <= r < size && 0 <= g < size && 0 <= b < size
}

/// Number of components of a whole table.
pub open spec fn table_len(size: int) -> int {
    size * size * size * 3
}

/// The three components of a cell.
pub open spec fn cell_at<F>(data: Seq<F>, size: int, r: int, g: int, b: int) -> [F; 3] {
    let i = cell(size, r, g, b);
    [data[i], data[i + 1], data[i + 2]]
}

proof fn lemma_cell_nested(size: int, r: int, g: int, b: int)
    ensures
        cell(size, r, g, b) == ((b * size + g) * size + r) * 3,
{
    assert((b * size + g) * size == b * size * size + g * size) by (nonlinear_arith);
}

/// Every cell of the grid lies whole inside the table.
pub proof fn lemma_cell_in_table(size: int, r: int, g: int, b: int)
    requires
        in_grid(size, r, g, b),
    ensures
        0 <= cell(size, r, g, b),
        cell(size, r, g, b) + 3 <= table_len(size),
{
    lemma_cell_nested(size, r, g, b);
    assert(0 <= b * size + g < size * size) by (nonlinear_arith)
        requires
            0 <= g < size,
            0 <= b < size,
    ;
    let row = b * size + g;
    let rows = size * size;
    assert(0 <= row * size + r < rows * size) by (nonlinear_arith)
        requires
            0 <= r < size,
            0 <= row < rows,
    ;
}

/// Cells do not overlap: two colours of the grid share a position only if they are the
/// same colour.
pub proof fn lemma_cells_distinct(
    size: int,
    r: int,
    g: int,
    b: int,
    r2: int,
    g2: int,
    b2: int,
)
    requires
        in_grid(size, r, g, b),
        in_grid(size, r2, g2, b2),
        cell(size, r, g, b) == cell(size, r2, g2, b2),
    ensures
        r == r2,
        g == g2,
        b == b2,
{
    lemma_cell_nested(size, r, g, b);
    lemma_cell_nested(size, r2, g2, b2);
    lemma_digits(size, b * size + g, r, b2 * size + g2, r2);
    lemma_digits(size, b, g, b2, g2);
}

/// The bound on the last position also bounds every step on the way to it.
proof fn lemma_index_steps(size: int, r: int, g: int, b: int)
    requires
        0 <= size,
        0 <= r,
        0 <= g,
        0 <= b,
    ensures
        0 <= b * size,
        0 <= b * size * size,
        0 <= g * size,
        size == 0 ==> b * size == 0,
        b * size * size + g * size + r <= cell(size, r, g, b),
        size >= 1 ==> b * size <= b * size * size,
{
    assert(0 <= b * size) by (nonlinear_arith)
        requires
            0 <= b,
            0 <= size,
    ;
    assert(0 <= g * size) by (nonlinear_arith)
        requires
            0 <= g,
            0 <= size,
    ;
    let row = b * size;
    assert(0 <= row * size && (size >= 1 ==> row <= row * size)) by (nonlinear_arith)
        requires
            0 <= row,
            0 <= size,
    ;
}

/// Position of the first component of the cell of a colour.
pub fn flat_index(size: usize, r: usize, g: usize, b: usize) -> (i: usize)
    requires
        cell(size as int, r as int, g as int, b as int) <= usize::MAX,
    ensures
        i == cell(size as int, r as int, g as int, b as int),
{
    proof {
        lemma_index_steps(size as int, r as int, g as int, b as int);
    }
    (b * size * size + g * size + r) * 3
}

/// The three components stored for a colour.
pub fn fetch<F: Copy>(data: &[F], size: usize, r: usize, g: usize, b: usize) -> (color: [F; 3])
    requires
        cell(size as int, r as int, g as int, b as int) + 2 < data.len(),
    ensures
        color == cell_at(data@, size as int, r as int, g as int, b as int),
{
    let i: usize = flat_index(size, r, g, b);
    proof {
        lemma_index_steps(size as int, r as int, g as int, b as int);
    }
    [data[i], data[i + 1], data[i + 2]]
}

/// Linear interpolation, component by component.
///
/// `mix(x, y, t)` is the value a fraction `t` of the way from `x` to `y`.
pub fn lerp<F: Copy, M: Fn(F, F, F) -> F>(a: [F; 3], b: [F; 3], t: F, mix: &M) -> (c: [F; 3])
    requires
        forall|x: F, y: F, u: F| call_requires(mix, (x, y, u)),
    ensures
        lerped(*mix, a, b, t, c),
{
    [mix(a[0], b[0], t), mix(a[1], b[1], t), mix(a[2], b[2], t)]
}

/// `c` lies a fraction `t` of the way from `a` to `b`, in each component.
pub open spec fn lerped<F, M: Fn(F, F, F) -> F>(
    mix: M,
    a: [F; 3],
    b: [F; 3],
    t: F,
    c: [F; 3],
) -> bool {
    forall|i: int|
        0 <= i < 3 ==> call_ensures(mix, (a@[i], b@[i], t), #[trigger] c@[i])
}

/// The neighbour above a grid coordinate, held at the last coordinate of the grid.
pub open spec fn next_coord(size: int, c: int) -> int {
    if c + 1 < size - 1 {
        c + 1
    } else {
        size - 1
    }
}

/// The larger of a grid coordinate and its neighbour.
pub open spec fn far_coord(size: int, c: int) -> int {
    if c < next_coord(size, c) {
        next_coord(size, c)
    } else {
        c
    }
}

/// `out` is the interpolation between the eight cells around a point: first along red,
/// next along green, last along blue.
pub open spec fn trilinear<F, M: Fn(F, F, F) -> F>(
    mix: M,
    data: Seq<F>,
    size: int,
    low: (int, int, int),
    t: (F, F, F),
    out: [F; 3],
) -> bool {
    let (r0, g0, b0) = low;
    let r1 = next_coord(size, r0);
    let g1 = next_coord(size, g0);
    let b1 = next_coord(size, b0);
    exists|c00: [F; 3], c10: [F; 3], c01: [F; 3], c11: [F; 3], c0: [F; 3], c1: [F; 3]|
        {
            &&& #[trigger] lerped(
                mix,
                cell_at(data, size, r0, g0, b0),
                cell_at(data, size, r1, g0, b0),
                t.0,
                c00,
            )
            &&& #[trigger] lerped(
                mix,
                cell_at(data, size, r0, g1, b0),
                cell_at(data, size, r1, g1, b0),
                t.0,
                c10,
            )
            &&& #[trigger] lerped(
                mix,
                cell_at(data, size, r0, g0, b1),
                cell_at(data, size, r1, g0, b1),
                t.0,
                c01,
            )
            &&& #[trigger] lerped(
                mix,
                cell_at(data, size, r0, g1, b1),
                cell_at(data, size, r1, g1, b1),
                t.0,
                c11,
            )
            &&& #[trigger] lerped(mix, c00, c10, t.1, c0)
            &&& #[trigger] lerped(mix, c01, c11, t.1, c1)
            &&& lerped(mix, c0, c1, t.2, out)
        }
}

proof fn lemma_cell_monotone(size: int, r: int, g: int, b: int, r2: int, g2: int, b2: int)
    requires
        0 <= size,
        0 <= r <= r2,
        0 <= g <= g2,
        0 <= b <= b2,
    ensures
        0 <= cell(size, r, g, b) <= cell(size, r2, g2, b2),
{
    lemma_index_steps(size, r, g, b);
    assert(b * size <= b2 * size) by (nonlinear_arith)
        requires
            0 <= size,
            b <= b2,
    ;
    assert(g * size <= g2 * size) by (nonlinear_arith)
        requires
            0 <= size,
            g <= g2,
    ;
    let (m, m2) = (b * size, b2 * size);
    assert(m * size <= m2 * size) by (nonlinear_arith)
        requires
            0 <= size,
            m <= m2,
    ;
}

/// The colour of a point between the cells of a table.
///
/// `(r0, g0, b0)` is the cell below the point on each axis, and `(tr, tg, tb)` how far
/// the point lies towards the next cell.
pub fn sample_lut_trilinear<F: Copy, M: Fn(F, F, F) -> F>(
    data: &[F],
    size: usize,
    low: (usize, usize, usize),
    t: (F, F, F),
    mix: &M,
) -> (out: [F; 3])
    requires
        size >= 1,
        cell(
            size as int,
            far_coord(size as int, low.0 as int),
            far_coord(size as int, low.1 as int),
            far_coord(size as int, low.2 as int),
        ) + 2 < data.len(),
        forall|x: F, y: F, u: F| call_requires(mix, (x, y, u)),
    ensures
        trilinear(
            *mix,
            data@,
            size as int,
            (low.0 as int, low.1 as int, low.2 as int),
            t,
            out,
        ),
{
    let (r0, g0, b0) = low;
    let (tr, tg, tb) = t;
    let ghost n = size as int;
    let ghost (fr, fg, fb) = (far_coord(n, r0 as int), far_coord(n, g0 as int), far_coord(n, b0 as int));
    proof {
        lemma_index_steps(n, fr, fg, fb);
        lemma_cell_monotone(n, 0, fg, 0, fr, fg, fb);
        lemma_cell_monotone(n, 0, 0, fb, fr, fg, fb);
        assert(g0 <= g0 * n && b0 <= b0 * n) by (nonlinear_arith)
            requires
                1 <= n,
        ;
        assert(b0 <= b0 * n * n) by (nonlinear_arith)
            requires
                1 <= n,
                b0 <= b0 * n,
        ;
        assert forall|r: int, g: int, b: int|
            0 <= r <= fr && 0 <= g <= fg && 0 <= b <= fb implies #[trigger] cell(n, r, g, b) + 2
            < data.len() by {
            lemma_cell_monotone(n, r, g, b, fr, fg, fb);
        }
    }
    let r1: usize = if r0 + 1 < size - 1 { r0 + 1 } else { size - 1 };
    let g1: usize = if g0 + 1 < size - 1 { g0 + 1 } else { size - 1 };
    let b1: usize = if b0 + 1 < size - 1 { b0 + 1 } else { size - 1 };
    let c00 = lerp(fetch(data, size, r0, g0, b0), fetch(data, size, r1, g0, b0), tr, mix);
    let c10 = lerp(fetch(data, size, r0, g1, b0), fetch(data, size, r1, g1, b0), tr, mix);
    let c01 = lerp(fetch(data, size, r0, g0, b1), fetch(data, size, r1, g0, b1), tr, mix);
    let c11 = lerp(fetch(data, size, r0, g1, b1), fetch(data, size, r1, g1, b1), tr, mix);
    let c0 = lerp(c00, c10, tg, mix);
    let c1 = lerp(c01, c11, tg, mix);
    lerp(c0, c1, tb, mix)
}

/// Every cell that lies whole inside `data` holds a colour that `color` gives for it.
spec fn colored<F, C: Fn(usize, usize, usize) -> [F; 3]>(
    color: C,
    data: Seq<F>,
    size: usize,
) -> bool {
    forall|r: usize, g: usize, b: usize|
        in_grid(size as int, r as int, g as int, b as int) && cell(
            size as int,
            r as int,
            g as int,
            b as int,
        ) + 3 <= data.len() ==> #[trigger] call_ensures(
            color,
            (r, g, b),
            cell_at(data, size as int, r as int, g as int, b as int),
        )
}

proof fn lemma_colored_extend<F, C: Fn(usize, usize, usize) -> [F; 3]>(
    color: C,
    data: Seq<F>,
    size: usize,
    r: usize,
    g: usize,
    b: usize,
    c: [F; 3],
)
    requires
        colored(color, data, size),
        in_grid(size as int, r as int, g as int, b as int),
        data.len() == cell(size as int, r as int, g as int, b as int),
        call_ensures(color, (r, g, b), c),
    ensures
        colored(color, data.push(c@[0]).push(c@[1]).push(c@[2]), size),
{
    let n = size as int;
    let out = data.push(c@[0]).push(c@[1]).push(c@[2]);
    assert forall|r2: usize, g2: usize, b2: usize|
        in_grid(n, r2 as int, g2 as int, b2 as int) && cell(n, r2 as int, g2 as int, b2 as int) + 3
            <= out.len() implies #[trigger] call_ensures(
        color,
        (r2, g2, b2),
        cell_at(out, n, r2 as int, g2 as int, b2 as int),
    ) by {
        let p = cell(n, r as int, g as int, b as int);
        let p2 = cell(n, r2 as int, g2 as int, b2 as int);
        lemma_cell_in_table(n, r2 as int, g2 as int, b2 as int);
        if p2 + 3 <= p {
            assert(call_ensures(
                color,
                (r2, g2, b2),
                cell_at(data, n, r2 as int, g2 as int, b2 as int),
            ));
            assert(cell_at(out, n, r2 as int, g2 as int, b2 as int) == cell_at(
                data,
                n,
                r2 as int,
                g2 as int,
                b2 as int,
            ));
        } else {
            assert(p2 == p);
            lemma_cells_distinct(
                n,
                r as int,
                g as int,
                b as int,
                r2 as int,
                g2 as int,
                b2 as int,
            );
            assert(cell_at(out, n, r as int, g as int, b as int) =~= c);
        }
    }
}

/// A table whose cells hold what `color` gives for their grid coordinates.
fn fill<F: Copy, C: Fn(usize, usize, usize) -> [F; 3]>(size: usize, color: C) -> (data: Vec<F>)
    requires
        table_len(size as int) <= usize::MAX,
        forall|r: usize, g: usize, b: usize|
            in_grid(size as int, r as int, g as int, b as int) ==> #[trigger] call_requires(color, (r, g, b)),
    ensures
        data@.len() == table_len(size as int),
        forall|r: usize, g: usize, b: usize|
            in_grid(size as int, r as int, g as int, b as int) ==> #[trigger] call_ensures(
                color,
                (r, g, b),
                cell_at(data@, size as int, r as int, g as int, b as int),
            ),
{
    let ghost n = size as int;
    let mut data: Vec<F> = Vec::new();
    assert(cell(n, 0, 0, 0) == 0) by {
        assert(0 * n * n == 0 && 0 * n == 0) by (nonlinear_arith);
    }
    for b in 0..size
        invariant
            n == size,
            data@.len() == cell(n, 0, 0, b as int),
            colored(color, data@, size),
            forall|r: usize, g: usize, b: usize|
                in_grid(n, r as int, g as int, b as int) ==> #[trigger] call_requires(color, (r, g, b)),
    {
        for g in 0..size
            invariant
                n == size,
                b < size,
                data@.len() == cell(n, 0, g as int, b as int),
                colored(color, data@, size),
                forall|r: usize, g: usize, b: usize|
                    in_grid(n, r as int, g as int, b as int) ==> #[trigger] call_requires(color, (r, g, b)),
        {
            for r in 0..size
                invariant
                    n == size,
                    b < size,
                    g < size,
                    data@.len() == cell(n, r as int, g as int, b as int),
                    colored(color, data@, size),
                    forall|r: usize, g: usize, b: usize|
                        in_grid(n, r as int, g as int, b as int) ==> #[trigger] call_requires(
                            color,
                            (r, g, b),
                        ),
            {
                let c = color(r, g, b);
                proof {
                    lemma_colored_extend(color, data@, size, r, g, b, c);
                }
                data.push(c[0]);
                data.push(c[1]);
                data.push(c[2]);
            }
            assert(cell(n, n, g as int, b as int) == cell(n, 0, g + 1, b as int)) by {
                assert((g + 1) * n == g * n + n) by (nonlinear_arith);
            }
        }
        assert(cell(n, 0, n, b as int) == cell(n, 0, 0, b + 1)) by {
            assert((b + 1) * n * n == b * n * n + n * n) by (nonlinear_arith);
        }
    }
    assert forall|r: usize, g: usize, b: usize|
        in_grid(n, r as int, g as int, b as int) implies #[trigger] call_ensures(
        color,
        (r, g, b),
        cell_at(data@, n, r as int, g as int, b as int),
    ) by {
        lemma_cell_in_table(n, r as int, g as int, b as int);
    }
    data
}

/// The colour at its own grid coordinates.
fn grid_color<F: Copy, C: Fn(usize, usize) -> F>(
    size: usize,
    at: (usize, usize, usize),
    coord: &C,
) -> (c: [F; 3])
    requires
        in_grid(size as int, at.0 as int, at.1 as int, at.2 as int),
        forall|i: usize, last: usize| i <= last ==> call_requires(coord, (i, last)),
    ensures
        identity_cell(*coord, size, at, c),
{
    [coord(at.0, size - 1), coord(at.1, size - 1), coord(at.2, size - 1)]
}

/// The table that maps each colour to itself.
///
/// `coord(i, last)` is the component at grid coordinate `i` of an axis that ends at
/// coordinate `last`.
pub fn identity_lut<F: Copy, C: Fn(usize, usize) -> F>(size: usize, coord: &C) -> (data: Vec<F>)
    requires
        table_len(size as int) <= usize::MAX,
        forall|i: usize, last: usize| i <= last ==> call_requires(coord, (i, last)),
    ensures
        data@.len() == table_len(size as int),
        forall|r: usize, g: usize, b: usize|
            in_grid(size as int, r as int, g as int, b as int) ==> identity_cell(
                *coord,
                size,
                (r, g, b),
                #[trigger] cell_at(data@, size as int, r as int, g as int, b as int),
            ),
{
    let color = |r: usize, g: usize, b: usize| -> (c: [F; 3])
        requires
            in_grid(size as int, r as int, g as int, b as int),
        ensures
            identity_cell(*coord, size, (r, g, b), c),
        { grid_color(size, (r, g, b), coord) };
    let data = fill(size, color);
    assert forall|r: usize, g: usize, b: usize|
        in_grid(size as int, r as int, g as int, b as int) implies identity_cell(
        *coord,
        size,
        (r, g, b),
        #[trigger] cell_at(data@, size as int, r as int, g as int, b as int),
    ) by {
        assert(call_ensures(
            color,
            (r, g, b),
            cell_at(data@, size as int, r as int, g as int, b as int),
        ));
    }
    data
}

/// `c` is the colour at its own grid coordinates.
pub open spec fn identity_cell<F, C: Fn(usize, usize) -> F>(
    coord: C,
    size: usize,
    at: (usize, usize, usize),
    c: [F; 3],
) -> bool {
    let last = (size - 1) as usize;
    &&& call_ensures(coord, (at.0, last), c@[0])
    &&& call_ensures(coord, (at.1, last), c@[1])
    &&& call_ensures(coord, (at.2, last), c@[2])
}

/// The table that a colour transform draws: each cell holds the transform of the linear
/// colour at its grid coordinates. A grid needs two coordinates per axis; with fewer the
/// table is empty.
///
/// `linear(i, last)` is the linear component at grid coordinate `i` of an axis that ends
/// at coordinate `last`, and `apply` the transform.
pub fn bake_lut<F: Copy, L: Fn(usize, usize) -> F, A: Fn([F; 3]) -> [F; 3]>(
    size: usize,
    linear: &L,
    apply: &A,
) -> (data: Vec<F>)
    requires
        table_len(size as int) <= usize::MAX,
        forall|i: usize, last: usize| i <= last ==> call_requires(linear, (i, last)),
        forall|c: [F; 3]| call_requires(apply, (c,)),
    ensures
        data@.len() == (if size <= 1 {
            0
        } else {
            table_len(size as int)
        }),
        size > 1 ==> forall|r: usize, g: usize, b: usize|
            in_grid(size as int, r as int, g as int, b as int) ==> baked_cell(
                *linear,
                *apply,
                size,
                (r, g, b),
                #[trigger] cell_at(data@, size as int, r as int, g as int, b as int),
            ),
{
    if size <= 1 {
        return Vec::new();
    }
    let color = |r: usize, g: usize, b: usize| -> (c: [F; 3])
        requires
            in_grid(size as int, r as int, g as int, b as int),
        ensures
            baked_cell(*linear, *apply, size, (r, g, b), c),
        { apply(grid_color(size, (r, g, b), linear)) };
    let data = fill(size, color);
    assert forall|r: usize, g: usize, b: usize|
        in_grid(size as int, r as int, g as int, b as int) implies baked_cell(
        *linear,
        *apply,
        size,
        (r, g, b),
        #[trigger] cell_at(data@, size as int, r as int, g as int, b as int),
    ) by {
        assert(call_ensures(
            color,
            (r, g, b),
            cell_at(data@, size as int, r as int, g as int, b as int),
        ));
    }
    data
}

/// `c` is the transform of the linear colour at its grid coordinates.
pub open spec fn baked_cell<F, L: Fn(usize, usize) -> F, A: Fn([F; 3]) -> [F; 3]>(
    linear: L,
    apply: A,
    size: usize,
    at: (usize, usize, usize),
    c: [F; 3],
) -> bool {
    exists|lin: [F; 3]|
        #[trigger] identity_cell(linear, size, at, lin) && call_ensures(apply, (lin,), c)
}

/// The texels of a table: the three components of each cell as half-precision samples,
/// and an opaque alpha sample behind them.
///
/// `half(x)` is the half-precision sample nearest to `x`.
pub fn lut_texels<F: Copy, H: Fn(F) -> u16>(lut: &[F], half: &H, opaque: u16) -> (rgba: Vec<u16>)
    requires
        lut.len() % 3 == 0,
        lut.len() / 3 * 4 <= usize::MAX,
        forall|x: F| call_requires(half, (x,)),
    ensures
        rgba@.len() == lut.len() / 3 * 4,
        forall|i: int|
            0 <= i < lut.len() / 3 ==> #[trigger] texel(*half, opaque, lut@, rgba@, i),
{
    let mut rgba: Vec<u16> = Vec::new();
    let cells: usize = lut.len() / 3;
    for i in 0..cells
        invariant
            cells == lut.len() / 3,
            lut.len() % 3 == 0,
            rgba@.len() == i * 4,
            forall|x: F| call_requires(half, (x,)),
            forall|k: int| 0 <= k < i ==> #[trigger] texel(*half, opaque, lut@, rgba@, k),
    {
        let ghost before = rgba@;
        rgba.push(half(lut[i * 3]));
        rgba.push(half(lut[i * 3 + 1]));
        rgba.push(half(lut[i * 3 + 2]));
        rgba.push(opaque);
        assert forall|k: int| 0 <= k < i + 1 implies #[trigger] texel(
            *half,
            opaque,
            lut@,
            rgba@,
            k,
        ) by {
            if k < i {
                assert(texel(*half, opaque, lut@, before, k));
            }
        }
    }
    rgba
}

/// Texel `i` holds the components of cell `i` and the alpha sample.
pub open spec fn texel<F, H: Fn(F) -> u16>(
    half: H,
    opaque: u16,
    lut: Seq<F>,
    rgba: Seq<u16>,
    i: int,
) -> bool {
    &&& call_ensures(half, (lut[i * 3],), rgba[i * 4])
    &&& call_ensures(half, (lut[i * 3 + 1],), rgba[i * 4 + 1])
    &&& call_ensures(half, (lut[i * 3 + 2],), rgba[i * 4 + 2])
    &&& rgba[i * 4 + 3] == opaque
}

/// A point that lies on a cell has the colour of that cell, wherever interpolating a
/// fraction `zero` of the way leaves the first value as it is.
pub proof fn lemma_sample_on_cell<F, M: Fn(F, F, F) -> F>(
    mix: M,
    data: Seq<F>,
    size: int,
    low: (int, int, int),
    zero: F,
    out: [F; 3],
)
    requires
        trilinear(mix, data, size, low, (zero, zero, zero), out),
        forall|x: F, y: F, z: F| call_ensures(mix, (x, y, zero), z) ==> z == x,
    ensures
        out == cell_at(data, size, low.0, low.1, low.2),
{
    assert forall|a: [F; 3], b: [F; 3], c: [F; 3]| #[trigger] lerped(mix, a, b, zero, c) implies c
        == a by {
        assert forall|i: int| 0 <= i < 3 implies c@[i] == a@[i] by {
            assert(call_ensures(mix, (a@[i], b@[i], zero), c@[i]));
        }
        assert(c@ =~= a@);
        assert(c =~= a);
    }
}

/// A baked table gives back what was baked: sampled at a colour of the grid it gives the
/// transform of that colour, and no sample at a colour of the grid reads past its end.
pub proof fn lemma_sample_of_baked<
    F,
    L: Fn(usize, usize) -> F,
    A: Fn([F; 3]) -> [F; 3],
    M: Fn(F, F, F) -> F,
>(
    linear: L,
    apply: A,
    mix: M,
    data: Seq<F>,
    size: usize,
    at: (usize, usize, usize),
    zero: F,
    out: [F; 3],
)
    requires
        size > 1,
        in_grid(size as int, at.0 as int, at.1 as int, at.2 as int),
        data.len() == table_len(size as int),
        forall|r: usize, g: usize, b: usize|
            in_grid(size as int, r as int, g as int, b as int) ==> baked_cell(
                linear,
                apply,
                size,
                (r, g, b),
                #[trigger] cell_at(data, size as int, r as int, g as int, b as int),
            ),
        forall|x: F, y: F, z: F| call_ensures(mix, (x, y, zero), z) ==> z == x,
        trilinear(
            mix,
            data,
            size as int,
            (at.0 as int, at.1 as int, at.2 as int),
            (zero, zero, zero),
            out,
        ),
    ensures
        cell(
            size as int,
            far_coord(size as int, at.0 as int),
            far_coord(size as int, at.1 as int),
            far_coord(size as int, at.2 as int),
        ) + 2 < data.len(),
        baked_cell(linear, apply, size, at, out),
{
    let n = size as int;
    let (r, g, b) = (at.0 as int, at.1 as int, at.2 as int);
    lemma_cell_in_table(n, far_coord(n, r), far_coord(n, g), far_coord(n, b));
    lemma_sample_on_cell(mix, data, n, (r, g, b), zero, out);
}

/// How a table is laid out: it starts with the first cell, a step in red moves on by one cell, a
/// step in green by a row of cells, a step in blue by a square of cells, and the table ends where
/// the blue axis does.
pub proof fn lemma_layout(size: int, r: int, g: int, b: int)
    ensures
        cell(size, 0, 0, 0) == 0,
        cell(size, r + 1, g, b) == cell(size, r, g, b) + 3,
        cell(size, r, g + 1, b) == cell(size, r, g, b) + 3 * size,
        cell(size, r, g, b + 1) == cell(size, r, g, b) + 3 * (size * size),
        table_len(size) == cell(size, 0, 0, size),
        table_len(size) == 3 * (size * size * size),
{
    assert(0 * size * size == 0 && 0 * size == 0) by (nonlinear_arith);
    assert((g + 1) * size == g * size + size) by (nonlinear_arith);
    assert((b + 1) * size * size == b * size * size + size * size) by (nonlinear_arith);
}

/// The components of a cell lie behind one another in the table: red, green, blue.
pub proof fn lemma_cell_components<F>(data: Seq<F>, size: int, r: int, g: int, b: int, k: int)
    requires
        0 <= k < 3,
    ensures
        cell_at(data, size, r, g, b)@[k] == data[3 * ((b * size + g) * size + r) + k],
{
    lemma_cell_nested(size, r, g, b);
}

/// Interpolating is the business of each component alone, and it ends where it should: none of
/// the way gives the first colour, the whole way the second.
pub proof fn lemma_lerp_ends<F, M: Fn(F, F, F) -> F>(
    mix: M,
    a: [F; 3],
    b: [F; 3],
    zero: F,
    one: F,
    c: [F; 3],
)
    requires
        forall|x: F, y: F, z: F| call_ensures(mix, (x, y, zero), z) ==> z == x,
        forall|x: F, y: F, z: F| call_ensures(mix, (x, y, one), z) ==> z == y,
    ensures
        lerped(mix, a, b, zero, c) ==> c == a,
        lerped(mix, a, b, one, c) ==> c == b,
{
    if lerped(mix, a, b, zero, c) {
        assert forall|i: int| 0 <= i < 3 implies c@[i] == a@[i] by {
            assert(call_ensures(mix, (a@[i], b@[i], zero), c@[i]));
        }
        assert(c@ =~= a@);
        assert(c =~= a);
    }
    if lerped(mix, a, b, one, c) {
        assert forall|i: int| 0 <= i < 3 implies c@[i] == b@[i] by {
            assert(call_ensures(mix, (a@[i], b@[i], one), c@[i]));
        }
        assert(c@ =~= b@);
        assert(c =~= b);
    }
}

/// Interpolating takes each component of the two colours to the same component of the result.
pub proof fn lemma_lerp_components<F, M: Fn(F, F, F) -> F>(
    mix: M,
    a: [F; 3],
    b: [F; 3],
    t: F,
    c: [F; 3],
)
    ensures
        lerped(mix, a, b, t, c) <==> {
            &&& call_ensures(mix, (a@[0], b@[0], t), c@[0])
            &&& call_ensures(mix, (a@[1], b@[1], t), c@[1])
            &&& call_ensures(mix, (a@[2], b@[2], t), c@[2])
        },
{
    if call_ensures(mix, (a@[0], b@[0], t), c@[0]) && call_ensures(mix, (a@[1], b@[1], t), c@[1])
        && call_ensures(mix, (a@[2], b@[2], t), c@[2]) {
        assert forall|i: int| 0 <= i < 3 implies call_ensures(
            mix,
            (a@[i], b@[i], t),
            #[trigger] c@[i],
        ) by {
            if i == 0 {
            } else if i == 1 {
            } else {
                assert(i == 2);
            }
        }
    }
    if lerped(mix, a, b, t, c) {
        assert(call_ensures(mix, (a@[0], b@[0], t), c@[0]));
        assert(call_ensures(mix, (a@[1], b@[1], t), c@[1]));
        assert(call_ensures(mix, (a@[2], b@[2], t), c@[2]));
    }
}

/// Sampling interpolates between adjacent cells: a whole step along an axis leads to the next
/// cell on that axis, whichever axes the steps are taken along, and no step leads past the last
/// cell of an axis.
pub proof fn lemma_sample_steps<F, M: Fn(F, F, F) -> F>(
    mix: M,
    data: Seq<F>,
    size: int,
    low: (int, int, int),
    step: (bool, bool, bool),
    zero: F,
    one: F,
    out: [F; 3],
    k: int,
)
    requires
        0 <= low.0 < size,
        0 <= low.1 < size,
        0 <= low.2 < size,
        0 <= k < 3,
        forall|x: F, y: F, z: F| call_ensures(mix, (x, y, zero), z) ==> z == x,
        forall|x: F, y: F, z: F| call_ensures(mix, (x, y, one), z) ==> z == y,
        trilinear(
            mix,
            data,
            size,
            low,
            (
                if step.0 {
                    one
                } else {
                    zero
                },
                if step.1 {
                    one
                } else {
                    zero
                },
                if step.2 {
                    one
                } else {
                    zero
                },
            ),
            out,
        ),
    ensures
        ({
            let r = if step.0 && low.0 + 1 < size {
                low.0 + 1
            } else {
                low.0
            };
            let g = if step.1 && low.1 + 1 < size {
                low.1 + 1
            } else {
                low.1
            };
            let b = if step.2 && low.2 + 1 < size {
                low.2 + 1
            } else {
                low.2
            };
            out@[k] == data[3 * ((b * size + g) * size + r) + k]
        }),
{
    assert forall|a: [F; 3], b: [F; 3], c: [F; 3]| #[trigger] lerped(mix, a, b, zero, c) implies c
        == a by {
        lemma_lerp_ends(mix, a, b, zero, one, c);
    }
    assert forall|a: [F; 3], b: [F; 3], c: [F; 3]| #[trigger] lerped(mix, a, b, one, c) implies c
        == b by {
        lemma_lerp_ends(mix, a, b, zero, one, c);
    }
    let r = if step.0 && low.0 + 1 < size {
        low.0 + 1
    } else {
        low.0
    };
    let g = if step.1 && low.1 + 1 < size {
        low.1 + 1
    } else {
        low.1
    };
    let b = if step.2 && low.2 + 1 < size {
        low.2 + 1
    } else {
        low.2
    };
    lemma_cell_components(data, size, r, g, b, k);
    assert(out == cell_at(data, size, r, g, b));
}

/// A sample is made of the eight cells around the point and of nothing else, each component by
/// itself: four values along red, two of them along green, one of those along blue. Every way
/// along an axis is the one that was given for it.
pub proof fn lemma_sample_components<F, M: Fn(F, F, F) -> F>(
    mix: M,
    data: Seq<F>,
    size: int,
    low: (int, int, int),
    t: (F, F, F),
    out: [F; 3],
    k: int,
)
    requires
        0 <= low.0 < size,
        0 <= low.1 < size,
        0 <= low.2 < size,
        0 <= k < 3,
        trilinear(mix, data, size, low, t, out),
    ensures
        ({
            let up = |c: int|
                if c + 1 < size {
                    c + 1
                } else {
                    c
                };
            let at = |r: int, g: int, b: int| data[3 * ((b * size + g) * size + r) + k];
            let (r, g, b) = low;
            exists|v00: F, v10: F, v01: F, v11: F, v0: F, v1: F|
                {
                    &&& #[trigger] call_ensures(mix, (at(r, g, b), at(up(r), g, b), t.0), v00)
                    &&& #[trigger] call_ensures(
                        mix,
                        (at(r, up(g), b), at(up(r), up(g), b), t.0),
                        v10,
                    )
                    &&& #[trigger] call_ensures(
                        mix,
                        (at(r, g, up(b)), at(up(r), g, up(b)), t.0),
                        v01,
                    )
                    &&& #[trigger] call_ensures(
                        mix,
                        (at(r, up(g), up(b)), at(up(r), up(g), up(b)), t.0),
                        v11,
                    )
                    &&& #[trigger] call_ensures(mix, (v00, v10, t.1), v0)
                    &&& #[trigger] call_ensures(mix, (v01, v11, t.1), v1)
                    &&& call_ensures(mix, (v0, v1, t.2), out@[k])
                }
        }),
{
    let (r0, g0, b0) = low;
    let r1 = next_coord(size, r0);
    let g1 = next_coord(size, g0);
    let b1 = next_coord(size, b0);
    let (c00, c10, c01, c11, c0, c1) = choose|
        c00: [F; 3],
        c10: [F; 3],
        c01: [F; 3],
        c11: [F; 3],
        c0: [F; 3],
        c1: [F; 3],
    |
        {
            &&& #[trigger] lerped(
                mix,
                cell_at(data, size, r0, g0, b0),
                cell_at(data, size, r1, g0, b0),
                t.0,
                c00,
            )
            &&& #[trigger] lerped(
                mix,
                cell_at(data, size, r0, g1, b0),
                cell_at(data, size, r1, g1, b0),
                t.0,
                c10,
            )
            &&& #[trigger] lerped(
                mix,
                cell_at(data, size, r0, g0, b1),
                cell_at(data, size, r1, g0, b1),
                t.0,
                c01,
            )
            &&& #[trigger] lerped(
                mix,
                cell_at(data, size, r0, g1, b1),
                cell_at(data, size, r1, g1, b1),
                t.0,
                c11,
            )
            &&& #[trigger] lerped(mix, c00, c10, t.1, c0)
            &&& #[trigger] lerped(mix, c01, c11, t.1, c1)
            &&& lerped(mix, c0, c1, t.2, out)
        };
    let up = |c: int|
        if c + 1 < size {
            c + 1
        } else {
            c
        };
    assert(r1 == up(r0) && g1 == up(g0) && b1 == up(b0));
    lemma_cell_components(data, size, r0, g0, b0, k);
    lemma_cell_components(data, size, r1, g0, b0, k);
    lemma_cell_components(data, size, r0, g1, b0, k);
    lemma_cell_components(data, size, r1, g1, b0, k);
    lemma_cell_components(data, size, r0, g0, b1, k);
    lemma_cell_components(data, size, r1, g0, b1, k);
    lemma_cell_components(data, size, r0, g1, b1, k);
    lemma_cell_components(data, size, r1, g1, b1, k);
    let at = |r: int, g: int, b: int| data[3 * ((b * size + g) * size + r) + k];
    assert(call_ensures(mix, (at(r0, g0, b0), at(up(r0), g0, b0), t.0), c00@[k]));
    assert(call_ensures(mix, (at(r0, up(g0), b0), at(up(r0), up(g0), b0), t.0), c10@[k]));
    assert(call_ensures(mix, (at(r0, g0, up(b0)), at(up(r0), g0, up(b0)), t.0), c01@[k]));
    assert(call_ensures(mix, (at(r0, up(g0), up(b0)), at(up(r0), up(g0), up(b0)), t.0), c11@[k]));
    assert(call_ensures(mix, (c00@[k], c10@[k], t.1), c0@[k]));
    assert(call_ensures(mix, (c01@[k], c11@[k], t.1), c1@[k]));
    assert(call_ensures(mix, (c0@[k], c1@[k], t.2), out@[k]));
}

/// The table that maps each colour to itself holds in each component of a cell the coordinate of
/// that cell on the component's own axis: red, green, blue.
pub proof fn lemma_identity_components<F, C: Fn(usize, usize) -> F>(
    coord: C,
    data: Seq<F>,
    size: usize,
    r: usize,
    g: usize,
    b: usize,
)
    requires
        r < size,
        g < size,
        b < size,
        identity_cell(
            coord,
            size,
            (r, g, b),
            cell_at(data, size as int, r as int, g as int, b as int),
        ),
    ensures
        ({
            let p = 3 * ((b * size + g) * size + r);
            let last = (size - 1) as usize;
            &&& call_ensures(coord, (r, last), data[p])
            &&& call_ensures(coord, (g, last), data[p + 1])
            &&& call_ensures(coord, (b, last), data[p + 2])
        }),
{
    lemma_cell_nested(size as int, r as int, g as int, b as int);
}

/// A baked table holds in each cell what the transform makes of the linear colour at the cell's
/// coordinates, all three components of it together.
pub proof fn lemma_baked_components<F, L: Fn(usize, usize) -> F, A: Fn([F; 3]) -> [F; 3]>(
    linear: L,
    apply: A,
    data: Seq<F>,
    size: usize,
    r: usize,
    g: usize,
    b: usize,
)
    requires
        r < size,
        g < size,
        b < size,
        baked_cell(
            linear,
            apply,
            size,
            (r, g, b),
            cell_at(data, size as int, r as int, g as int, b as int),
        ),
    ensures
        ({
            let p = 3 * ((b * size + g) * size + r);
            let last = (size - 1) as usize;
            exists|red: F, green: F, blue: F|
                {
                    &&& #[trigger] call_ensures(linear, (r, last), red)
                    &&& #[trigger] call_ensures(linear, (g, last), green)
                    &&& #[trigger] call_ensures(linear, (b, last), blue)
                    &&& call_ensures(
                        apply,
                        ([red, green, blue],),
                        [data[p], data[p + 1], data[p + 2]],
                    )
                }
        }),
{
    lemma_cell_nested(size as int, r as int, g as int, b as int);
    let c = cell_at(data, size as int, r as int, g as int, b as int);
    let last = (size - 1) as usize;
    let lin = choose|lin: [F; 3]|
        #[trigger] identity_cell(linear, size, (r, g, b), lin) && call_ensures(apply, (lin,), c);
    assert(call_ensures(linear, (r, last), lin@[0]));
    assert(call_ensures(linear, (g, last), lin@[1]));
    assert(call_ensures(linear, (b, last), lin@[2]));
    let colour = [lin@[0], lin@[1], lin@[2]];
    assert(colour@ =~= lin@);
    assert(colour =~= lin);
}

/// The texels of a table are its components in half precision, in order, with an opaque sample
/// after every third.
pub proof fn lemma_texel_components<F, H: Fn(F) -> u16>(
    half: H,
    opaque: u16,
    lut: Seq<F>,
    rgba: Seq<u16>,
    i: int,
    k: int,
)
    requires
        0 <= k < 3,
        texel(half, opaque, lut, rgba, i),
    ensures
        call_ensures(half, (lut[3 * i + k],), rgba[4 * i + k]),
        rgba[4 * i + 3] == opaque,
{
}

/// A colour is a cell of the grid where each coordinate lies below the edge length.
pub proof fn lemma_grid_is_whole(size: int, r: int, g: int, b: int)
    ensures
        in_grid(size, r, g, b) <==> 0 <= r && r < size && 0 <= g && g < size && 0 <= b && b < size,
{
}

}
