use vstd::prelude::*;
use crate::grid::{
    GridConfig, bit, cell_index, generations, lemma_cell_in_grid, lemma_coords_of_index, lemma_index_coords, lemma_wrap,
    live, neighbor_count, rule, step_grid, wrap,
};
use crate::render::{
    ALIVE_COLOR, BACKGROUND_COLOR, DEAD_COLOR, frame_pixel, in_block, lemma_block_iff,
    lemma_region_iff,
};
use crate::seed::{PatternView, lands_on, stamped};

verus! {

/// Every neighbour position lies on the grid, and wraps to the opposite edge exactly
/// where a step leaves it; the count of live neighbours is between 0 and 8, and the
/// corner `(0, 0)` sees the opposite corner `(w - 1, h - 1)`.
pub proof fn lemma_neighbors_wrap(g: Seq<bool>, w: int, h: int, x: int, y: int)
    requires
        0 <= x < w,
        0 <= y < h,
    ensures
        forall|d: int|
            -1 <= d <= 1 ==> 0 <= #[trigger] wrap(x, d, w) < w && wrap(x, d, w) == if x + d < 0 {
                w - 1
            } else if x + d >= w {
                0
            } else {
                x + d
            },
        forall|d: int|
            -1 <= d <= 1 ==> 0 <= #[trigger] wrap(y, d, h) < h && wrap(y, d, h) == if y + d < 0 {
                h - 1
            } else if y + d >= h {
                0
            } else {
                y + d
            },
        0 <= neighbor_count(g, w, h, x, y) <= 8,
        wrap(0, -1, w) == w - 1 && wrap(0, -1, h) == h - 1,
        live(g, w, w - 1, h - 1) ==> neighbor_count(g, w, h, 0, 0) >= 1,
{
    assert forall|d: int| -1 <= d <= 1 implies 0 <= #[trigger] wrap(x, d, w) < w && wrap(x, d, w)
        == if x + d < 0 {
        w - 1
    } else if x + d >= w {
        0
    } else {
        x + d
    } by {
        lemma_wrap(x, d, w);
    }
    assert forall|d: int| -1 <= d <= 1 implies 0 <= #[trigger] wrap(y, d, h) < h && wrap(y, d, h)
        == if y + d < 0 {
        h - 1
    } else if y + d >= h {
        0
    } else {
        y + d
    } by {
        lemma_wrap(y, d, h);
    }
    lemma_wrap(0, -1, w);
    lemma_wrap(0, -1, h);
}

/// The next generation depends on the current grid alone: equal grids step to equal grids.
pub proof fn lemma_step_deterministic(g1: Seq<bool>, g2: Seq<bool>, w: int, h: int)
    requires
        g1 =~= g2,
    ensures
        step_grid(g1, w, h) == step_grid(g2, w, h),
{
}

/// A live cell without live neighbours is dead in the next generation.
pub proof fn lemma_isolated_cell_dies(g: Seq<bool>, w: int, h: int, x: int, y: int)
    requires
        0 <= x < w,
        0 <= y < h,
        g.len() == w * h,
        live(g, w, x, y),
        neighbor_count(g, w, h, x, y) == 0,
    ensures
        !live(step_grid(g, w, h), w, x, y),
{
    lemma_index_coords(w, x, y);
    assert(cell_index(w, x, y) < w * h) by (nonlinear_arith)
        requires
            0 <= x < w,
            0 <= y < h,
    ;
}

/// The grid of `w` by `h` dead cells.
pub open spec fn empty_grid(w: int, h: int) -> Seq<bool> {
    Seq::new((w * h) as nat, |i: int| false)
}

/// A grid without live cells stays without live cells in every later generation.
pub proof fn lemma_empty_stays_empty(w: int, h: int, n: nat)
    requires
        w > 0,
        h > 0,
    ensures
        generations(empty_grid(w, h), w, h, n) == empty_grid(w, h),
    decreases n,
{
    if n > 0 {
        lemma_empty_stays_empty(w, h, (n - 1) as nat);
        let g = empty_grid(w, h);
        assert forall|i: int| 0 <= i < w * h implies !#[trigger] step_grid(g, w, h)[i] by {
            lemma_coords_of_index(w, h, i);
            lemma_neighbors_wrap(g, w, h, i % w, i / w);
            assert forall|a: int, b: int| 0 <= a < w && 0 <= b < h implies !#[trigger] live(
                g,
                w,
                a,
                b,
            ) by {
                lemma_cell_in_grid(w, h, a, b);
            }
        }
        assert(step_grid(empty_grid(w, h), w, h) =~= empty_grid(w, h));
    }
}

/// The grid whose only live cell is `(x, y)`.
pub open spec fn single_cell_grid(w: int, h: int, x: int, y: int) -> Seq<bool> {
    Seq::new((w * h) as nat, |i: int| i == cell_index(w, x, y))
}

/// In the picture of a grid whose only live cell is `(x0, y0)`, a pixel has the live
/// color exactly when it lies in that cell's block; every other pixel that a block
/// covers has the dead color, and every pixel outside all blocks the background.
pub proof fn lemma_render_single_cell(cfg: GridConfig, x0: int, y0: int, px: int, py: int)
    requires
        cfg.wf(),
        0 <= x0 < cfg.width,
        0 <= y0 < cfg.height,
        0 <= px < cfg.out_width,
        0 <= py < cfg.out_height,
    ensures
        ({
            let g = single_cell_grid(cfg.width as int, cfg.height as int, x0, y0);
            let sx = cfg.spec_scale_x();
            let sy = cfg.spec_scale_y();
            &&& frame_pixel(g, cfg, px, py) == ALIVE_COLOR <==> in_block(sx, sy, x0, y0, px, py)
            &&& !in_block(sx, sy, x0, y0, px, py) ==> frame_pixel(g, cfg, px, py) == if px
                < cfg.width * sx && py < cfg.height * sy {
                DEAD_COLOR
            } else {
                BACKGROUND_COLOR
            }
        }),
{
    let w = cfg.width as int;
    let h = cfg.height as int;
    let sx = cfg.spec_scale_x();
    let sy = cfg.spec_scale_y();
    vstd::arithmetic::div_mod::lemma_div_pos_is_pos(cfg.out_width as int, w);
    vstd::arithmetic::div_mod::lemma_div_pos_is_pos(cfg.out_height as int, h);
    if sx > 0 && sy > 0 {
        lemma_block_iff(sx, x0, px);
        lemma_block_iff(sy, y0, py);
        lemma_region_iff(sx, w, px);
        lemma_region_iff(sy, h, py);
        vstd::arithmetic::div_mod::lemma_div_pos_is_pos(px, sx);
        vstd::arithmetic::div_mod::lemma_div_pos_is_pos(py, sy);
        if px < w * sx && py < h * sy {
            let cx = px / sx;
            let cy = py / sy;
            lemma_index_coords(w, cx, cy);
            lemma_index_coords(w, x0, y0);
            assert(cell_index(w, cx, cy) < w * h) by (nonlinear_arith)
                requires
                    0 <= cx < w,
                    0 <= cy < h,
            ;
        }
    } else {
        assert(w * sx <= 0 || h * sy <= 0) by (nonlinear_arith)
            requires
                sx >= 0,
                sy >= 0,
                !(sx > 0 && sy > 0),
        ;
    }
}

/// Stamping a pattern sets alive the cell of every offset that lands on the grid, and
/// turns no other cell alive: an offset that lands outside the grid changes nothing
/// and does not wrap to another row or column.
pub proof fn lemma_stamp_clips(g: Seq<bool>, w: int, h: int, p: PatternView)
    requires
        w > 0,
        h > 0,
        g.len() == w * h,
    ensures
        forall|k: int|
            0 <= k < p.2.len() && p.0 + p.2[k].0 < w && p.1 + p.2[k].1 < h ==> #[trigger] stamped(
                g,
                w,
                p,
                p.2.len() as int,
            )[cell_index(w, p.0 + p.2[k].0, p.1 + p.2[k].1)],
        forall|i: int|
            0 <= i < w * h && !g[i] && #[trigger] stamped(g, w, p, p.2.len() as int)[i] ==> exists|
                k: int,
            |
                0 <= k < p.2.len() && p.0 + p.2[k].0 < w && p.1 + p.2[k].1 < h && i == cell_index(
                    w,
                    p.0 + p.2[k].0,
                    p.1 + p.2[k].1,
                ),
{
    let n = p.2.len() as int;
    assert forall|k: int|
        0 <= k < p.2.len() && p.0 + p.2[k].0 < w && p.1 + p.2[k].1 < h implies #[trigger] stamped(
        g,
        w,
        p,
        n,
    )[cell_index(w, p.0 + p.2[k].0, p.1 + p.2[k].1)] by {
        let x = p.0 + p.2[k].0;
        let y = p.1 + p.2[k].1;
        lemma_index_coords(w, x, y);
        assert(cell_index(w, x, y) < w * h) by (nonlinear_arith)
            requires
                0 <= x < w,
                0 <= y < h,
        ;
        assert(lands_on(p, n, x, y));
    }
    assert forall|i: int|
        0 <= i < w * h && !g[i] && #[trigger] stamped(g, w, p, n)[i] implies exists|k: int|
        0 <= k < p.2.len() && p.0 + p.2[k].0 < w && p.1 + p.2[k].1 < h && i == cell_index(
            w,
            p.0 + p.2[k].0,
            p.1 + p.2[k].1,
        ) by {
        lemma_coords_of_index(w, h, i);
        let k = choose|k: int| 0 <= k < n && p.0 + p.2[k].0 == i % w && p.1 + p.2[k].1 == i / w;
        assert(0 <= k < p.2.len() && p.0 + p.2[k].0 < w && p.1 + p.2[k].1 < h && i == cell_index(
            w,
            p.0 + p.2[k].0,
            p.1 + p.2[k].1,
        ));
    }
}

/// The grid whose live cells are those with a column in `cols` and a row in `rows`.
pub open spec fn product_grid(
    w: int,
    h: int,
    cols: spec_fn(int) -> bool,
    rows: spec_fn(int) -> bool,
) -> Seq<bool> {
    Seq::new((w * h) as nat, |i: int| cols(i % w) && rows(i / w))
}

/// How many of the three positions around `c` on a ring of `n` lie in `s`.
pub open spec fn window(s: spec_fn(int) -> bool, c: int, n: int) -> int {
    bit(s(wrap(c, -1, n))) + bit(s(wrap(c, 0, n))) + bit(s(wrap(c, 1, n)))
}

/// The three positions centred on `c` on a ring of `n`.
pub open spec fn triple(c: int, n: int) -> spec_fn(int) -> bool {
    |a: int| a == wrap(c, -1, n) || a == c || a == wrap(c, 1, n)
}

/// The single position `c`.
pub open spec fn single(c: int) -> spec_fn(int) -> bool {
    |a: int| a == c
}

/// In a product grid the neighbours of a cell are counted column window by row window,
/// less the cell itself.
proof fn lemma_product_count(
    w: int,
    h: int,
    cols: spec_fn(int) -> bool,
    rows: spec_fn(int) -> bool,
    x: int,
    y: int,
)
    requires
        0 <= x < w,
        0 <= y < h,
    ensures
        neighbor_count(product_grid(w, h, cols, rows), w, h, x, y) == window(cols, x, w) * window(
            rows,
            y,
            h,
        ) - bit(cols(x) && rows(y)),
{
    let g = product_grid(w, h, cols, rows);
    lemma_neighbors_wrap(g, w, h, x, y);
    assert forall|a: int, b: int| 0 <= a < w && 0 <= b < h implies #[trigger] live(g, w, a, b) == (
    cols(a) && rows(b)) by {
        lemma_cell_in_grid(w, h, a, b);
        lemma_index_coords(w, a, b);
    }
    let c0 = bit(cols(wrap(x, -1, w)));
    let c1 = bit(cols(wrap(x, 0, w)));
    let c2 = bit(cols(wrap(x, 1, w)));
    let r0 = bit(rows(wrap(y, -1, h)));
    let r1 = bit(rows(wrap(y, 0, h)));
    let r2 = bit(rows(wrap(y, 1, h)));
    assert((c0 + c1 + c2) * (r0 + r1 + r2) == c0 * r0 + c1 * r0 + c2 * r0 + c0 * r1 + c1 * r1 + c2
        * r1 + c0 * r2 + c1 * r2 + c2 * r2) by (nonlinear_arith);
}

/// On a ring of at least three positions, the window around `x` holds `c` at most once,
/// and holds it exactly when `x` is one of the three positions centred on `c`.
proof fn lemma_single_window(n: int, c: int, x: int)
    requires
        n >= 3,
        0 <= c < n,
        0 <= x < n,
    ensures
        window(single(c), x, n) == bit(triple(c, n)(x)),
{
    lemma_wrap(x, -1, n);
    lemma_wrap(x, 0, n);
    lemma_wrap(x, 1, n);
    lemma_wrap(c, -1, n);
    lemma_wrap(c, 1, n);
}

/// On a ring of at least four positions, the window around `x` holds all three positions
/// centred on `c` exactly when `x` is `c`.
proof fn lemma_triple_window(n: int, c: int, x: int)
    requires
        n >= 4,
        0 <= c < n,
        0 <= x < n,
    ensures
        window(triple(c, n), x, n) == 3 <==> x == c,
        triple(c, n)(c),
{
    lemma_wrap(x, -1, n);
    lemma_wrap(x, 0, n);
    lemma_wrap(x, 1, n);
    lemma_wrap(c, -1, n);
    lemma_wrap(c, 0, n);
    lemma_wrap(c, 1, n);
}

/// The 2 by 2 block with top left cell `(ox, oy)`.
pub open spec fn block_grid(w: int, h: int, ox: int, oy: int) -> Seq<bool> {
    product_grid(w, h, |a: int| ox <= a <= ox + 1, |b: int| oy <= b <= oy + 1)
}

/// A 2 by 2 block is a still life: it is unchanged by every number of generations, on
/// every grid of at least three columns and three rows.
pub proof fn lemma_block_still_life(w: int, h: int, ox: int, oy: int, n: nat)
    requires
        w >= 3,
        h >= 3,
        0 <= ox,
        ox + 1 < w,
        0 <= oy,
        oy + 1 < h,
    ensures
        generations(block_grid(w, h, ox, oy), w, h, n) == block_grid(w, h, ox, oy),
    decreases n,
{
    let cols = |a: int| ox <= a <= ox + 1;
    let rows = |b: int| oy <= b <= oy + 1;
    let g = block_grid(w, h, ox, oy);
    assert forall|i: int| 0 <= i < w * h implies #[trigger] step_grid(g, w, h)[i] == g[i] by {
        lemma_coords_of_index(w, h, i);
        let x = i % w;
        let y = i / w;
        lemma_product_count(w, h, cols, rows, x, y);
        lemma_wrap(x, -1, w);
        lemma_wrap(x, 0, w);
        lemma_wrap(x, 1, w);
        lemma_wrap(y, -1, h);
        lemma_wrap(y, 0, h);
        lemma_wrap(y, 1, h);
        let cw = window(cols, x, w);
        let rw = window(rows, y, h);
        assert(0 <= cw <= 2 && 0 <= rw <= 2);
        assert(cols(x) ==> cw == 2);
        assert(rows(y) ==> rw == 2);
        assert(cw * rw != 3 && (cw == 2 && rw == 2 ==> cw * rw == 4)) by (nonlinear_arith)
            requires
                0 <= cw <= 2,
                0 <= rw <= 2,
        ;
    }
    assert(step_grid(g, w, h) =~= g);
    if n > 0 {
        lemma_block_still_life(w, h, ox, oy, (n - 1) as nat);
    }
}

/// The horizontal blinker centred on `(cx, cy)`.
pub open spec fn horizontal_blinker(w: int, h: int, cx: int, cy: int) -> Seq<bool> {
    product_grid(w, h, triple(cx, w), single(cy))
}

/// The vertical blinker centred on `(cx, cy)`.
pub open spec fn vertical_blinker(w: int, h: int, cx: int, cy: int) -> Seq<bool> {
    product_grid(w, h, single(cx), triple(cy, h))
}

/// A blinker turns from horizontal to vertical about its centre and back, so it repeats
/// every two generations, on every grid of at least four columns and four rows.
pub proof fn lemma_blinker_period_two(w: int, h: int, cx: int, cy: int)
    requires
        w >= 4,
        h >= 4,
        0 <= cx < w,
        0 <= cy < h,
    ensures
        step_grid(horizontal_blinker(w, h, cx, cy), w, h) == vertical_blinker(w, h, cx, cy),
        step_grid(vertical_blinker(w, h, cx, cy), w, h) == horizontal_blinker(w, h, cx, cy),
        horizontal_blinker(w, h, cx, cy) != vertical_blinker(w, h, cx, cy),
        generations(horizontal_blinker(w, h, cx, cy), w, h, 2) == horizontal_blinker(
            w,
            h,
            cx,
            cy,
        ),
{
    let hb = horizontal_blinker(w, h, cx, cy);
    let vb = vertical_blinker(w, h, cx, cy);
    assert forall|i: int| 0 <= i < w * h implies #[trigger] step_grid(hb, w, h)[i] == vb[i] by {
        lemma_coords_of_index(w, h, i);
        let x = i % w;
        let y = i / w;
        lemma_product_count(w, h, triple(cx, w), single(cy), x, y);
        lemma_triple_window(w, cx, x);
        lemma_single_window(h, cy, y);
        lemma_wrap(cy, -1, h);
        lemma_wrap(cy, 1, h);
        let cw = window(triple(cx, w), x, w);
        let rw = window(single(cy), y, h);
        assert(0 <= cw <= 3);
        assert(cw * rw == if rw == 0 { 0 } else { cw }) by (nonlinear_arith)
            requires
                rw == 0 || rw == 1,
        ;
        assert(single(cy)(y) ==> triple(cy, h)(y));
    }
    assert(step_grid(hb, w, h) =~= vb);
    assert forall|i: int| 0 <= i < w * h implies #[trigger] step_grid(vb, w, h)[i] == hb[i] by {
        lemma_coords_of_index(w, h, i);
        let x = i % w;
        let y = i / w;
        lemma_product_count(w, h, single(cx), triple(cy, h), x, y);
        lemma_triple_window(h, cy, y);
        lemma_single_window(w, cx, x);
        lemma_wrap(cx, -1, w);
        lemma_wrap(cx, 1, w);
    }
    assert(step_grid(vb, w, h) =~= hb);
    let xr = wrap(cx, 1, w);
    lemma_wrap(cx, 1, w);
    lemma_cell_in_grid(w, h, xr, cy);
    lemma_index_coords(w, xr, cy);
    assert(hb[cell_index(w, xr, cy)] != vb[cell_index(w, xr, cy)]);
    reveal_with_fuel(generations, 3);
}

/// Adding to a remainder, then reducing, is adding then reducing.
proof fn lemma_mod_shift(a: int, b: int, n: int)
    requires
        n > 0,
    ensures
        ((a % n) + b) % n == (a + b) % n,
{
    vstd::arithmetic::div_mod::lemma_add_mod_noop(a % n, b, n);
    vstd::arithmetic::div_mod::lemma_add_mod_noop(a, b, n);
    vstd::arithmetic::div_mod::lemma_mod_twice(a, n);
}

/// Position of `x` relative to `o` on a ring of `n` positions.
pub open spec fn rel(x: int, o: int, n: int) -> int {
    (x - o) % n
}

/// The grid whose live cells are those whose position relative to `(ox, oy)` satisfies `p`.
pub open spec fn placed(w: int, h: int, ox: int, oy: int, p: spec_fn(int, int) -> bool) -> Seq<
    bool,
> {
    Seq::new((w * h) as nat, |i: int| p(rel(i % w, ox, w), rel(i / w, oy, h)))
}

/// Number of positions among the eight toroidal neighbours of `(u, v)` that satisfy `p`.
pub open spec fn shape_count(p: spec_fn(int, int) -> bool, w: int, h: int, u: int, v: int) -> int {
    bit(p(wrap(u, -1, w), wrap(v, -1, h))) + bit(p(wrap(u, 0, w), wrap(v, -1, h))) + bit(
        p(wrap(u, 1, w), wrap(v, -1, h)),
    ) + bit(p(wrap(u, -1, w), wrap(v, 0, h))) + bit(p(wrap(u, 1, w), wrap(v, 0, h))) + bit(
        p(wrap(u, -1, w), wrap(v, 1, h)),
    ) + bit(p(wrap(u, 0, w), wrap(v, 1, h))) + bit(p(wrap(u, 1, w), wrap(v, 1, h)))
}

/// Stepping, then taking positions relative to `o`, is taking them, then stepping.
proof fn lemma_rel_wrap(x: int, o: int, d: int, n: int)
    requires
        n > 0,
    ensures
        rel(wrap(x, d, n), o, n) == wrap(rel(x, o, n), d, n),
{
    lemma_mod_shift(x + d + n, -o, n);
    lemma_mod_shift(x - o, d + n, n);
    assert(x + d + n + (-o) == x - o + (d + n));
}

/// A shape placed anywhere on the torus steps to the shape that its relative
/// neighbour counts give.
proof fn lemma_placed_step(
    w: int,
    h: int,
    ox: int,
    oy: int,
    p: spec_fn(int, int) -> bool,
    q: spec_fn(int, int) -> bool,
)
    requires
        w > 0,
        h > 0,
        forall|u: int, v: int|
            0 <= u < w && 0 <= v < h ==> rule(p(u, v), #[trigger] shape_count(p, w, h, u, v)) == q(
                u,
                v,
            ),
    ensures
        step_grid(placed(w, h, ox, oy, p), w, h) == placed(w, h, ox, oy, q),
{
    let g = placed(w, h, ox, oy, p);
    assert forall|a: int, b: int| 0 <= a < w && 0 <= b < h implies #[trigger] live(g, w, a, b) == p(
        rel(a, ox, w),
        rel(b, oy, h),
    ) by {
        lemma_cell_in_grid(w, h, a, b);
        lemma_index_coords(w, a, b);
    }
    assert forall|i: int| 0 <= i < w * h implies #[trigger] step_grid(g, w, h)[i] == placed(
        w,
        h,
        ox,
        oy,
        q,
    )[i] by {
        lemma_coords_of_index(w, h, i);
        let x = i % w;
        let y = i / w;
        lemma_neighbors_wrap(g, w, h, x, y);
        lemma_rel_wrap(x, ox, -1, w);
        lemma_rel_wrap(x, ox, 0, w);
        lemma_rel_wrap(x, ox, 1, w);
        lemma_rel_wrap(y, oy, -1, h);
        lemma_rel_wrap(y, oy, 0, h);
        lemma_rel_wrap(y, oy, 1, h);
        lemma_wrap(x, 0, w);
        lemma_wrap(y, 0, h);
        let u = rel(x, ox, w);
        let v = rel(y, oy, h);
        vstd::arithmetic::div_mod::lemma_mod_bound(x - ox, w);
        vstd::arithmetic::div_mod::lemma_mod_bound(y - oy, h);
        assert(neighbor_count(g, w, h, x, y) == shape_count(p, w, h, u, v));
        assert(rule(p(u, v), shape_count(p, w, h, u, v)) == q(u, v));
    }
    assert(step_grid(g, w, h) =~= placed(w, h, ox, oy, q));
}

/// The glider, heading down and right, in its starting phase.
pub open spec fn glider_shape() -> spec_fn(int, int) -> bool {
    |u: int, v: int|
        (u == 1 && v == 0) || (u == 2 && v == 1) || (u == 0 && v == 2) || (u == 1 && v == 2) || (u
            == 2 && v == 2)
}

/// The glider one generation on.
pub open spec fn glider_phase_one() -> spec_fn(int, int) -> bool {
    |u: int, v: int|
        (u == 0 && v == 1) || (u == 2 && v == 1) || (u == 1 && v == 2) || (u == 2 && v == 2) || (u
            == 1 && v == 3)
}

/// The glider two generations on.
pub open spec fn glider_phase_two() -> spec_fn(int, int) -> bool {
    |u: int, v: int|
        (u == 2 && v == 1) || (u == 0 && v == 2) || (u == 2 && v == 2) || (u == 1 && v == 3) || (u
            == 2 && v == 3)
}

/// The glider three generations on.
pub open spec fn glider_phase_three() -> spec_fn(int, int) -> bool {
    |u: int, v: int|
        (u == 1 && v == 1) || (u == 2 && v == 2) || (u == 3 && v == 2) || (u == 1 && v == 3) || (u
            == 2 && v == 3)
}

/// The glider four generations on: its starting phase moved one cell right and one down.
pub open spec fn glider_phase_four() -> spec_fn(int, int) -> bool {
    |u: int, v: int|
        (u == 2 && v == 1) || (u == 3 && v == 2) || (u == 1 && v == 3) || (u == 2 && v == 3) || (u
            == 3 && v == 3)
}

/// The glider with anchor `(ox, oy)`.
pub open spec fn glider_grid(w: int, h: int, ox: int, oy: int) -> Seq<bool> {
    placed(w, h, ox, oy, glider_shape())
}

/// One generation of a shape, checked at every relative position of a torus of at
/// least five columns and five rows.
proof fn lemma_shape_step(w: int, h: int, p: spec_fn(int, int) -> bool, q: spec_fn(int, int) -> bool)
    requires
        w >= 5,
        h >= 5,
        p == glider_shape() && q == glider_phase_one() || p == glider_phase_one() && q
            == glider_phase_two() || p == glider_phase_two() && q == glider_phase_three() || p
            == glider_phase_three() && q == glider_phase_four(),
    ensures
        forall|u: int, v: int|
            0 <= u < w && 0 <= v < h ==> rule(p(u, v), #[trigger] shape_count(p, w, h, u, v)) == q(
                u,
                v,
            ),
{
    assert forall|u: int, v: int| 0 <= u < w && 0 <= v < h implies rule(
        p(u, v),
        #[trigger] shape_count(p, w, h, u, v),
    ) == q(u, v) by {
        lemma_wrap(u, -1, w);
        lemma_wrap(u, 0, w);
        lemma_wrap(u, 1, w);
        lemma_wrap(v, -1, h);
        lemma_wrap(v, 0, h);
        lemma_wrap(v, 1, h);
    }
}

/// A glider reappears after four generations moved one cell right and one cell down,
/// wrapping around the torus, on every grid of at least five columns and five rows.
pub proof fn lemma_glider_moves(w: int, h: int, ox: int, oy: int)
    requires
        w >= 5,
        h >= 5,
        0 <= ox < w,
        0 <= oy < h,
    ensures
        generations(glider_grid(w, h, ox, oy), w, h, 4) == glider_grid(
            w,
            h,
            wrap(ox, 1, w),
            wrap(oy, 1, h),
        ),
{
    lemma_shape_step(w, h, glider_shape(), glider_phase_one());
    lemma_placed_step(w, h, ox, oy, glider_shape(), glider_phase_one());
    lemma_shape_step(w, h, glider_phase_one(), glider_phase_two());
    lemma_placed_step(w, h, ox, oy, glider_phase_one(), glider_phase_two());
    lemma_shape_step(w, h, glider_phase_two(), glider_phase_three());
    lemma_placed_step(w, h, ox, oy, glider_phase_two(), glider_phase_three());
    lemma_shape_step(w, h, glider_phase_three(), glider_phase_four());
    lemma_placed_step(w, h, ox, oy, glider_phase_three(), glider_phase_four());
    let moved = glider_grid(w, h, wrap(ox, 1, w), wrap(oy, 1, h));
    let last = placed(w, h, ox, oy, glider_phase_four());
    assert forall|i: int| 0 <= i < w * h implies #[trigger] moved[i] == last[i] by {
        lemma_coords_of_index(w, h, i);
        let x = i % w;
        let y = i / w;
        assert(rel(x, wrap(ox, 1, w), w) == wrap(rel(x, ox, w), -1, w)) by {
            lemma_mod_unshift(x, ox + 1 + w, w);
            lemma_mod_shift(x - ox, -1 + w, w);
            assert(x - (ox + 1 + w) == x - ox + (-1 + w) - 2 * w);
            vstd::arithmetic::div_mod::lemma_mod_sub_multiples_vanish(x - ox + (-1 + w) - w, w);
            vstd::arithmetic::div_mod::lemma_mod_sub_multiples_vanish(x - ox + (-1 + w), w);
        }
        assert(rel(y, wrap(oy, 1, h), h) == wrap(rel(y, oy, h), -1, h)) by {
            lemma_mod_unshift(y, oy + 1 + h, h);
            lemma_mod_shift(y - oy, -1 + h, h);
            assert(y - (oy + 1 + h) == y - oy + (-1 + h) - 2 * h);
            vstd::arithmetic::div_mod::lemma_mod_sub_multiples_vanish(y - oy + (-1 + h) - h, h);
            vstd::arithmetic::div_mod::lemma_mod_sub_multiples_vanish(y - oy + (-1 + h), h);
        }
        let u = rel(x, ox, w);
        let v = rel(y, oy, h);
        vstd::arithmetic::div_mod::lemma_mod_bound(x - ox, w);
        vstd::arithmetic::div_mod::lemma_mod_bound(y - oy, h);
        lemma_wrap(u, -1, w);
        lemma_wrap(v, -1, h);
    }
    assert(moved =~= last);
    reveal_with_fuel(generations, 5);
}

/// Subtracting a remainder, then reducing, is subtracting then reducing.
proof fn lemma_mod_unshift(a: int, b: int, n: int)
    requires
        n > 0,
    ensures
        (a - (b % n)) % n == (a - b) % n,
{
    vstd::arithmetic::div_mod::lemma_sub_mod_noop(a, b % n, n);
    vstd::arithmetic::div_mod::lemma_sub_mod_noop(a, b, n);
    vstd::arithmetic::div_mod::lemma_mod_twice(b, n);
}

} // verus!
