use vstd::prelude::*;
use crate::grid::{
    GridConfig, cell_index, index_of, lemma_coords_of_index, lemma_index_coords, live,
};
use vstd::arithmetic::div_mod::{lemma_fundamental_div_mod, lemma_fundamental_div_mod_converse};

verus! {

/// Color of a live cell: opaque white.
pub const ALIVE_COLOR: u32 = 0xFFFF_FFFF;

/// Color of a dead cell: opaque black.
pub const DEAD_COLOR: u32 = 0xFF00_0000;

/// Color of every pixel that no cell covers: opaque dark blue.
pub const BACKGROUND_COLOR: u32 = 0xFF32_3264;

/// The color a cell is painted with.
pub open spec fn color_of(alive: bool) -> u32 {
    if alive {
        ALIVE_COLOR
    } else {
        DEAD_COLOR
    }
}

/// Pixel `(px, py)` lies in the `sx` by `sy` block of cell `(x, y)`.
pub open spec fn in_block(sx: int, sy: int, x: int, y: int, px: int, py: int) -> bool {
    &&& x * sx <= px < x * sx + sx
    &&& y * sy <= py < y * sy + sy
}

/// Pixel `(px, py)` lies in the first `rows` rows of the block of cell `(x, y)`, or in
/// the first `cols` pixels of the row after them.
pub open spec fn in_block_prefix(
    sx: int,
    sy: int,
    x: int,
    y: int,
    rows: int,
    cols: int,
    px: int,
    py: int,
) -> bool {
    &&& x * sx <= px
    &&& y * sy <= py
    &&& {
        ||| py < y * sy + rows && px < x * sx + sx
        ||| py == y * sy + rows && px < x * sx + cols
    }
}

/// Surface `buf` after painting the block of cell `(x, y)` with `color`.
pub open spec fn painted(buf: Seq<u32>, cfg: GridConfig, x: int, y: int, color: u32) -> Seq<u32> {
    let ow = cfg.out_width as int;
    Seq::new(
        buf.len(),
        |i: int|
            if in_block(cfg.spec_scale_x(), cfg.spec_scale_y(), x, y, i % ow, i / ow) {
                color
            } else {
                buf[i]
            },
    )
}

/// Color of pixel `(px, py)` in the picture of grid `g`, where only the cells whose
/// flat position is below `done` have been painted.
pub open spec fn partial_pixel(g: Seq<bool>, cfg: GridConfig, done: int, px: int, py: int) -> u32 {
    let sx = cfg.spec_scale_x();
    let sy = cfg.spec_scale_y();
    if px < cfg.width * sx && py < cfg.height * sy && cell_index(
        cfg.width as int,
        px / sx,
        py / sy,
    ) < done {
        color_of(live(g, cfg.width as int, px / sx, py / sy))
    } else {
        BACKGROUND_COLOR
    }
}

/// Color of pixel `(px, py)` in the picture of grid `g`: the color of the cell whose
/// block holds it, or the background where no block does.
pub open spec fn frame_pixel(g: Seq<bool>, cfg: GridConfig, px: int, py: int) -> u32 {
    partial_pixel(g, cfg, cfg.cells(), px, py)
}

/// The picture of grid `g`, as a flat row-major array of pixels.
pub open spec fn frame(g: Seq<bool>, cfg: GridConfig) -> Seq<u32> {
    let ow = cfg.out_width as int;
    Seq::new(cfg.pixels() as nat, |i: int| frame_pixel(g, cfg, i % ow, i / ow))
}

/// Coordinate `p` lies in the `s` pixels of cell `c` exactly when `p / s` is `c`.
pub proof fn lemma_block_iff(s: int, c: int, p: int)
    requires
        s > 0,
        p >= 0,
    ensures
        (c * s <= p < c * s + s) <==> p / s == c,
{
    lemma_fundamental_div_mod(p, s);
    vstd::arithmetic::mul::lemma_mul_is_commutative(s, p / s);
    if c * s <= p < c * s + s {
        lemma_fundamental_div_mod_converse(p, s, c, p - c * s);
    }
}

/// Coordinate `p` lies in the first `n` cells of `s` pixels exactly when `p / s` is below `n`.
pub proof fn lemma_region_iff(s: int, n: int, p: int)
    requires
        s > 0,
        p >= 0,
        n >= 0,
    ensures
        p < n * s <==> p / s < n,
{
    let q = p / s;
    lemma_block_iff(s, q, p);
    assert(p < n * s <==> q < n) by (nonlinear_arith)
        requires
            q * s <= p < q * s + s,
            s > 0,
    ;
}

/// `n` cells of `out / n` pixels fit in `out` pixels.
proof fn lemma_scaled_fits(n: int, out: int)
    requires
        n > 0,
        out >= 0,
    ensures
        n * (out / n) <= out,
        out / n >= 0,
{
    lemma_fundamental_div_mod(out, n);
    vstd::arithmetic::div_mod::lemma_mod_bound(out, n);
    vstd::arithmetic::div_mod::lemma_div_pos_is_pos(out, n);
}

/// Returns the color a cell with the given liveness is painted with.
pub fn get_color(alive: bool) -> (r: u32)
    ensures
        r == color_of(alive),
{
    if alive {
        ALIVE_COLOR
    } else {
        DEAD_COLOR
    }
}

/// Paints the block of pixels of cell `(x, y)` with `color`; every other pixel is kept.
pub fn point(buffer: &mut [u32], cfg: &GridConfig, x: usize, y: usize, color: u32)
    requires
        cfg.wf(),
        old(buffer)@.len() == cfg.pixels(),
        x < cfg.width,
        y < cfg.height,
    ensures
        final(buffer)@ == painted(old(buffer)@, *cfg, x as int, y as int, color),
{
    let ow = cfg.out_width;
    let oh = cfg.out_height;
    let scale_x = cfg.scale_x();
    let scale_y = cfg.scale_y();
    let ghost old_buf = buffer@;
    let ghost sx = scale_x as int;
    let ghost sy = scale_y as int;
    proof {
        lemma_scaled_fits(cfg.width as int, ow as int);
        lemma_scaled_fits(cfg.height as int, oh as int);
        assert(x * sx + sx <= cfg.width * sx) by (nonlinear_arith)
            requires
                x < cfg.width,
                sx >= 0,
        ;
        assert(y * sy + sy <= cfg.height * sy) by (nonlinear_arith)
            requires
                y < cfg.height,
                sy >= 0,
        ;
        assert(cfg.width * sx == sx * cfg.width) by (nonlinear_arith);
        assert(cfg.height * sy == sy * cfg.height) by (nonlinear_arith);
    }
    let x0 = x * scale_x;
    let y0 = y * scale_y;
    let mut dy: usize = 0;
    while dy < scale_y
        invariant
            cfg.wf(),
            ow == cfg.out_width,
            oh == cfg.out_height,
            old_buf.len() == cfg.pixels(),
            buffer@.len() == cfg.pixels(),
            sx == cfg.spec_scale_x(),
            sy == cfg.spec_scale_y(),
            scale_x == sx,
            scale_y == sy,
            x0 == x * sx,
            y0 == y * sy,
            x0 + sx <= ow,
            y0 + sy <= oh,
            0 <= dy <= sy,
            forall|i: int|
                0 <= i < old_buf.len() ==> #[trigger] buffer@[i] == if in_block_prefix(
                    sx,
                    sy,
                    x as int,
                    y as int,
                    dy as int,
                    0,
                    i % (ow as int),
                    i / (ow as int),
                ) {
                    color
                } else {
                    old_buf[i]
                },
        decreases scale_y - dy,
    {
        let mut dx: usize = 0;
        while dx < scale_x
            invariant
                cfg.wf(),
                ow == cfg.out_width,
                oh == cfg.out_height,
                old_buf.len() == cfg.pixels(),
                buffer@.len() == cfg.pixels(),
                scale_x == sx,
                scale_y == sy,
                x0 == x * sx,
                y0 == y * sy,
                x0 + sx <= ow,
                y0 + sy <= oh,
                0 <= dy < sy,
                0 <= dx <= sx,
                forall|i: int|
                    0 <= i < old_buf.len() ==> #[trigger] buffer@[i] == if in_block_prefix(
                        sx,
                        sy,
                        x as int,
                        y as int,
                        dy as int,
                        dx as int,
                        i % (ow as int),
                        i / (ow as int),
                    ) {
                        color
                    } else {
                        old_buf[i]
                    },
            decreases scale_x - dx,
        {
            let px = x0 + dx;
            let py = y0 + dy;
            if px < ow && py < oh {
                proof {
                    assert(py * ow + px < oh * ow) by (nonlinear_arith)
                        requires
                            px < ow,
                            py < oh,
                    ;
                    assert(oh * ow == ow * oh) by (nonlinear_arith);
                    lemma_index_coords(ow as int, px as int, py as int);
                }
                let idx = py * ow + px;
                buffer[idx] = color;
                proof {
                    assert forall|i: int| 0 <= i < old_buf.len() implies #[trigger] buffer@[i]
                        == if in_block_prefix(
                        sx,
                        sy,
                        x as int,
                        y as int,
                        dy as int,
                        dx + 1,
                        i % (ow as int),
                        i / (ow as int),
                    ) {
                        color
                    } else {
                        old_buf[i]
                    } by {
                        assert(oh * ow == ow * oh) by (nonlinear_arith);
                        lemma_coords_of_index(ow as int, oh as int, i);
                    }
                }
            }
            dx = dx + 1;
        }
        dy = dy + 1;
    }
    proof {
        assert forall|i: int| 0 <= i < old_buf.len() implies buffer@[i] == painted(
            old_buf,
            *cfg,
            x as int,
            y as int,
            color,
        )[i] by {
            assert(oh * ow == ow * oh) by (nonlinear_arith);
            lemma_coords_of_index(ow as int, oh as int, i);
        }
        assert(buffer@ =~= painted(old_buf, *cfg, x as int, y as int, color));
    }
}

/// Painting cell `(x, y)`, the cell at flat position `done`, on a picture with every
/// cell before it painted gives the picture with every cell up to it painted.
proof fn lemma_paint_next(g: Seq<bool>, cfg: GridConfig, x: int, y: int, px: int, py: int)
    requires
        cfg.wf(),
        0 <= x < cfg.width,
        0 <= y < cfg.height,
        0 <= px,
        0 <= py,
    ensures
        partial_pixel(g, cfg, cell_index(cfg.width as int, x, y) + 1, px, py) == if in_block(
            cfg.spec_scale_x(),
            cfg.spec_scale_y(),
            x,
            y,
            px,
            py,
        ) {
            color_of(live(g, cfg.width as int, x, y))
        } else {
            partial_pixel(g, cfg, cell_index(cfg.width as int, x, y), px, py)
        },
{
    let w = cfg.width as int;
    let h = cfg.height as int;
    let sx = cfg.spec_scale_x();
    let sy = cfg.spec_scale_y();
    lemma_scaled_fits(w, cfg.out_width as int);
    lemma_scaled_fits(h, cfg.out_height as int);
    if sx > 0 && sy > 0 {
        lemma_block_iff(sx, x, px);
        lemma_block_iff(sy, y, py);
        lemma_region_iff(sx, w, px);
        lemma_region_iff(sy, h, py);
        vstd::arithmetic::div_mod::lemma_div_pos_is_pos(px, sx);
        vstd::arithmetic::div_mod::lemma_div_pos_is_pos(py, sy);
        if px < w * sx && py < h * sy {
            let cx = px / sx;
            let cy = py / sy;
            lemma_index_coords(w, cx, cy);
            lemma_index_coords(w, x, y);
        }
    } else {
        assert(w * sx <= 0 || h * sy <= 0) by (nonlinear_arith)
            requires
                sx >= 0,
                sy >= 0,
                !(sx > 0 && sy > 0),
        ;
        assert(!in_block(sx, sy, x, y, px, py));
    }
}

/// Repaints the whole surface with the picture of grid `fb`: the background first, then
/// the block of each cell in its color.
pub fn render(buffer: &mut [u32], fb: &[bool], cfg: &GridConfig)
    requires
        cfg.wf(),
        old(buffer)@.len() == cfg.pixels(),
        fb@.len() == cfg.cells(),
    ensures
        final(buffer)@ == frame(fb@, *cfg),
{
    let w = cfg.width;
    let h = cfg.height;
    let ow = cfg.out_width;
    let oh = cfg.out_height;
    let ghost g = fb@;
    let mut i: usize = 0;
    while i < buffer.len()
        invariant
            buffer@.len() == cfg.pixels(),
            0 <= i <= buffer@.len(),
            forall|j: int| 0 <= j < i ==> #[trigger] buffer@[j] == BACKGROUND_COLOR,
        decreases buffer@.len() - i,
    {
        buffer[i] = BACKGROUND_COLOR;
        i = i + 1;
    }
    let ghost target = Seq::new(
        cfg.pixels() as nat,
        |j: int| partial_pixel(g, *cfg, 0, j % (ow as int), j / (ow as int)),
    );
    assert(buffer@ =~= target);
    let mut y: usize = 0;
    while y < h
        invariant
            cfg.wf(),
            w == cfg.width,
            h == cfg.height,
            ow == cfg.out_width,
            oh == cfg.out_height,
            g == fb@,
            g.len() == cfg.cells(),
            buffer@.len() == cfg.pixels(),
            0 <= y <= h,
            buffer@ == Seq::new(
                cfg.pixels() as nat,
                |j: int| partial_pixel(g, *cfg, y * w, j % (ow as int), j / (ow as int)),
            ),
        decreases h - y,
    {
        let mut x: usize = 0;
        while x < w
            invariant
                cfg.wf(),
                w == cfg.width,
                h == cfg.height,
                ow == cfg.out_width,
                oh == cfg.out_height,
                g == fb@,
                g.len() == cfg.cells(),
                buffer@.len() == cfg.pixels(),
                0 <= y < h,
                0 <= x <= w,
                buffer@ == Seq::new(
                    cfg.pixels() as nat,
                    |j: int| partial_pixel(g, *cfg, y * w + x, j % (ow as int), j / (ow as int)),
                ),
            decreases w - x,
        {
            let idx = index_of(cfg, x, y);
            let color = get_color(fb[idx]);
            point(buffer, cfg, x, y, color);
            proof {
                assert forall|j: int| 0 <= j < buffer@.len() implies buffer@[j] == partial_pixel(
                    g,
                    *cfg,
                    y * w + x + 1,
                    j % (ow as int),
                    j / (ow as int),
                ) by {
                    assert(oh * ow == ow * oh && ow > 0) by (nonlinear_arith)
                        requires
                            0 <= j < ow * oh,
                    ;
                    lemma_coords_of_index(ow as int, oh as int, j);
                    lemma_paint_next(g, *cfg, x as int, y as int, j % (ow as int), j / (ow as int));
                }
                assert(buffer@ =~= Seq::new(
                    cfg.pixels() as nat,
                    |j: int| partial_pixel(g, *cfg, y * w + x + 1, j % (ow as int), j / (ow as int)),
                ));
            }
            x = x + 1;
        }
        proof {
            assert((y + 1) * w == y * w + w) by (nonlinear_arith);
        }
        y = y + 1;
    }
    proof {
        assert(y * w == w * h) by (nonlinear_arith)
            requires
                y == h,
        ;
    }
    assert(buffer@ =~= frame(g, *cfg));
}

} // verus!
