use vstd::prelude::*;
use vstd::arithmetic::div_mod::{lemma_fundamental_div_mod, lemma_fundamental_div_mod_converse};

verus! {

/// Width of the output surface in pixels, in the standard configuration.
pub const WIDTH: usize = 800;

/// Height of the output surface in pixels, in the standard configuration.
pub const HEIGHT: usize = 600;

/// Width of the cell grid, in the standard configuration.
pub const FB_WIDTH: usize = 100;

/// Height of the cell grid, in the standard configuration.
pub const FB_HEIGHT: usize = 100;

/// Dimensions of the cell grid and of the pixel surface it is drawn on.
pub struct GridConfig {
    pub width: usize,
    pub height: usize,
    pub out_width: usize,
    pub out_height: usize,
}

impl GridConfig {
    /// Both dimensions of the grid are positive and both flat arrays are addressable.
    pub open spec fn wf(&self) -> bool {
        &&& self.width > 0
        &&& self.height > 0
        &&& self.width * self.height <= usize::MAX
        &&& self.out_width * self.out_height <= usize::MAX
    }

    /// Number of cells of the grid.
    pub open spec fn cells(&self) -> int {
        self.width * self.height
    }

    /// Number of pixels of the surface.
    pub open spec fn pixels(&self) -> int {
        self.out_width * self.out_height
    }

    /// Pixels per cell along x: as many as fit, the grid's columns sharing the width.
    pub open spec fn spec_scale_x(&self) -> int {
        self.out_width as int / self.width as int
    }

    /// Pixels per cell along y: as many as fit, the grid's rows sharing the height.
    pub open spec fn spec_scale_y(&self) -> int {
        self.out_height as int / self.height as int
    }

    /// The standard configuration: a 100 by 100 grid drawn on 800 by 600 pixels.
    pub fn standard() -> (r: GridConfig)
        ensures
            r.wf(),
            r.width == FB_WIDTH,
            r.height == FB_HEIGHT,
            r.out_width == WIDTH,
            r.out_height == HEIGHT,
    {
        assert(FB_WIDTH * FB_HEIGHT == 10000);
        assert(WIDTH * HEIGHT == 480000);
        GridConfig { width: FB_WIDTH, height: FB_HEIGHT, out_width: WIDTH, out_height: HEIGHT }
    }

    /// Pixels per cell along x.
    pub fn scale_x(&self) -> (r: usize)
        requires
            self.wf(),
        ensures
            r == self.spec_scale_x(),
    {
        self.out_width / self.width
    }

    /// Pixels per cell along y.
    pub fn scale_y(&self) -> (r: usize)
        requires
            self.wf(),
        ensures
            r == self.spec_scale_y(),
    {
        self.out_height / self.height
    }
}

/// Coordinate `c` moved by `d` on a ring of `n` positions.
pub open spec fn wrap(c: int, d: int, n: int) -> int {
    (c + d + n) % n
}

/// Position of cell `(x, y)` in a flat row-major array of rows of width `w`.
pub open spec fn cell_index(w: int, x: int, y: int) -> int {
    y * w + x
}

/// Liveness of cell `(x, y)` of a flat grid of width `w`.
pub open spec fn live(g: Seq<bool>, w: int, x: int, y: int) -> bool {
    g[cell_index(w, x, y)]
}

/// One for true, zero for false.
pub open spec fn bit(b: bool) -> int {
    if b { 1 } else { 0 }
}

/// Number of live cells among the eight toroidal neighbours of `(x, y)`.
pub open spec fn neighbor_count(g: Seq<bool>, w: int, h: int, x: int, y: int) -> int {
    bit(live(g, w, wrap(x, -1, w), wrap(y, -1, h)))
        + bit(live(g, w, wrap(x, 0, w), wrap(y, -1, h)))
        + bit(live(g, w, wrap(x, 1, w), wrap(y, -1, h)))
        + bit(live(g, w, wrap(x, -1, w), wrap(y, 0, h)))
        + bit(live(g, w, wrap(x, 1, w), wrap(y, 0, h)))
        + bit(live(g, w, wrap(x, -1, w), wrap(y, 1, h)))
        + bit(live(g, w, wrap(x, 0, w), wrap(y, 1, h)))
        + bit(live(g, w, wrap(x, 1, w), wrap(y, 1, h)))
}

/// The B3/S23 rule: survival on two or three neighbours, birth on three.
pub open spec fn rule(alive: bool, neighbors: int) -> bool {
    if alive {
        neighbors == 2 || neighbors == 3
    } else {
        neighbors == 3
    }
}

/// The generation that follows grid `g` of `w` by `h` cells.
pub open spec fn step_grid(g: Seq<bool>, w: int, h: int) -> Seq<bool> {
    Seq::new((w * h) as nat, |i: int| rule(g[i], neighbor_count(g, w, h, i % w, i / w)))
}

/// Grid `g` after `n` generations.
pub open spec fn generations(g: Seq<bool>, w: int, h: int, n: nat) -> Seq<bool>
    decreases n,
{
    if n == 0 {
        g
    } else {
        step_grid(generations(g, w, h, (n - 1) as nat), w, h)
    }
}

/// Flat position `y * w + x` has coordinates `(x, y)`.
pub proof fn lemma_index_coords(w: int, x: int, y: int)
    requires
        0 <= x < w,
        0 <= y,
    ensures
        cell_index(w, x, y) % w == x,
        cell_index(w, x, y) / w == y,
{
    lemma_fundamental_div_mod_converse(cell_index(w, x, y), w, y, x);
}

/// A position below `w * h` has coordinates inside the grid, from which it is recovered.
pub proof fn lemma_coords_of_index(w: int, h: int, i: int)
    requires
        w > 0,
        0 <= i < w * h,
    ensures
        0 <= i % w < w,
        0 <= i / w < h,
        i == cell_index(w, i % w, i / w),
{
    lemma_fundamental_div_mod(i, w);
    let q = i / w;
    let r = i % w;
    assert(0 <= r < w) by {
        vstd::arithmetic::div_mod::lemma_mod_bound(i, w);
    }
    assert(0 <= q < h) by (nonlinear_arith)
        requires
            i == w * q + r,
            0 <= r < w,
            0 <= i < w * h,
    ;
    vstd::arithmetic::mul::lemma_mul_is_commutative(w, q);
}

/// A cell of the grid has a flat position inside it.
pub proof fn lemma_cell_in_grid(w: int, h: int, x: int, y: int)
    requires
        0 <= x < w,
        0 <= y < h,
    ensures
        0 <= cell_index(w, x, y) < w * h,
{
    assert(0 <= y * w + x < w * h) by (nonlinear_arith)
        requires
            0 <= x < w,
            0 <= y < h,
    ;
}

/// Moving by at most one step stays on the ring, and moves across the seam only at its ends.
pub proof fn lemma_wrap(c: int, d: int, n: int)
    requires
        0 <= c < n,
        -1 <= d <= 1,
    ensures
        0 <= wrap(c, d, n) < n,
        wrap(c, d, n) == if c + d < 0 {
            n - 1
        } else if c + d >= n {
            0
        } else {
            c + d
        },
{
    if c + d < 0 {
        lemma_fundamental_div_mod_converse(c + d + n, n, 0, n - 1);
    } else if c + d >= n {
        lemma_fundamental_div_mod_converse(c + d + n, n, 2, 0);
    } else {
        lemma_fundamental_div_mod_converse(c + d + n, n, 1, c + d);
    }
}

/// Flat position of cell `(x, y)`.
pub fn index_of(cfg: &GridConfig, x: usize, y: usize) -> (r: usize)
    requires
        cfg.wf(),
        x < cfg.width,
        y < cfg.height,
    ensures
        r == cell_index(cfg.width as int, x as int, y as int),
        r < cfg.cells(),
{
    proof {
        let w = cfg.width as int;
        let h = cfg.height as int;
        assert(y * w + x < h * w) by (nonlinear_arith)
            requires
                0 <= x < w,
                0 <= y < h,
        ;
    }
    y * cfg.width + x
}

/// The coordinate before `c` on a ring of `n` positions.
fn wrap_prev(c: usize, n: usize) -> (r: usize)
    requires
        c < n,
    ensures
        r == wrap(c as int, -1, n as int),
        r < n,
{
    proof {
        lemma_wrap(c as int, -1, n as int);
    }
    if c == 0 {
        n - 1
    } else {
        c - 1
    }
}

/// The coordinate after `c` on a ring of `n` positions.
fn wrap_next(c: usize, n: usize) -> (r: usize)
    requires
        c < n,
    ensures
        r == wrap(c as int, 1, n as int),
        r < n,
{
    proof {
        lemma_wrap(c as int, 1, n as int);
    }
    if c + 1 == n {
        0
    } else {
        c + 1
    }
}

/// Counts the live cells among the eight neighbours of `(x, y)`, wrapping at every edge.
pub fn count_neighbors(current: &[bool], cfg: &GridConfig, x: usize, y: usize) -> (r: u8)
    requires
        cfg.wf(),
        current@.len() == cfg.cells(),
        x < cfg.width,
        y < cfg.height,
    ensures
        r == neighbor_count(current@, cfg.width as int, cfg.height as int, x as int, y as int),
        r <= 8,
{
    let w = cfg.width;
    let h = cfg.height;
    proof {
        lemma_wrap(x as int, 0, w as int);
        lemma_wrap(y as int, 0, h as int);
    }
    let xl = wrap_prev(x, w);
    let xr = wrap_next(x, w);
    let yu = wrap_prev(y, h);
    let yd = wrap_next(y, h);
    let mut n: u8 = 0;
    if current[index_of(cfg, xl, yu)] {
        n = n + 1;
    }
    if current[index_of(cfg, x, yu)] {
        n = n + 1;
    }
    if current[index_of(cfg, xr, yu)] {
        n = n + 1;
    }
    if current[index_of(cfg, xl, y)] {
        n = n + 1;
    }
    if current[index_of(cfg, xr, y)] {
        n = n + 1;
    }
    if current[index_of(cfg, xl, yd)] {
        n = n + 1;
    }
    if current[index_of(cfg, x, yd)] {
        n = n + 1;
    }
    if current[index_of(cfg, xr, yd)] {
        n = n + 1;
    }
    n
}

/// Decides whether a cell is alive in the next generation.
pub fn next_state(alive: bool, neighbors: u8) -> (r: bool)
    ensures
        r == rule(alive, neighbors as int),
{
    match (alive, neighbors) {
        (true, 2) | (true, 3) => true,
        (false, 3) => true,
        _ => false,
    }
}

/// Writes into `next` the generation that follows `current`; `current` is only read.
pub fn update_life(current: &[bool], next: &mut [bool], cfg: &GridConfig)
    requires
        cfg.wf(),
        current@.len() == cfg.cells(),
        old(next)@.len() == cfg.cells(),
    ensures
        final(next)@ == step_grid(current@, cfg.width as int, cfg.height as int),
{
    let w = cfg.width;
    let h = cfg.height;
    let ghost g = current@;
    let ghost stepped = step_grid(g, w as int, h as int);
    let mut y: usize = 0;
    while y < h
        invariant
            cfg.wf(),
            w == cfg.width,
            h == cfg.height,
            g == current@,
            g.len() == cfg.cells(),
            stepped == step_grid(g, w as int, h as int),
            next@.len() == cfg.cells(),
            0 <= y <= h,
            forall|i: int| 0 <= i < y * w ==> next@[i] == #[trigger] stepped[i],
        decreases h - y,
    {
        let mut x: usize = 0;
        while x < w
            invariant
                cfg.wf(),
                w == cfg.width,
                h == cfg.height,
                g == current@,
                g.len() == cfg.cells(),
                stepped == step_grid(g, w as int, h as int),
                next@.len() == cfg.cells(),
                0 <= y < h,
                0 <= x <= w,
                forall|i: int| 0 <= i < y * w + x ==> next@[i] == #[trigger] stepped[i],
            decreases w - x,
        {
            let idx = index_of(cfg, x, y);
            proof {
                lemma_index_coords(w as int, x as int, y as int);
            }
            let neighbors = count_neighbors(current, cfg, x, y);
            let alive = next_state(current[idx], neighbors);
            next[idx] = alive;
            x = x + 1;
        }
        proof {
            assert((y + 1) * w == y * w + w) by (nonlinear_arith);
        }
        y = y + 1;
    }
    proof {
        assert(y * w == w * h) by (nonlinear_arith)
            requires
                y == h,
        ;
    }
    assert(next@ =~= stepped);
}

} // verus!
