use vstd::prelude::*;
use crate::grid::{GridConfig, index_of, lemma_coords_of_index, lemma_index_coords};

verus! {

/// A shape of live cells, given as offsets from an anchor cell.
pub struct Pattern {
    pub anchor_x: usize,
    pub anchor_y: usize,
    pub cells: Vec<(usize, usize)>,
}

/// A pattern as the anchor and the sequence of its offsets.
pub type PatternView = (usize, usize, Seq<(usize, usize)>);

impl View for Pattern {
    type V = PatternView;

    open spec fn view(&self) -> PatternView {
        (self.anchor_x, self.anchor_y, self.cells@)
    }
}

/// Some of the first `n` offsets of `p`, added to its anchor, gives `(x, y)`.
pub open spec fn lands_on(p: PatternView, n: int, x: int, y: int) -> bool {
    exists|k: int| 0 <= k < n && p.0 + p.2[k].0 == x && p.1 + p.2[k].1 == y
}

/// Grid `g` of width `w` with the cells that the first `n` offsets of `p` land on set alive.
pub open spec fn stamped(g: Seq<bool>, w: int, p: PatternView, n: int) -> Seq<bool> {
    Seq::new(g.len(), |i: int| g[i] || lands_on(p, n, i % w, i / w))
}

/// Grid `g` of width `w` with the first `m` patterns of `ps` stamped on it in order.
pub open spec fn seeded(g: Seq<bool>, w: int, ps: Seq<PatternView>, m: int) -> Seq<bool>
    decreases m,
{
    if m <= 0 {
        g
    } else {
        stamped(seeded(g, w, ps, m - 1), w, ps[m - 1], ps[m - 1].2.len() as int)
    }
}

/// Sets alive every cell that an offset of `pattern` lands on; offsets that land
/// outside the grid are dropped.
pub fn stamp(fb: &mut [bool], cfg: &GridConfig, pattern: &Pattern)
    requires
        cfg.wf(),
        old(fb)@.len() == cfg.cells(),
    ensures
        final(fb)@ == stamped(old(fb)@, cfg.width as int, pattern@, pattern.cells@.len() as int),
{
    let w = cfg.width;
    let h = cfg.height;
    let ghost g = fb@;
    let mut k: usize = 0;
    assert(fb@ =~= stamped(g, w as int, pattern@, 0));
    while k < pattern.cells.len()
        invariant
            cfg.wf(),
            w == cfg.width,
            h == cfg.height,
            g.len() == cfg.cells(),
            0 <= k <= pattern.cells@.len(),
            fb@ == stamped(g, w as int, pattern@, k as int),
        decreases pattern.cells@.len() - k,
    {
        let (dx, dy) = pattern.cells[k];
        let ax = pattern.anchor_x;
        let ay = pattern.anchor_y;
        if dx < w && ax < w - dx && dy < h && ay < h - dy {
            let idx = index_of(cfg, ax + dx, ay + dy);
            fb[idx] = true;
            proof {
                lemma_index_coords(w as int, (ax + dx) as int, (ay + dy) as int);
            }
        }
        proof {
            assert forall|i: int| 0 <= i < g.len() implies fb@[i] == stamped(
                g,
                w as int,
                pattern@,
                k + 1,
            )[i] by {
                lemma_coords_of_index(w as int, h as int, i);
                if ax + dx == i % (w as int) && ay + dy == i / (w as int) {
                    assert(pattern@.2[k as int] == (dx, dy));
                    assert(lands_on(pattern@, k + 1, i % (w as int), i / (w as int)));
                }
            }
            assert(fb@ =~= stamped(g, w as int, pattern@, k + 1));
        }
        k = k + 1;
    }
}

/// Stamps each pattern of `patterns` on the grid, in order; overlaps simply stay alive.
pub fn seed(fb: &mut [bool], cfg: &GridConfig, patterns: &[Pattern])
    requires
        cfg.wf(),
        old(fb)@.len() == cfg.cells(),
    ensures
        final(fb)@.len() == old(fb)@.len(),
        final(fb)@ == seeded(
            old(fb)@,
            cfg.width as int,
            patterns@.map_values(|p: Pattern| p@),
            patterns@.len() as int,
        ),
{
    let ghost g = fb@;
    let ghost ps = patterns@.map_values(|p: Pattern| p@);
    let mut m: usize = 0;
    while m < patterns.len()
        invariant
            cfg.wf(),
            fb@.len() == cfg.cells(),
            ps == patterns@.map_values(|p: Pattern| p@),
            0 <= m <= patterns@.len(),
            fb@ == seeded(g, cfg.width as int, ps, m as int),
        decreases patterns@.len() - m,
    {
        stamp(fb, cfg, &patterns[m]);
        m = m + 1;
    }
}

/// A 2 by 2 block, a still life.
pub open spec fn block_cells() -> Seq<(usize, usize)> {
    seq![
        (0,0), (1,0), (0,1), (1,1),
    ]
}

/// Offsets of the live cells of the block shape.
pub fn block() -> (r: Vec<(usize, usize)>)
    ensures
        r@ == block_cells(),
{
    let r = vec![
        (0,0), (1,0), (0,1), (1,1),
    ];
    assert(r@ =~= block_cells());
    r
}

/// Beacon, an oscillator of period 2.
pub open spec fn beacon_cells() -> Seq<(usize, usize)> {
    seq![
        (0,0), (1,0), (0,1), (1,1), (2,2), (3,2), (2,3), (3,3),
    ]
}

/// Offsets of the live cells of the beacon shape.
pub fn beacon() -> (r: Vec<(usize, usize)>)
    ensures
        r@ == beacon_cells(),
{
    let r = vec![
        (0,0), (1,0), (0,1), (1,1), (2,2), (3,2), (2,3), (3,3),
    ];
    assert(r@ =~= beacon_cells());
    r
}

/// Horizontal blinker, an oscillator of period 2.
pub open spec fn blinker_cells() -> Seq<(usize, usize)> {
    seq![
        (0,0), (1,0), (2,0),
    ]
}

/// Offsets of the live cells of the blinker shape.
pub fn blinker() -> (r: Vec<(usize, usize)>)
    ensures
        r@ == blinker_cells(),
{
    let r = vec![
        (0,0), (1,0), (2,0),
    ];
    assert(r@ =~= blinker_cells());
    r
}

/// Toad, an oscillator of period 2.
pub open spec fn toad_cells() -> Seq<(usize, usize)> {
    seq![
        (1,0), (2,0), (3,0), (0,1), (1,1), (2,1),
    ]
}

/// Offsets of the live cells of the toad shape.
pub fn toad() -> (r: Vec<(usize, usize)>)
    ensures
        r@ == toad_cells(),
{
    let r = vec![
        (1,0), (2,0), (3,0), (0,1), (1,1), (2,1),
    ];
    assert(r@ =~= toad_cells());
    r
}

/// Boat, a still life.
pub open spec fn boat_cells() -> Seq<(usize, usize)> {
    seq![
        (0,0), (1,0), (0,1), (2,1), (1,2),
    ]
}

/// Offsets of the live cells of the boat shape.
pub fn boat() -> (r: Vec<(usize, usize)>)
    ensures
        r@ == boat_cells(),
{
    let r = vec![
        (0,0), (1,0), (0,1), (2,1), (1,2),
    ];
    assert(r@ =~= boat_cells());
    r
}

/// Tub, a still life.
pub open spec fn tub_cells() -> Seq<(usize, usize)> {
    seq![
        (1,0), (0,1), (2,1), (1,2),
    ]
}

/// Offsets of the live cells of the tub shape.
pub fn tub() -> (r: Vec<(usize, usize)>)
    ensures
        r@ == tub_cells(),
{
    let r = vec![
        (1,0), (0,1), (2,1), (1,2),
    ];
    assert(r@ =~= tub_cells());
    r
}

/// Loaf, a still life.
pub open spec fn loaf_cells() -> Seq<(usize, usize)> {
    seq![
        (1,0), (2,0), (0,1), (3,1), (1,2), (3,2), (2,3),
    ]
}

/// Offsets of the live cells of the loaf shape.
pub fn loaf() -> (r: Vec<(usize, usize)>)
    ensures
        r@ == loaf_cells(),
{
    let r = vec![
        (1,0), (2,0), (0,1), (3,1), (1,2), (3,2), (2,3),
    ];
    assert(r@ =~= loaf_cells());
    r
}

/// Pulsar, an oscillator of period 3.
pub open spec fn pulsar_cells() -> Seq<(usize, usize)> {
    seq![
        (2,0), (3,0), (4,0), (8,0), (9,0), (10,0),
        (0,2), (5,2), (7,2), (12,2),
        (0,3), (5,3), (7,3), (12,3),
        (0,4), (5,4), (7,4), (12,4),
        (2,5), (3,5), (4,5), (8,5), (9,5), (10,5),
        (2,7), (3,7), (4,7), (8,7), (9,7), (10,7),
        (0,8), (5,8), (7,8), (12,8),
        (0,9), (5,9), (7,9), (12,9),
        (0,10), (5,10), (7,10), (12,10),
        (2,12), (3,12), (4,12), (8,12), (9,12), (10,12),
    ]
}

/// Offsets of the live cells of the pulsar shape.
pub fn pulsar() -> (r: Vec<(usize, usize)>)
    ensures
        r@ == pulsar_cells(),
{
    let r = vec![
        (2,0), (3,0), (4,0), (8,0), (9,0), (10,0),
        (0,2), (5,2), (7,2), (12,2),
        (0,3), (5,3), (7,3), (12,3),
        (0,4), (5,4), (7,4), (12,4),
        (2,5), (3,5), (4,5), (8,5), (9,5), (10,5),
        (2,7), (3,7), (4,7), (8,7), (9,7), (10,7),
        (0,8), (5,8), (7,8), (12,8),
        (0,9), (5,9), (7,9), (12,9),
        (0,10), (5,10), (7,10), (12,10),
        (2,12), (3,12), (4,12), (8,12), (9,12), (10,12),
    ];
    assert(r@ =~= pulsar_cells());
    r
}

/// Pentadecathlon, an oscillator of period 15.
pub open spec fn pentadecathlon_cells() -> Seq<(usize, usize)> {
    seq![
        (2,0), (2,1), (2,2), (1,3), (3,3), (2,4), (2,5), (2,6), (1,7), (3,7), (2,8), (2,9),
    ]
}

/// Offsets of the live cells of the pentadecathlon shape.
pub fn pentadecathlon() -> (r: Vec<(usize, usize)>)
    ensures
        r@ == pentadecathlon_cells(),
{
    let r = vec![
        (2,0), (2,1), (2,2), (1,3), (3,3), (2,4), (2,5), (2,6), (1,7), (3,7), (2,8), (2,9),
    ];
    assert(r@ =~= pentadecathlon_cells());
    r
}

/// Glider heading down and right.
pub open spec fn glider_cells() -> Seq<(usize, usize)> {
    seq![
        (1,0), (2,1), (0,2), (1,2), (2,2),
    ]
}

/// Offsets of the live cells of the glider shape.
pub fn glider() -> (r: Vec<(usize, usize)>)
    ensures
        r@ == glider_cells(),
{
    let r = vec![
        (1,0), (2,1), (0,2), (1,2), (2,2),
    ];
    assert(r@ =~= glider_cells());
    r
}

/// Glider, mirrored.
pub open spec fn glider_mirrored_cells() -> Seq<(usize, usize)> {
    seq![
        (1,0), (0,1), (2,1), (0,2), (1,2),
    ]
}

/// Offsets of the live cells of the glider mirrored shape.
pub fn glider_mirrored() -> (r: Vec<(usize, usize)>)
    ensures
        r@ == glider_mirrored_cells(),
{
    let r = vec![
        (1,0), (0,1), (2,1), (0,2), (1,2),
    ];
    assert(r@ =~= glider_mirrored_cells());
    r
}

/// Glider heading down and left.
pub open spec fn glider_diagonal_cells() -> Seq<(usize, usize)> {
    seq![
        (0,0), (1,1), (2,1), (0,2), (1,2),
    ]
}

/// Offsets of the live cells of the glider diagonal shape.
pub fn glider_diagonal() -> (r: Vec<(usize, usize)>)
    ensures
        r@ == glider_diagonal_cells(),
{
    let r = vec![
        (0,0), (1,1), (2,1), (0,2), (1,2),
    ];
    assert(r@ =~= glider_diagonal_cells());
    r
}

/// Lightweight spaceship.
pub open spec fn lwss_cells() -> Seq<(usize, usize)> {
    seq![
        (1,0), (4,0), (0,1), (0,2), (4,2), (0,3), (1,3), (2,3), (3,3), (4,3),
    ]
}

/// Offsets of the live cells of the lwss shape.
pub fn lwss() -> (r: Vec<(usize, usize)>)
    ensures
        r@ == lwss_cells(),
{
    let r = vec![
        (1,0), (4,0), (0,1), (0,2), (4,2), (0,3), (1,3), (2,3), (3,3), (4,3),
    ];
    assert(r@ =~= lwss_cells());
    r
}

/// Lightweight spaceship, inverted.
pub open spec fn lwss_inverted_cells() -> Seq<(usize, usize)> {
    seq![
        (0,0), (1,0), (2,0), (3,0), (4,1), (0,2), (4,2), (1,3), (2,3), (3,3),
    ]
}

/// Offsets of the live cells of the lwss inverted shape.
pub fn lwss_inverted() -> (r: Vec<(usize, usize)>)
    ensures
        r@ == lwss_inverted_cells(),
{
    let r = vec![
        (0,0), (1,0), (2,0), (3,0), (4,1), (0,2), (4,2), (1,3), (2,3), (3,3),
    ];
    assert(r@ =~= lwss_inverted_cells());
    r
}

/// The central part of a Gosper glider gun.
pub open spec fn gun_fragment_cells() -> Seq<(usize, usize)> {
    seq![
        (1,5), (1,6), (2,5), (2,6),
        (13,3), (14,3), (12,4), (16,4), (11,5), (17,5), (11,6), (15,6), (17,6), (18,6), (11,7), (17,7), (12,8), (16,8), (13,9), (14,9),
        (25,1), (23,2), (25,2), (21,3), (22,3), (21,4), (22,4), (21,5), (22,5), (23,6), (25,6), (25,7),
        (35,3), (36,3), (35,4), (36,4),
    ]
}

/// Offsets of the live cells of the gun fragment shape.
pub fn gun_fragment() -> (r: Vec<(usize, usize)>)
    ensures
        r@ == gun_fragment_cells(),
{
    let r = vec![
        (1,5), (1,6), (2,5), (2,6),
        (13,3), (14,3), (12,4), (16,4), (11,5), (17,5), (11,6), (15,6), (17,6), (18,6), (11,7), (17,7), (12,8), (16,8), (13,9), (14,9),
        (25,1), (23,2), (25,2), (21,3), (22,3), (21,4), (22,4), (21,5), (22,5), (23,6), (25,6), (25,7),
        (35,3), (36,3), (35,4), (36,4),
    ];
    assert(r@ =~= gun_fragment_cells());
    r
}

/// The starting catalogue: each shape with its anchor, in stamping order.
pub open spec fn catalogue_view() -> Seq<PatternView> {
    seq![
        (70, 5, glider_mirrored_cells()),
        (5, 70, glider_diagonal_cells()),
        (60, 60, lwss_inverted_cells()),
        (10, 10, gun_fragment_cells()),
        (95, 95, block_cells()),
        (50, 90, block_cells()),
        (80, 50, toad_cells()),
        (90, 10, blinker_cells()),
        (70, 70, pentadecathlon_cells()),
        (1, 1, glider_cells()),
        (20, 20, lwss_cells()),
        (50, 50, pulsar_cells()),
        (80, 80, beacon_cells()),
        (10, 40, blinker_cells()),
        (30, 60, toad_cells()),
        (60, 10, block_cells()),
        (90, 90, tub_cells()),
        (80, 20, boat_cells()),
        (10, 80, loaf_cells()),
        (40, 40, pentadecathlon_cells()),
    ]
}

/// Builds the starting catalogue of patterns.
pub fn catalogue() -> (r: Vec<Pattern>)
    ensures
        r@.map_values(|p: Pattern| p@) == catalogue_view(),
{
    let mut v: Vec<Pattern> = Vec::new();
    v.push(Pattern { anchor_x: 70, anchor_y: 5, cells: glider_mirrored() });
    v.push(Pattern { anchor_x: 5, anchor_y: 70, cells: glider_diagonal() });
    v.push(Pattern { anchor_x: 60, anchor_y: 60, cells: lwss_inverted() });
    v.push(Pattern { anchor_x: 10, anchor_y: 10, cells: gun_fragment() });
    v.push(Pattern { anchor_x: 95, anchor_y: 95, cells: block() });
    v.push(Pattern { anchor_x: 50, anchor_y: 90, cells: block() });
    v.push(Pattern { anchor_x: 80, anchor_y: 50, cells: toad() });
    v.push(Pattern { anchor_x: 90, anchor_y: 10, cells: blinker() });
    v.push(Pattern { anchor_x: 70, anchor_y: 70, cells: pentadecathlon() });
    v.push(Pattern { anchor_x: 1, anchor_y: 1, cells: glider() });
    v.push(Pattern { anchor_x: 20, anchor_y: 20, cells: lwss() });
    v.push(Pattern { anchor_x: 50, anchor_y: 50, cells: pulsar() });
    v.push(Pattern { anchor_x: 80, anchor_y: 80, cells: beacon() });
    v.push(Pattern { anchor_x: 10, anchor_y: 40, cells: blinker() });
    v.push(Pattern { anchor_x: 30, anchor_y: 60, cells: toad() });
    v.push(Pattern { anchor_x: 60, anchor_y: 10, cells: block() });
    v.push(Pattern { anchor_x: 90, anchor_y: 90, cells: tub() });
    v.push(Pattern { anchor_x: 80, anchor_y: 20, cells: boat() });
    v.push(Pattern { anchor_x: 10, anchor_y: 80, cells: loaf() });
    v.push(Pattern { anchor_x: 40, anchor_y: 40, cells: pentadecathlon() });
    assert(v@.map_values(|p: Pattern| p@) =~= catalogue_view());
    v
}

/// Stamps the starting catalogue on the grid.
pub fn init_pattern(fb: &mut [bool], cfg: &GridConfig)
    requires
        cfg.wf(),
        old(fb)@.len() == cfg.cells(),
    ensures
        final(fb)@.len() == old(fb)@.len(),
        final(fb)@ == seeded(
            old(fb)@,
            cfg.width as int,
            catalogue_view(),
            catalogue_view().len() as int,
        ),
{
    let patterns = catalogue();
    seed(fb, cfg, patterns.as_slice());
}

} // verus!
