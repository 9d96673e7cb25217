use conway_life::grid::GridConfig;
use conway_life::life::Life;
use conway_life::seed::{catalogue, glider, init_pattern, seed, stamp, Pattern};

fn config(width: usize, height: usize) -> GridConfig {
    GridConfig { width, height, out_width: width, out_height: height }
}

#[test]
fn stamp_marks_offsets_from_anchor() {
    let cfg = config(6, 6);
    let mut g = vec![false; 36];
    let p = Pattern { anchor_x: 1, anchor_y: 2, cells: glider() };
    stamp(&mut g, &cfg, &p);
    let alive: Vec<usize> = (0..36).filter(|&i| g[i]).collect();
    assert_eq!(alive, vec![2 * 6 + 2, 3 * 6 + 3, 4 * 6 + 1, 4 * 6 + 2, 4 * 6 + 3]);
}

#[test]
fn stamp_clips_without_wrapping() {
    let cfg = config(4, 4);
    let mut g = vec![false; 16];
    let p = Pattern { anchor_x: 2, anchor_y: 2, cells: vec![(0, 0), (1, 1), (2, 0), (0, 2), (3, 3)] };
    stamp(&mut g, &cfg, &p);
    let alive: Vec<usize> = (0..16).filter(|&i| g[i]).collect();
    assert_eq!(alive, vec![2 * 4 + 2, 3 * 4 + 3]);
    assert!(!g[2 * 4 + 0]);
    assert!(!g[3 * 4 + 0]);
    assert!(!g[0 * 4 + 2]);
    assert!(!g[0]);
}

#[test]
fn stamp_keeps_live_cells() {
    let cfg = config(3, 3);
    let mut g = vec![false; 9];
    g[8] = true;
    let p = Pattern { anchor_x: 0, anchor_y: 0, cells: vec![(0, 0), (1, 0)] };
    stamp(&mut g, &cfg, &p);
    assert_eq!(g, vec![true, true, false, false, false, false, false, false, true]);
}

#[test]
fn overlapping_patterns_union() {
    let cfg = config(4, 4);
    let mut g = vec![false; 16];
    let a = Pattern { anchor_x: 0, anchor_y: 0, cells: vec![(0, 0), (1, 0)] };
    let b = Pattern { anchor_x: 1, anchor_y: 0, cells: vec![(0, 0), (1, 0)] };
    seed(&mut g, &cfg, &[a, b]);
    let alive: Vec<usize> = (0..16).filter(|&i| g[i]).collect();
    assert_eq!(alive, vec![0, 1, 2]);
}

#[test]
fn catalogue_has_every_stamp() {
    let c = catalogue();
    assert_eq!(c.len(), 20);
    assert_eq!(c[0].anchor_x, 70);
    assert_eq!(c[0].anchor_y, 5);
    assert_eq!(c[3].cells.len(), 36);
    assert_eq!(c[11].cells.len(), 48);
}

#[test]
fn init_pattern_standard_grid() {
    let cfg = GridConfig::standard();
    let mut g = vec![false; 100 * 100];
    init_pattern(&mut g, &cfg);
    assert_eq!(g.iter().filter(|c| **c).count(), 195);
    // glider anchored at (1, 1)
    assert!(g[1 * 100 + 2]);
    assert!(g[3 * 100 + 1]);
    assert!(!g[1 * 100 + 1]);
    // block anchored at (95, 95)
    assert!(g[95 * 100 + 95] && g[96 * 100 + 96]);
    // pulsar anchored at (50, 50)
    assert!(g[50 * 100 + 52] && g[62 * 100 + 60]);
}

#[test]
fn init_pattern_small_grid_clips() {
    let cfg = config(12, 12);
    let mut g = vec![false; 144];
    init_pattern(&mut g, &cfg);
    let alive: Vec<usize> = (0..144).filter(|&i| g[i]).collect();
    // only the glider anchored at (1, 1) lies wholly on this grid; every other shape is clipped away
    assert_eq!(alive, vec![1 * 12 + 2, 2 * 12 + 3, 3 * 12 + 1, 3 * 12 + 2, 3 * 12 + 3]);
}

#[test]
fn life_seed_stamps_catalogue() {
    let mut life = Life::new(GridConfig::standard());
    life.seed();
    assert_eq!(life.current.iter().filter(|c| **c).count(), 195);
}
