use conway_life::grid::{count_neighbors, next_state, update_life, GridConfig};
use conway_life::life::Life;
use conway_life::seed::{blinker, block, glider};

fn config(width: usize, height: usize) -> GridConfig {
    GridConfig { width, height, out_width: width * 2, out_height: height * 2 }
}

fn grid_with(cfg: &GridConfig, cells: &[(usize, usize)]) -> Vec<bool> {
    let mut g = vec![false; cfg.width * cfg.height];
    for &(x, y) in cells {
        g[(y % cfg.height) * cfg.width + (x % cfg.width)] = true;
    }
    g
}

fn live_cells(cfg: &GridConfig, g: &[bool]) -> Vec<(usize, usize)> {
    let mut out = Vec::new();
    for y in 0..cfg.height {
        for x in 0..cfg.width {
            if g[y * cfg.width + x] {
                out.push((x, y));
            }
        }
    }
    out
}

fn step(cfg: &GridConfig, g: &[bool]) -> Vec<bool> {
    let mut next = vec![false; g.len()];
    update_life(g, &mut next, cfg);
    next
}

fn row_major(mut v: Vec<(usize, usize)>) -> Vec<(usize, usize)> {
    v.sort_by_key(|&(x, y)| (y, x));
    v
}

#[test]
fn rule_table() {
    assert!(next_state(true, 2));
    assert!(next_state(true, 3));
    for n in [0u8, 1, 4, 5, 6, 7, 8] {
        assert!(!next_state(true, n), "alive with {} neighbours", n);
    }
    assert!(next_state(false, 3));
    for n in [0u8, 1, 2, 4, 5, 6, 7, 8] {
        assert!(!next_state(false, n), "dead with {} neighbours", n);
    }
}

#[test]
fn corner_sees_opposite_corner() {
    let cfg = config(5, 4);
    let g = grid_with(&cfg, &[(4, 3)]);
    assert_eq!(count_neighbors(&g, &cfg, 0, 0), 1);
    assert_eq!(count_neighbors(&g, &cfg, 3, 2), 1);
    assert_eq!(count_neighbors(&g, &cfg, 4, 3), 0);
    assert_eq!(count_neighbors(&g, &cfg, 2, 1), 0);
}

#[test]
fn neighbours_wrap_at_every_edge() {
    let cfg = config(5, 4);
    let g = grid_with(&cfg, &[(0, 1), (4, 1), (2, 0), (2, 3)]);
    assert_eq!(count_neighbors(&g, &cfg, 0, 1), 1);
    assert_eq!(count_neighbors(&g, &cfg, 4, 1), 1);
    assert_eq!(count_neighbors(&g, &cfg, 2, 0), 1);
    assert_eq!(count_neighbors(&g, &cfg, 2, 3), 1);
}

#[test]
fn full_grid_counts_eight() {
    let cfg = config(4, 4);
    let g = vec![true; 16];
    for y in 0..4 {
        for x in 0..4 {
            assert_eq!(count_neighbors(&g, &cfg, x, y), 8);
        }
    }
}

#[test]
fn step_is_deterministic() {
    let cfg = config(8, 8);
    let g = grid_with(&cfg, &[(1, 1), (2, 1), (3, 1), (5, 5), (6, 6), (7, 5)]);
    let mut a = vec![true; 64];
    let mut b = vec![false; 64];
    update_life(&g, &mut a, &cfg);
    update_life(&g, &mut b, &cfg);
    assert_eq!(a, b);
}

#[test]
fn isolated_cell_dies() {
    let cfg = config(6, 6);
    let g = grid_with(&cfg, &[(3, 2)]);
    assert!(live_cells(&cfg, &step(&cfg, &g)).is_empty());
}

#[test]
fn empty_grid_stays_empty() {
    let cfg = config(7, 5);
    let mut g = vec![false; 35];
    for _ in 0..10 {
        g = step(&cfg, &g);
        assert!(g.iter().all(|c| !c));
    }
}

#[test]
fn block_is_still_life() {
    let cfg = config(6, 6);
    let cells: Vec<(usize, usize)> = block().iter().map(|&(dx, dy)| (2 + dx, 3 + dy)).collect();
    let start = grid_with(&cfg, &cells);
    let mut g = start.clone();
    for _ in 0..12 {
        g = step(&cfg, &g);
        assert_eq!(g, start);
    }
}

#[test]
fn block_on_smallest_grid() {
    let cfg = config(3, 3);
    let start = grid_with(&cfg, &[(0, 0), (1, 0), (0, 1), (1, 1)]);
    assert_eq!(step(&cfg, &start), start);
}

#[test]
fn blinker_has_period_two() {
    let cfg = config(5, 5);
    let cells: Vec<(usize, usize)> = blinker().iter().map(|&(dx, dy)| (1 + dx, 2 + dy)).collect();
    let horizontal = grid_with(&cfg, &cells);
    let vertical = grid_with(&cfg, &[(2, 1), (2, 2), (2, 3)]);
    let one = step(&cfg, &horizontal);
    assert_eq!(live_cells(&cfg, &one), live_cells(&cfg, &vertical));
    let two = step(&cfg, &one);
    assert_eq!(two, horizontal);
}

#[test]
fn blinker_across_the_seam() {
    let cfg = config(4, 4);
    let horizontal = grid_with(&cfg, &[(3, 0), (0, 0), (1, 0)]);
    let vertical = grid_with(&cfg, &[(0, 3), (0, 0), (0, 1)]);
    assert_eq!(step(&cfg, &horizontal), vertical);
    assert_eq!(step(&cfg, &vertical), horizontal);
}

#[test]
fn glider_moves_diagonally() {
    let cfg = config(10, 10);
    let shape = glider();
    let cells: Vec<(usize, usize)> = shape.iter().map(|&(dx, dy)| (1 + dx, 1 + dy)).collect();
    let moved: Vec<(usize, usize)> = shape.iter().map(|&(dx, dy)| (2 + dx, 2 + dy)).collect();
    let mut g = grid_with(&cfg, &cells);
    for _ in 0..4 {
        g = step(&cfg, &g);
    }
    assert_eq!(live_cells(&cfg, &g), row_major(moved.clone()));
    assert_eq!(g, grid_with(&cfg, &moved));
}

#[test]
fn glider_wraps_around_the_torus() {
    let cfg = config(8, 8);
    let shape = glider();
    let cells: Vec<(usize, usize)> = shape.iter().map(|&(dx, dy)| (6 + dx, 6 + dy)).collect();
    let moved: Vec<(usize, usize)> = shape.iter().map(|&(dx, dy)| (7 + dx, 7 + dy)).collect();
    let mut g = grid_with(&cfg, &cells);
    for _ in 0..4 {
        g = step(&cfg, &g);
    }
    assert_eq!(g, grid_with(&cfg, &moved));
}

#[test]
fn life_advance_swaps_generations() {
    let cfg = config(5, 5);
    let mut life = Life::new(cfg);
    assert!(life.current.iter().all(|c| !c));
    life.current = grid_with(&life.config, &[(1, 2), (2, 2), (3, 2)]);
    life.advance();
    assert_eq!(life.current, grid_with(&life.config, &[(2, 1), (2, 2), (2, 3)]));
    life.advance();
    assert_eq!(life.current, grid_with(&life.config, &[(1, 2), (2, 2), (3, 2)]));
    assert_eq!(life.next.len(), 25);
}
