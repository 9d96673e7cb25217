use conway_life::grid::GridConfig;
use conway_life::life::Life;
use conway_life::render::{get_color, point, render, ALIVE_COLOR, BACKGROUND_COLOR, DEAD_COLOR};

#[test]
fn colors_are_fixed() {
    assert_eq!(get_color(true), 0xFFFF_FFFF);
    assert_eq!(get_color(false), 0xFF00_0000);
    assert_eq!(BACKGROUND_COLOR, 0xFF32_3264);
}

#[test]
fn standard_scale() {
    let cfg = GridConfig::standard();
    assert_eq!(cfg.scale_x(), 8);
    assert_eq!(cfg.scale_y(), 6);
}

#[test]
fn point_paints_only_its_block() {
    let cfg = GridConfig { width: 3, height: 2, out_width: 6, out_height: 6 };
    let mut buf = vec![7u32; 36];
    point(&mut buf, &cfg, 1, 1, 9);
    for py in 0..6 {
        for px in 0..6 {
            let expected = if (2..4).contains(&px) && (3..6).contains(&py) { 9 } else { 7 };
            assert_eq!(buf[py * 6 + px], expected, "pixel ({}, {})", px, py);
        }
    }
}

#[test]
fn single_live_cell_block() {
    let cfg = GridConfig { width: 4, height: 3, out_width: 8, out_height: 9 };
    let mut g = vec![false; 12];
    g[1 * 4 + 2] = true;
    let mut buf = vec![0u32; 72];
    render(&mut buf, &g, &cfg);
    for py in 0..9 {
        for px in 0..8 {
            let inside = (4..6).contains(&px) && (3..6).contains(&py);
            let expected = if inside { ALIVE_COLOR } else { DEAD_COLOR };
            assert_eq!(buf[py * 8 + px], expected, "pixel ({}, {})", px, py);
        }
    }
}

#[test]
fn inexact_scale_leaves_background() {
    let cfg = GridConfig { width: 2, height: 2, out_width: 5, out_height: 3 };
    let g = vec![true, false, false, true];
    let mut buf = vec![0u32; 15];
    render(&mut buf, &g, &cfg);
    let a = ALIVE_COLOR;
    let d = DEAD_COLOR;
    let b = BACKGROUND_COLOR;
    assert_eq!(buf, vec![a, a, d, d, b, d, d, a, a, b, b, b, b, b, b]);
}

#[test]
fn surface_smaller_than_grid_is_background() {
    let cfg = GridConfig { width: 4, height: 4, out_width: 2, out_height: 2 };
    let g = vec![true; 16];
    let mut buf = vec![1u32; 4];
    render(&mut buf, &g, &cfg);
    assert_eq!(buf, vec![BACKGROUND_COLOR; 4]);
}

#[test]
fn life_draw_standard() {
    let mut life = Life::new(GridConfig::standard());
    life.current[0] = true;
    let mut buf = vec![0u32; 800 * 600];
    life.draw(&mut buf);
    assert_eq!(buf[0], ALIVE_COLOR);
    assert_eq!(buf[5 * 800 + 7], ALIVE_COLOR);
    assert_eq!(buf[5 * 800 + 8], DEAD_COLOR);
    assert_eq!(buf[6 * 800], DEAD_COLOR);
    assert_eq!(buf.iter().filter(|p| **p == ALIVE_COLOR).count(), 48);
}
