//! Screen-space projection: viewport bounds, offsets, and the explicit
//! refusal to scale coordinates the display type cannot hold.

use life::cell::{BLOCK_SIZE, Cell, Rect};
use life::game::Game;

#[test]
fn cell_inside_the_viewport_projects_to_its_square() {
    let c = Cell::new(7, 3);
    let r = c.rect((0, 0), (10, 10));
    assert_eq!(
        r,
        Some(Rect {
            x: 7 * BLOCK_SIZE,
            y: 3 * BLOCK_SIZE,
            w: BLOCK_SIZE,
            h: BLOCK_SIZE
        })
    );
}

#[test]
fn upper_edge_is_inclusive_and_one_past_is_excluded() {
    let w = 10;
    let h = 5;
    let on_edge = Cell::new(w, 0);
    let past_edge = Cell::new(w + 1, 0);
    assert!(on_edge.rect((0, 0), (w, h)).is_some());
    assert_eq!(past_edge.rect((0, 0), (w, h)), None);
}

#[test]
fn offset_shifts_the_viewport() {
    let c = Cell::new(12, 20);
    let r = c.rect((10, 18), (10, 10));
    assert_eq!(
        r,
        Some(Rect {
            x: 2 * BLOCK_SIZE,
            y: 2 * BLOCK_SIZE,
            w: BLOCK_SIZE,
            h: BLOCK_SIZE
        })
    );
    assert_eq!(c.rect((13, 18), (10, 10)), None);
}

#[test]
fn unrepresentable_scaling_is_refused_not_wrapped() {
    let c = Cell::new(3_000_000_000, 0);
    assert_eq!(c.rect((0, 0), (i64::MAX, i64::MAX)), None);
}

#[test]
fn get_rects_keeps_visible_cells_only() {
    let mut g = Game::new();
    g.spawn(10, 0);
    g.spawn(11, 0);
    g.spawn(-1, 0);
    let rects = g.get_rects((0, 0), (10, 5));
    assert_eq!(rects.len(), 1);
    assert_eq!(
        rects[0],
        Rect {
            x: 10 * BLOCK_SIZE,
            y: 0,
            w: BLOCK_SIZE,
            h: BLOCK_SIZE
        }
    );
}

#[test]
fn get_rects_of_empty_population_is_empty() {
    let g = Game::new();
    assert!(g.get_rects((0, 0), (100, 100)).is_empty());
}
