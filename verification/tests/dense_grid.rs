//! The dense, bounded grid variant: its seeding selectors, the textbook
//! rule, and the dead border along row 0 and column 0.

use life::grid::{HEIGHT, WIDTH, seed, tick_game};

fn empty_grid() -> Vec<Vec<bool>> {
    vec![vec![false; WIDTH]; HEIGHT]
}

fn live_count(g: &Vec<Vec<bool>>) -> usize {
    g.iter().map(|row| row.iter().filter(|b| **b).count()).sum()
}

#[test]
fn numeric_selectors_place_the_catalog_patterns() {
    let mut g = empty_grid();
    seed(0, 100, 100, &mut g);
    assert_eq!(live_count(&g), 13);
    let mut g = empty_grid();
    seed(1, 100, 100, &mut g);
    assert_eq!(live_count(&g), 22);
    let mut g = empty_grid();
    seed(2, 100, 100, &mut g);
    assert_eq!(live_count(&g), 3);
    let mut g = empty_grid();
    seed(9, 100, 100, &mut g);
    assert_eq!(live_count(&g), 0);
}

#[test]
fn seeding_the_grid_is_additive() {
    let mut g = empty_grid();
    g[50][50] = true;
    seed(2, 10, 10, &mut g);
    assert!(g[50][50]);
    assert!(g[10][10] && g[11][10] && g[12][10]);
    assert_eq!(live_count(&g), 4);
}

#[test]
fn grid_blinker_oscillates_mid_grid() {
    let mut g = empty_grid();
    seed(2, 10, 10, &mut g);
    let g1 = tick_game(&g);
    assert!(g1[11][9] && g1[11][10] && g1[11][11]);
    assert_eq!(live_count(&g1), 3);
    let g2 = tick_game(&g1);
    assert!(g2[10][10] && g2[11][10] && g2[12][10]);
    assert_eq!(live_count(&g2), 3);
}

#[test]
fn grid_block_is_a_still_life() {
    let mut g = empty_grid();
    g[20][20] = true;
    g[20][21] = true;
    g[21][20] = true;
    g[21][21] = true;
    let g1 = tick_game(&g);
    assert!(g1[20][20] && g1[20][21] && g1[21][20] && g1[21][21]);
    assert_eq!(live_count(&g1), 4);
}

#[test]
fn oversized_grid_is_accepted_and_only_its_simulated_area_is_read() {
    // 10 extra rows and 5 extra columns, with live junk outside the
    // simulated area and along its far edges: the result is exactly
    // HEIGHT x WIDTH and matches the blinker seeded well inside.
    let mut g = vec![vec![false; WIDTH + 5]; HEIGHT + 10];
    seed(2, 10, 10, &mut g);
    g[HEIGHT + 3][0] = true;
    g[0][WIDTH + 2] = true;
    g[HEIGHT - 1][WIDTH - 1] = true;
    let g1 = tick_game(&g);
    assert_eq!(g1.len(), HEIGHT);
    assert!(g1.iter().all(|row| row.len() == WIDTH));
    assert!(g1[11][9] && g1[11][10] && g1[11][11]);
    assert_eq!(live_count(&g1), 3);
}

#[test]
fn row_zero_never_feeds_its_neighbours() {
    // A vertical blinker leaning on row 0: the row-0 cell is never counted,
    // so every cell sees at most one live neighbor and the whole thing dies.
    let mut g = empty_grid();
    g[0][5] = true;
    g[1][5] = true;
    g[2][5] = true;
    let g1 = tick_game(&g);
    assert_eq!(live_count(&g1), 0);
}
