//! The sparse simulation: spawning, seeding, ticking, counting.

use life::cell::Cell;
use life::game::{Game, Seed};

fn cells_of(g: &Game) -> Vec<(i64, i64)> {
    g.cells().iter().map(|c| (c.x, c.y)).collect()
}

fn from_pairs(pairs: &[(i64, i64)]) -> Vec<(i64, i64)> {
    let mut v: Vec<(i64, i64)> = pairs.to_vec();
    v.sort();
    v
}

#[test]
fn empty_game_has_no_cells() {
    let g = Game::new();
    assert_eq!(g.count(), 0);
    assert!(g.cells().is_empty());
}

#[test]
fn spawn_adds_a_cell() {
    let mut g = Game::new();
    g.spawn(3, -4);
    assert_eq!(g.count(), 1);
    assert_eq!(cells_of(&g), vec![(3, -4)]);
}

#[test]
fn spawn_coalesces_duplicates() {
    let mut g = Game::new();
    g.spawn(5, 5);
    g.spawn(5, 5);
    assert_eq!(g.count(), 1);
}

#[test]
fn expand_is_the_nine_cell_neighborhood() {
    let c = Cell::new(0, 0);
    let e = c.expand();
    let got: Vec<(i64, i64)> = e.iter().map(|n| (n.x, n.y)).collect();
    assert_eq!(
        got,
        vec![
            (0, 0),
            (0, 1),
            (1, 0),
            (0, -1),
            (-1, 0),
            (1, 1),
            (-1, -1),
            (1, -1),
            (-1, 1)
        ]
    );
}

#[test]
fn block_is_a_still_life() {
    let mut g = Game::new();
    g.spawn(10, 10);
    g.spawn(11, 10);
    g.spawn(10, 11);
    g.spawn(11, 11);
    g.tick();
    assert_eq!(g.count(), 4);
    assert_eq!(
        cells_of(&g),
        from_pairs(&[(10, 10), (11, 10), (10, 11), (11, 11)])
    );
}

#[test]
fn lone_cell_dies() {
    let mut g = Game::new();
    g.spawn(0, 0);
    g.tick();
    assert_eq!(g.count(), 0);
}

#[test]
fn l_shape_births_the_fourth_corner() {
    let mut g = Game::new();
    g.spawn(0, 0);
    g.spawn(1, 0);
    g.spawn(0, 1);
    g.tick();
    assert_eq!(cells_of(&g), from_pairs(&[(0, 0), (1, 0), (0, 1), (1, 1)]));
}

#[test]
fn l_shape_births_at_negative_origin() {
    let mut g = Game::new();
    g.spawn(-3, -3);
    g.spawn(-2, -3);
    g.spawn(-3, -2);
    g.tick();
    assert_eq!(
        cells_of(&g),
        from_pairs(&[(-3, -3), (-2, -3), (-3, -2), (-2, -2)])
    );
}

#[test]
fn blinker_oscillates_with_period_two() {
    let mut g = Game::new();
    g.seed(Seed::Blinker, 3, 4);
    assert_eq!(cells_of(&g), from_pairs(&[(3, 4), (3, 5), (3, 6)]));
    g.tick();
    assert_eq!(cells_of(&g), from_pairs(&[(2, 5), (3, 5), (4, 5)]));
    g.tick();
    assert_eq!(cells_of(&g), from_pairs(&[(3, 4), (3, 5), (3, 6)]));
}

#[test]
fn blinker_oscillates_at_negative_origin() {
    let mut g = Game::new();
    g.seed(Seed::Blinker, -5, -9);
    g.tick();
    assert_eq!(cells_of(&g), from_pairs(&[(-6, -8), (-5, -8), (-4, -8)]));
    g.tick();
    assert_eq!(cells_of(&g), from_pairs(&[(-5, -9), (-5, -8), (-5, -7)]));
}

#[test]
fn two_blinkers_compose_and_evolve_independently() {
    let mut g = Game::new();
    g.seed(Seed::Blinker, 0, 0);
    g.seed(Seed::Blinker, 10, 10);
    assert_eq!(g.count(), 6);
    g.tick();
    assert_eq!(
        cells_of(&g),
        from_pairs(&[(-1, 1), (0, 1), (1, 1), (9, 11), (10, 11), (11, 11)])
    );
    g.tick();
    assert_eq!(
        cells_of(&g),
        from_pairs(&[(0, 0), (0, 1), (0, 2), (10, 10), (10, 11), (10, 12)])
    );
}

#[test]
fn pattern_sizes_match_their_catalog_entries() {
    let sizes = [
        (Seed::BLFive, 13),
        (Seed::PentaDecathlon, 22),
        (Seed::Blinker, 3),
        (Seed::BLLine, 28),
        (Seed::Acorn, 7),
        (Seed::GosperGun, 36),
    ];
    for (kind, n) in sizes {
        let mut g = Game::new();
        g.seed(kind, 0, 0);
        assert_eq!(g.count(), n);
    }
}

#[test]
fn seeding_is_additive_and_collision_free_at_distance() {
    let mut g = Game::new();
    g.seed(Seed::Acorn, 0, 0);
    g.seed(Seed::BLFive, 100, 100);
    assert_eq!(g.count(), 20);
}

#[test]
fn gosper_gun_reproduces_itself_and_emits_one_glider_after_30_ticks() {
    let mut g = Game::new();
    g.seed(Seed::GosperGun, 0, 0);
    assert_eq!(g.count(), 36);
    let original = cells_of(&g);
    for _ in 0..30 {
        g.tick();
    }
    assert_eq!(g.count(), 41);
    let got = cells_of(&g);
    // The gun itself, unchanged...
    for c in &original {
        assert!(got.contains(c));
    }
    // ...plus exactly one glider, 30 steps out of the output port.
    let expected = from_pairs(&[
        (0, 4),
        (0, 5),
        (1, 4),
        (1, 5),
        (10, 4),
        (10, 5),
        (10, 6),
        (11, 3),
        (11, 7),
        (12, 2),
        (12, 8),
        (13, 2),
        (13, 8),
        (14, 5),
        (15, 3),
        (15, 7),
        (16, 4),
        (16, 5),
        (16, 6),
        (17, 5),
        (20, 2),
        (20, 3),
        (20, 4),
        (21, 2),
        (21, 3),
        (21, 4),
        (22, 1),
        (22, 5),
        (23, 9),
        (23, 11),
        (24, 0),
        (24, 1),
        (24, 5),
        (24, 6),
        (24, 10),
        (24, 11),
        (25, 10),
        (34, 2),
        (34, 3),
        (35, 2),
        (35, 3),
    ]);
    assert_eq!(got, expected);
}
