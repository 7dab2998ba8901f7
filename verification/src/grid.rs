//! A dense, bounded variant of the automaton: a fixed-size grid of booleans,
//! advanced by the textbook neighbor-count rule. Cells in row 0 or column 0
//! are never counted as neighbors, and nothing outside the grid is: the
//! edges act as permanently dead borders.

use vstd::prelude::*;

use crate::game::{Seed, pattern_pairs};

verus! {

/// Grid width, in cells.
pub const WIDTH: usize = 800;

/// Grid height, in cells.
pub const HEIGHT: usize = 800;

/// The cell at `(r, c)` counts as a live neighbor: strictly inside the
/// left/top border, inside the grid, and live.
pub open spec fn counted(g: Seq<Vec<bool>>, r: int, c: int) -> bool {
    0 < r < HEIGHT && 0 < c < WIDTH && g[r]@[c]
}

/// 1 when the cell at `(r, c)` counts as a live neighbor, else 0.
pub open spec fn counted_ind(g: Seq<Vec<bool>>, r: int, c: int) -> nat {
    if counted(g, r, c) {
        1nat
    } else {
        0nat
    }
}

/// The number of live neighbors of `(r, c)` among its 8 surrounding cells.
pub open spec fn neighbours(g: Seq<Vec<bool>>, r: int, c: int) -> nat {
    counted_ind(g, r, c + 1) + counted_ind(g, r + 1, c) + counted_ind(g, r, c - 1) + counted_ind(
        g,
        r - 1,
        c,
    ) + counted_ind(g, r + 1, c + 1) + counted_ind(g, r - 1, c - 1) + counted_ind(g, r + 1, c - 1)
        + counted_ind(g, r - 1, c + 1)
}

/// The textbook rule on the bounded grid: a live cell survives with 2 or 3
/// live neighbors, a dead cell is born with exactly 3.
pub open spec fn next_grid_alive(g: Seq<Vec<bool>>, r: int, c: int) -> bool {
    if g[r]@[c] {
        2 <= neighbours(g, r, c) <= 3
    } else {
        neighbours(g, r, c) == 3
    }
}

/// The whole grid is `HEIGHT` rows of `WIDTH` cells.
pub open spec fn full_dims(g: Seq<Vec<bool>>) -> bool {
    g.len() == HEIGHT && forall|i: int| 0 <= i < g.len() ==> (#[trigger] g[i])@.len() == WIDTH
}

/// The grid holds at least the simulated area: `HEIGHT` rows or more, each
/// of the first `HEIGHT` at least `WIDTH` wide. Anything beyond that area
/// is carried but never read.
pub open spec fn min_dims(g: Seq<Vec<bool>>) -> bool {
    g.len() >= HEIGHT && forall|i: int| 0 <= i < HEIGHT ==> (#[trigger] g[i])@.len() >= WIDTH
}

/// Count the live neighbors of `(i, j)`, skipping row 0, column 0 and
/// everything outside the simulated area.
fn count_neighbours(grid: &Vec<Vec<bool>>, i: usize, j: usize) -> (n: u8)
    requires
        min_dims(grid@),
        i < HEIGHT,
        j < WIDTH,
    ensures
        n == neighbours(grid@, i as int, j as int),
{
    let mut n: u8 = 0;
    if 0 < i && j + 1 < WIDTH && grid[i][j + 1] {
        n += 1;
    }
    if i + 1 < HEIGHT && 0 < j && grid[i + 1][j] {
        n += 1;
    }
    if 0 < i && j >= 2 && grid[i][j - 1] {
        n += 1;
    }
    if i >= 2 && 0 < j && grid[i - 1][j] {
        n += 1;
    }
    if i + 1 < HEIGHT && j + 1 < WIDTH && grid[i + 1][j + 1] {
        n += 1;
    }
    if i >= 2 && j >= 2 && grid[i - 1][j - 1] {
        n += 1;
    }
    if i + 1 < HEIGHT && j >= 2 && grid[i + 1][j - 1] {
        n += 1;
    }
    if i >= 2 && j + 1 < WIDTH && grid[i - 1][j + 1] {
        n += 1;
    }
    n
}

/// One generation of the bounded grid: a fresh `HEIGHT` x `WIDTH` grid in
/// which each cell is set by the textbook rule applied to its 8 neighbors
/// in the old grid. A larger input grid is accepted; only its top-left
/// simulated area is read.
pub fn tick_game(grid: &Vec<Vec<bool>>) -> (out: Vec<Vec<bool>>)
    requires
        min_dims(grid@),
    ensures
        full_dims(out@),
        forall|r: int, c: int|
            0 <= r < HEIGHT && 0 <= c < WIDTH ==> (#[trigger] out@[r]@[c]) == next_grid_alive(
                grid@,
                r,
                c,
            ),
{
    let mut out: Vec<Vec<bool>> = Vec::new();
    let mut i: usize = 0;
    while i < HEIGHT
        invariant
            min_dims(grid@),
            i <= HEIGHT,
            out@.len() == i,
            forall|r: int| 0 <= r < i ==> (#[trigger] out@[r])@.len() == WIDTH,
            forall|r: int, c: int|
                0 <= r < i && 0 <= c < WIDTH ==> (#[trigger] out@[r]@[c]) == next_grid_alive(
                    grid@,
                    r,
                    c,
                ),
        decreases HEIGHT - i,
    {
        let mut row: Vec<bool> = Vec::new();
        let mut j: usize = 0;
        while j < WIDTH
            invariant
                min_dims(grid@),
                i < HEIGHT,
                j <= WIDTH,
                row@.len() == j,
                forall|c: int| 0 <= c < j ==> row@[c] == next_grid_alive(grid@, i as int, c),
            decreases WIDTH - j,
        {
            let n = count_neighbours(grid, i, j);
            let live = if grid[i][j] {
                2 <= n && n <= 3
            } else {
                n == 3
            };
            row.push(live);
            j += 1;
        }
        out.push(row);
        i += 1;
    }
    out
}

/// The offsets a numeric seed selector places: the same tables as the named
/// patterns, with everything else a no-op.
pub open spec fn grid_offsets(kind: u8) -> Seq<(i8, i8)> {
    if kind == 0 {
        pattern_pairs(Seed::BLFive)
    } else if kind == 1 {
        pattern_pairs(Seed::PentaDecathlon)
    } else if kind == 2 {
        pattern_pairs(Seed::Blinker)
    } else {
        Seq::empty()
    }
}

/// Every cell the selected pattern touches lies inside the grid.
pub open spec fn grid_pattern_fits(offs: Seq<(i8, i8)>, x: int, y: int, g: Seq<Vec<bool>>) -> bool {
    forall|k: int|
        0 <= k < offs.len() ==> 0 <= y + (#[trigger] offs[k]).1 < g.len() && 0 <= x + offs[k].0 < g[
            y + offs[k].1
        ]@.len()
}

/// `(r, c)` is one of the cells the pattern placed at `(x, y)` covers.
pub open spec fn in_grid_pattern(offs: Seq<(i8, i8)>, x: int, y: int, r: int, c: int) -> bool {
    exists|k: int| 0 <= k < offs.len() && r == y + (#[trigger] offs[k]).1 && c == x + offs[k].0
}

/// Mark one grid cell live, leaving everything else as it was.
fn set_cell(g: &mut Vec<Vec<bool>>, r: usize, c: usize)
    requires
        r < old(g)@.len(),
        c < old(g)@[r as int]@.len(),
    ensures
        final(g)@.len() == old(g)@.len(),
        forall|i: int| 0 <= i < old(g)@.len() && i != r ==> final(g)@[i] == old(g)@[i],
        final(g)@[r as int]@ == old(g)@[r as int]@.update(c as int, true),
{
    g[r][c] = true;
}

/// Place the pattern a numeric selector names (0, 1 or 2; anything else is
/// a no-op) with its origin at column `x`, row `y`: purely additive, every
/// other cell keeps its value.
#[verifier::loop_isolation(false)]
pub fn seed(kind: u8, x: usize, y: usize, grid: &mut Vec<Vec<bool>>)
    requires
        grid_pattern_fits(grid_offsets(kind), x as int, y as int, old(grid)@),
    ensures
        final(grid)@.len() == old(grid)@.len(),
        forall|r: int|
            0 <= r < old(grid)@.len() ==> (#[trigger] final(grid)@[r])@.len()
                == old(grid)@[r]@.len(),
        forall|r: int, c: int|
            0 <= r < old(grid)@.len() && 0 <= c < old(grid)@[r]@.len()
                ==> (#[trigger] final(grid)@[r]@[c]) == (old(grid)@[r]@[c] || in_grid_pattern(
                grid_offsets(kind),
                x as int,
                y as int,
                r,
                c,
            )),
{
    let offs: Vec<(i8, i8)> = if kind == 0 {
        crate::game::pattern_vec(&Seed::BLFive)
    } else if kind == 1 {
        crate::game::pattern_vec(&Seed::PentaDecathlon)
    } else if kind == 2 {
        crate::game::pattern_vec(&Seed::Blinker)
    } else {
        Vec::new()
    };
    proof {
        assert(offs@ == grid_offsets(kind));
        assert forall|k: int|
            0 <= k < offs@.len() implies (#[trigger] offs@[k]).0 >= 0 && offs@[k].1 >= 0 by {}
    }
    let mut i: usize = 0;
    while i < offs.len()
        invariant
            i <= offs@.len(),
            grid@.len() == old(grid)@.len(),
            forall|r: int|
                0 <= r < old(grid)@.len() ==> (#[trigger] grid@[r])@.len() == old(grid)@[r]@.len(),
            forall|r: int, c: int|
                0 <= r < old(grid)@.len() && 0 <= c < old(grid)@[r]@.len() ==> (#[trigger] grid@[r]@[c]) == (old(grid)@[r]@[c] || in_grid_pattern(
                    offs@.take(i as int),
                    x as int,
                    y as int,
                    r,
                    c,
                )),
        decreases offs@.len() - i,
    {
        let o = offs[i];
        let ghost iprev = i as int;
        let ghost gprev = grid@;
        proof {
            assert(o == offs@[iprev]);
            assert(o.0 >= 0 && o.1 >= 0);
            assert(0 <= y + offs@[iprev].1 < grid@.len());
            assert(0 <= x + offs@[iprev].0 < grid@[y + offs@[iprev].1]@.len());
        }
        // Reading the lengths as `usize` values bounds the index sums
        // below `usize::MAX`, which the views alone do not give.
        let glen = grid.len();
        let rr = y + o.1 as usize;
        let row_len = grid[rr].len();
        let cc = x + o.0 as usize;
        proof {
            assert(rr < glen && cc < row_len);
        }
        set_cell(grid, rr, cc);
        i += 1;
        proof {
            assert(i as int == iprev + 1);
            let t = offs@.take(i as int);
            assert forall|r: int, c: int|
                0 <= r < old(grid)@.len() && 0 <= c < old(grid)@[r]@.len() implies (#[trigger] grid@[r]@[c]) == (old(grid)@[r]@[c] || in_grid_pattern(
                t,
                x as int,
                y as int,
                r,
                c,
            )) by {
                if r == rr && c == cc {
                    assert(grid@[r]@[c]);
                    assert(t[iprev] == offs@[iprev]);
                    assert(in_grid_pattern(t, x as int, y as int, r, c));
                } else {
                    if r == rr {
                        assert(grid@[r]@[c] == gprev[r]@[c]);
                    } else {
                        assert(grid@[r] == gprev[r]);
                    }
                    assert(grid@[r]@[c] == gprev[r]@[c]);
                    if grid@[r]@[c] && !old(grid)@[r]@[c] {
                        let k0 = choose|k: int|
                            0 <= k < iprev && r == y + (#[trigger] offs@.take(iprev)[k]).1 && c == x
                                + offs@.take(iprev)[k].0;
                        assert(t[k0] == offs@.take(iprev)[k0]);
                        assert(in_grid_pattern(t, x as int, y as int, r, c));
                    }
                    if in_grid_pattern(t, x as int, y as int, r, c) && !old(grid)@[r]@[c]
                        && !gprev[r]@[c] {
                        let k = choose|k: int|
                            0 <= k < t.len() && r == y + (#[trigger] t[k]).1 && c == x + t[k].0;
                        if k == iprev {
                            assert(r == rr && c == cc);
                            assert(false);
                        } else {
                            assert(offs@.take(iprev)[k] == t[k]);
                            assert(in_grid_pattern(offs@.take(iprev), x as int, y as int, r, c));
                            assert(gprev[r]@[c]);
                            assert(false);
                        }
                    }
                }
            }
            assert(forall|r: int, c: int|
                0 <= r < old(grid)@.len() && 0 <= c < old(grid)@[r]@.len() ==> (#[trigger] grid@[r]@[c]) == (old(grid)@[r]@[c] || in_grid_pattern(
                    offs@.take(i as int),
                    x as int,
                    y as int,
                    r,
                    c,
                )));
        }
    }
    proof {
        assert(offs@.take(offs@.len() as int) =~= offs@);
    }
}

} // verus!
