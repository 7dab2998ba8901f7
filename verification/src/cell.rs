//! One grid position: its 3x3 neighborhood and its screen-space projection.

use vstd::prelude::*;

verus! {

/// Edge length, in pixels, of one drawn cell.
pub const BLOCK_SIZE: i32 = 1;

/// A grid position. Cells are pure values: two cells with equal coordinates
/// are the same cell. The grid is logically infinite, so any coordinate,
/// including a negative one, is legal.
#[derive(Clone, Copy, Debug, PartialEq, Eq, Hash, Structural)]
pub struct Cell {
    pub x: i64,
    pub y: i64,
}

/// A screen-space square: top-left corner plus edge length, handed to the
/// rendering shell to draw.
#[derive(Clone, Copy, Debug, PartialEq, Eq, Structural)]
pub struct Rect {
    pub x: i32,
    pub y: i32,
    pub w: i32,
    pub h: i32,
}

/// `p`'s 3x3 neighborhood (itself plus its 8 neighbors) covers `c`.
pub open spec fn covers(p: Cell, c: Cell) -> bool {
    -1 <= c.x - p.x <= 1 && -1 <= c.y - p.y <= 1
}

/// Both coordinates stay clear of the ends of `i64`, so that every neighbor
/// coordinate is representable.
pub open spec fn in_range(c: Cell) -> bool {
    i64::MIN < c.x < i64::MAX && i64::MIN < c.y < i64::MAX
}

/// Strict lexicographic order on cells: by `x`, then by `y`.
pub open spec fn cell_lt(a: Cell, b: Cell) -> bool {
    a.x < b.x || (a.x == b.x && a.y < b.y)
}

/// Non-strict lexicographic order on cells.
pub open spec fn cell_le(a: Cell, b: Cell) -> bool {
    cell_lt(a, b) || a == b
}

/// The cell itself plus its 8 neighbors, in the fixed order `expand` emits.
pub open spec fn expansion(c: Cell) -> Seq<Cell>
    recommends
        in_range(c),
{
    seq![
        Cell { x: c.x, y: c.y },
        Cell { x: c.x, y: (c.y + 1) as i64 },
        Cell { x: (c.x + 1) as i64, y: c.y },
        Cell { x: c.x, y: (c.y - 1) as i64 },
        Cell { x: (c.x - 1) as i64, y: c.y },
        Cell { x: (c.x + 1) as i64, y: (c.y + 1) as i64 },
        Cell { x: (c.x - 1) as i64, y: (c.y - 1) as i64 },
        Cell { x: (c.x + 1) as i64, y: (c.y - 1) as i64 },
        Cell { x: (c.x - 1) as i64, y: (c.y + 1) as i64 },
    ]
}

/// The cell lies inside the viewport given by `offset` (top-left origin) and
/// `size` (inclusive upper edge in both axes).
pub open spec fn visible(c: Cell, offset: (i64, i64), size: (i64, i64)) -> bool {
    0 <= c.x - offset.0 <= size.0 && 0 <= c.y - offset.1 <= size.1
}

/// The scaled screen coordinates of a visible cell fit the display type.
pub open spec fn representable(c: Cell, offset: (i64, i64)) -> bool {
    (c.x - offset.0) * BLOCK_SIZE <= i32::MAX && (c.y - offset.1) * BLOCK_SIZE <= i32::MAX
}

/// What `Cell::rect` returns: the cell's screen-space square when the cell is
/// inside the viewport and its scaled coordinates are representable, and
/// nothing otherwise (off-screen, or too far out to scale).
pub open spec fn project(c: Cell, offset: (i64, i64), size: (i64, i64)) -> Option<Rect> {
    if visible(c, offset, size) && representable(c, offset) {
        Some(
            Rect {
                x: ((c.x - offset.0) * BLOCK_SIZE) as i32,
                y: ((c.y - offset.1) * BLOCK_SIZE) as i32,
                w: BLOCK_SIZE,
                h: BLOCK_SIZE,
            },
        )
    } else {
        None
    }
}

impl Cell {
    /// Pure constructor: no validation, any coordinate is a legal position.
    pub fn new(x: i64, y: i64) -> (c: Cell)
        ensures
            c == (Cell { x, y }),
    {
        Cell { x, y }
    }

    /// The cell itself plus its 8 neighbors, in a fixed order. The cell's own
    /// coordinate is deliberately included: it is what lets the tick count
    /// self-survival and neighbor-births in one pass.
    pub fn expand(&self) -> (r: Vec<Cell>)
        requires
            in_range(*self),
        ensures
            r@ == expansion(*self),
    {
        let mut r: Vec<Cell> = Vec::new();
        r.push(Cell::new(self.x, self.y));
        r.push(Cell::new(self.x, self.y + 1));
        r.push(Cell::new(self.x + 1, self.y));
        r.push(Cell::new(self.x, self.y - 1));
        r.push(Cell::new(self.x - 1, self.y));
        r.push(Cell::new(self.x + 1, self.y + 1));
        r.push(Cell::new(self.x - 1, self.y - 1));
        r.push(Cell::new(self.x + 1, self.y - 1));
        r.push(Cell::new(self.x - 1, self.y + 1));
        proof {
            assert(r@ =~= expansion(*self));
        }
        r
    }

    /// The cell's screen-space square for the given viewport, or `None` when
    /// the cell is off-screen or its scaled coordinates would not fit the
    /// display type (reported rather than wrapped).
    pub fn rect(&self, offset: (i64, i64), size: (i64, i64)) -> (r: Option<Rect>)
        ensures
            r == project(*self, offset, size),
    {
        let dx: i128 = self.x as i128 - offset.0 as i128;
        let dy: i128 = self.y as i128 - offset.1 as i128;
        if 0 <= dx && dx <= size.0 as i128 && 0 <= dy && dy <= size.1 as i128 {
            let px: i128 = dx * (BLOCK_SIZE as i128);
            let py: i128 = dy * (BLOCK_SIZE as i128);
            if px <= i32::MAX as i128 && py <= i32::MAX as i128 {
                Some(Rect { x: px as i32, y: py as i32, w: BLOCK_SIZE, h: BLOCK_SIZE })
            } else {
                None
            }
        } else {
            None
        }
    }
}

/// A cell's expansion holds exactly the 9 coordinates its neighborhood
/// covers, each once.
pub proof fn lemma_expansion_covers(p: Cell, c: Cell)
    requires
        in_range(p),
    ensures
        expansion(p).contains(c) <==> covers(p, c),
        expansion(p).no_duplicates(),
        expansion(p).to_multiset().count(c) == if covers(p, c) {
            1nat
        } else {
            0nat
        },
{
    let e = expansion(p);
    assert(e.no_duplicates());
    if covers(p, c) {
        let dx = c.x - p.x;
        let dy = c.y - p.y;
        if dx == 0 && dy == 0 {
            assert(e[0] == c);
        } else if dx == 0 && dy == 1 {
            assert(e[1] == c);
        } else if dx == 1 && dy == 0 {
            assert(e[2] == c);
        } else if dx == 0 && dy == -1 {
            assert(e[3] == c);
        } else if dx == -1 && dy == 0 {
            assert(e[4] == c);
        } else if dx == 1 && dy == 1 {
            assert(e[5] == c);
        } else if dx == -1 && dy == -1 {
            assert(e[6] == c);
        } else if dx == 1 && dy == -1 {
            assert(e[7] == c);
        } else {
            assert(e[8] == c);
        }
        assert(e.contains(c));
    }
    broadcast use vstd::seq_lib::to_multiset_contains;

    if e.contains(c) {
        e.lemma_multiset_has_no_duplicates();
    }
}

} // verus!
