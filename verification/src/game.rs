//! The simulation: a sparse population of live cells, advanced one
//! generation at a time by the counting rule, with a catalog of canonical
//! starting patterns.

use vstd::prelude::*;

use itertools::Itertools;

use crate::cell::{Cell, Rect, cell_lt, covers, expansion, in_range, lemma_expansion_covers,
    project};

verus! {

/// The sequence is strictly ascending in the lexicographic cell order; this
/// makes it both duplicate-free and the one canonical listing of its set of
/// cells.
pub open spec fn strictly_sorted(s: Seq<Cell>) -> bool {
    forall|i: int, j: int| 0 <= i < j < s.len() ==> cell_lt(s[i], s[j])
}

/// How many entries of `pop` (counted with multiplicity) have `c` in their
/// 3x3 neighborhood. Each live cell covers its own coordinate too.
pub open spec fn contribution(pop: Seq<Cell>, c: Cell) -> nat
    decreases pop.len(),
{
    if pop.len() == 0 {
        0nat
    } else {
        contribution(pop.drop_last(), c) + if covers(pop.last(), c) {
            1nat
        } else {
            0nat
        }
    }
}

/// The generation-advance rule: a coordinate is alive in the next generation
/// exactly when its contribution count is 3, or is 4 and the coordinate was
/// already alive. (A live cell covers itself, so 3 covers both a birth with
/// 3 neighbors and survival with 2; 4-and-alive covers survival with 3.)
pub open spec fn next_alive(pop: Seq<Cell>, c: Cell) -> bool {
    contribution(pop, c) == 3 || (contribution(pop, c) == 4 && pop.contains(c))
}

/// The projections of the cells of `pop` that fall inside the viewport, in
/// population order.
pub open spec fn rects_of(pop: Seq<Cell>, offset: (i64, i64), size: (i64, i64)) -> Seq<Rect>
    decreases pop.len(),
{
    if pop.len() == 0 {
        Seq::empty()
    } else {
        let rest = rects_of(pop.drop_last(), offset, size);
        match project(pop.last(), offset, size) {
            Some(r) => rest.push(r),
            None => rest,
        }
    }
}

/// A named canonical starting configuration. Each pattern is a fixed,
/// translation-invariant table of `(dx, dy)` offsets; `Game::seed` places it
/// at a caller-chosen origin.
pub enum Seed {
    /// An 8-period oscillator: 22 cells across 3 columns.
    PentaDecathlon,
    /// The 3-cell vertical oscillator of period 2.
    Blinker,
    /// A 13-cell spaceship-producing seed.
    BLFive,
    /// A segmented horizontal line: runs of 8, 5, 3, 7 and 5 cells.
    BLLine,
    /// A 7-cell seed that grows chaotically for thousands of generations.
    Acorn,
    /// The 36-cell period-30 glider-emitting gun.
    GosperGun,
}

/// The offset table of each pattern, in the order its cells are placed.
pub open spec fn pattern_pairs(kind: Seed) -> Seq<(i8, i8)> {
    match kind {
        Seed::BLFive => seq![
            (0i8, 0i8), (0i8, 1i8), (0i8, 4i8), (1i8, 0i8), (1i8, 3i8), (2i8, 0i8), (2i8, 3i8),
            (2i8, 4i8), (3i8, 2i8), (4i8, 0i8), (4i8, 2i8), (4i8, 3i8), (4i8, 4i8),
        ],
        Seed::PentaDecathlon => seq![
            (0i8, 0i8), (0i8, 1i8), (0i8, 2i8), (0i8, 3i8), (0i8, 4i8), (0i8, 5i8), (0i8, 6i8),
            (0i8, 7i8), (2i8, 0i8), (2i8, 1i8), (2i8, 2i8), (2i8, 3i8), (2i8, 4i8), (2i8, 5i8),
            (2i8, 6i8), (2i8, 7i8), (1i8, 0i8), (1i8, 2i8), (1i8, 3i8), (1i8, 4i8), (1i8, 5i8),
            (1i8, 7i8),
        ],
        Seed::Blinker => seq![(0i8, 0i8), (0i8, 1i8), (0i8, 2i8)],
        Seed::Acorn => seq![
            (0i8, 2i8), (1i8, 0i8), (1i8, 2i8), (3i8, 1i8), (4i8, 2i8), (5i8, 2i8), (6i8, 2i8),
        ],
        Seed::BLLine => seq![
            (0i8, 0i8), (1i8, 0i8), (2i8, 0i8), (3i8, 0i8), (4i8, 0i8), (5i8, 0i8), (6i8, 0i8),
            (7i8, 0i8), (9i8, 0i8), (10i8, 0i8), (11i8, 0i8), (12i8, 0i8), (13i8, 0i8),
            (17i8, 0i8), (18i8, 0i8), (19i8, 0i8), (26i8, 0i8), (27i8, 0i8), (28i8, 0i8),
            (29i8, 0i8), (30i8, 0i8), (31i8, 0i8), (32i8, 0i8), (34i8, 0i8), (35i8, 0i8),
            (36i8, 0i8), (37i8, 0i8), (38i8, 0i8),
        ],
        Seed::GosperGun => seq![
            (0i8, 4i8), (0i8, 5i8), (1i8, 4i8), (1i8, 5i8), (10i8, 4i8), (10i8, 5i8), (10i8, 6i8),
            (11i8, 3i8), (11i8, 7i8), (12i8, 2i8), (12i8, 8i8), (13i8, 2i8), (13i8, 8i8),
            (14i8, 5i8), (15i8, 3i8), (15i8, 7i8), (16i8, 4i8), (16i8, 5i8), (16i8, 6i8),
            (17i8, 5i8), (20i8, 2i8), (20i8, 3i8), (20i8, 4i8), (21i8, 2i8), (21i8, 3i8),
            (21i8, 4i8), (22i8, 1i8), (22i8, 5i8), (24i8, 0i8), (24i8, 1i8), (24i8, 5i8),
            (24i8, 6i8), (34i8, 2i8), (34i8, 3i8), (35i8, 2i8), (35i8, 3i8),
        ],
    }
}

/// The cell a pattern offset lands on when the pattern is placed at `(x, y)`.
pub open spec fn cell_at(o: (i8, i8), x: int, y: int) -> Cell {
    Cell { x: (x + o.0) as i64, y: (y + o.1) as i64 }
}

/// Every cell of the pattern placed at `(x, y)` has representable
/// coordinates.
pub open spec fn pattern_fits(offs: Seq<(i8, i8)>, x: int, y: int) -> bool {
    forall|k: int|
        0 <= k < offs.len() ==> i64::MIN <= x + (#[trigger] offs[k]).0 <= i64::MAX && i64::MIN <= y
            + offs[k].1 <= i64::MAX
}

/// `c` is one of the cells of the pattern placed at `(x, y)`.
pub open spec fn in_pattern(offs: Seq<(i8, i8)>, x: int, y: int, c: Cell) -> bool {
    exists|k: int| 0 <= k < offs.len() && c == cell_at(#[trigger] offs[k], x, y)
}

/// One of the first `j` tally entries is for coordinate `c`.
pub open spec fn picked(pairs: Seq<(Cell, usize)>, j: int, c: Cell) -> bool {
    exists|k: int| 0 <= k < j && (#[trigger] pairs[k]).0 == c
}

/// The live population. Its view is the current generation as a sequence of
/// cells, kept strictly sorted: one entry per live coordinate.
pub struct Game {
    population: Vec<Cell>,
}

impl View for Game {
    type V = Seq<Cell>;

    closed spec fn view(&self) -> Seq<Cell> {
        self.population@
    }
}

/// Strict lexicographic order, decided in executable code.
fn cell_lt_exec(a: &Cell, b: &Cell) -> (r: bool)
    ensures
        r == cell_lt(*a, *b),
{
    a.x < b.x || (a.x == b.x && a.y < b.y)
}

/// Linear membership test against the population order.
fn contains_cell(v: &Vec<Cell>, c: &Cell) -> (r: bool)
    ensures
        r == v@.contains(*c),
{
    let mut i: usize = 0;
    while i < v.len()
        invariant
            i <= v@.len(),
            forall|j: int| 0 <= j < i ==> v@[j] != *c,
        decreases v@.len() - i,
    {
        if v[i].x == c.x && v[i].y == c.y {
            return true;
        }
        i += 1;
    }
    false
}

/// Insert `c` at its sorted position, unless it is already present.
fn insert_sorted(v: &mut Vec<Cell>, c: Cell)
    requires
        strictly_sorted(old(v)@),
    ensures
        strictly_sorted(final(v)@),
        forall|d: Cell| final(v)@.contains(d) <==> old(v)@.contains(d) || d == c,
        old(v)@.contains(c) ==> final(v)@ == old(v)@,
        final(v)@.len() <= old(v)@.len() + 1,
{
    let ghost v0 = v@;
    let mut i: usize = 0;
    while i < v.len() && cell_lt_exec(&v[i], &c)
        invariant
            v@ == v0,
            i <= v@.len(),
            forall|j: int| 0 <= j < i ==> cell_lt(v@[j], c),
        decreases v@.len() - i,
    {
        i += 1;
    }
    if i < v.len() && v[i].x == c.x && v[i].y == c.y {
        proof {
            assert(v@[i as int] == c);
            assert(v@.contains(c));
        }
        return ;
    }
    proof {
        v0.insert_ensures(i as int, c);
    }
    v.insert(i, c);
    proof {
        assert forall|p: int, q: int| 0 <= p < q < v@.len() implies cell_lt(v@[p], v@[q]) by {
            if q < i {
                assert(cell_lt(v0[p], v0[q]));
            } else if p > i {
                assert(cell_lt(v0[p - 1], v0[q - 1]));
            } else if p < i && q == i {
                assert(cell_lt(v0[p], c));
            } else if p == i && q > i {
                if i < v0.len() {
                    assert(!cell_lt(v0[i as int], c) && v0[i as int] != c);
                    assert(cell_lt(c, v0[i as int]));
                    if q > i + 1 {
                        assert(cell_lt(v0[i as int], v0[q - 1]));
                    }
                }
            } else if p < i && q > i {
                assert(cell_lt(v0[p], c));
                if i < v0.len() {
                    assert(cell_lt(c, v0[i as int]));
                }
            }
        }
        broadcast use vstd::seq_lib::to_multiset_insert, vstd::seq_lib::to_multiset_contains;

        assert forall|d: Cell| v@.contains(d) <==> v0.contains(d) || d == c by {
            assert(v@.to_multiset() == v0.to_multiset().insert(c));
            assert(v@.to_multiset().count(d) == v0.to_multiset().count(d) + if d == c {
                1int
            } else {
                0int
            });
        }
    }
}

/// The offset table of `kind`, as executable data.
pub(crate) fn pattern_vec(kind: &Seed) -> (r: Vec<(i8, i8)>)
    ensures
        r@ == pattern_pairs(*kind),
{
    let mut r: Vec<(i8, i8)> = Vec::new();
    match kind {
        Seed::BLFive => {
            r.push((0i8, 0i8));
            r.push((0i8, 1i8));
            r.push((0i8, 4i8));
            r.push((1i8, 0i8));
            r.push((1i8, 3i8));
            r.push((2i8, 0i8));
            r.push((2i8, 3i8));
            r.push((2i8, 4i8));
            r.push((3i8, 2i8));
            r.push((4i8, 0i8));
            r.push((4i8, 2i8));
            r.push((4i8, 3i8));
            r.push((4i8, 4i8));
        },
        Seed::PentaDecathlon => {
            r.push((0i8, 0i8));
            r.push((0i8, 1i8));
            r.push((0i8, 2i8));
            r.push((0i8, 3i8));
            r.push((0i8, 4i8));
            r.push((0i8, 5i8));
            r.push((0i8, 6i8));
            r.push((0i8, 7i8));
            r.push((2i8, 0i8));
            r.push((2i8, 1i8));
            r.push((2i8, 2i8));
            r.push((2i8, 3i8));
            r.push((2i8, 4i8));
            r.push((2i8, 5i8));
            r.push((2i8, 6i8));
            r.push((2i8, 7i8));
            r.push((1i8, 0i8));
            r.push((1i8, 2i8));
            r.push((1i8, 3i8));
            r.push((1i8, 4i8));
            r.push((1i8, 5i8));
            r.push((1i8, 7i8));
        },
        Seed::Blinker => {
            r.push((0i8, 0i8));
            r.push((0i8, 1i8));
            r.push((0i8, 2i8));
        },
        Seed::Acorn => {
            r.push((0i8, 2i8));
            r.push((1i8, 0i8));
            r.push((1i8, 2i8));
            r.push((3i8, 1i8));
            r.push((4i8, 2i8));
            r.push((5i8, 2i8));
            r.push((6i8, 2i8));
        },
        Seed::BLLine => {
            r.push((0i8, 0i8));
            r.push((1i8, 0i8));
            r.push((2i8, 0i8));
            r.push((3i8, 0i8));
            r.push((4i8, 0i8));
            r.push((5i8, 0i8));
            r.push((6i8, 0i8));
            r.push((7i8, 0i8));
            r.push((9i8, 0i8));
            r.push((10i8, 0i8));
            r.push((11i8, 0i8));
            r.push((12i8, 0i8));
            r.push((13i8, 0i8));
            r.push((17i8, 0i8));
            r.push((18i8, 0i8));
            r.push((19i8, 0i8));
            r.push((26i8, 0i8));
            r.push((27i8, 0i8));
            r.push((28i8, 0i8));
            r.push((29i8, 0i8));
            r.push((30i8, 0i8));
            r.push((31i8, 0i8));
            r.push((32i8, 0i8));
            r.push((34i8, 0i8));
            r.push((35i8, 0i8));
            r.push((36i8, 0i8));
            r.push((37i8, 0i8));
            r.push((38i8, 0i8));
        },
        Seed::GosperGun => {
            r.push((0i8, 4i8));
            r.push((0i8, 5i8));
            r.push((1i8, 4i8));
            r.push((1i8, 5i8));
            r.push((10i8, 4i8));
            r.push((10i8, 5i8));
            r.push((10i8, 6i8));
            r.push((11i8, 3i8));
            r.push((11i8, 7i8));
            r.push((12i8, 2i8));
            r.push((12i8, 8i8));
            r.push((13i8, 2i8));
            r.push((13i8, 8i8));
            r.push((14i8, 5i8));
            r.push((15i8, 3i8));
            r.push((15i8, 7i8));
            r.push((16i8, 4i8));
            r.push((16i8, 5i8));
            r.push((16i8, 6i8));
            r.push((17i8, 5i8));
            r.push((20i8, 2i8));
            r.push((20i8, 3i8));
            r.push((20i8, 4i8));
            r.push((21i8, 2i8));
            r.push((21i8, 3i8));
            r.push((21i8, 4i8));
            r.push((22i8, 1i8));
            r.push((22i8, 5i8));
            r.push((24i8, 0i8));
            r.push((24i8, 1i8));
            r.push((24i8, 5i8));
            r.push((24i8, 6i8));
            r.push((34i8, 2i8));
            r.push((34i8, 3i8));
            r.push((35i8, 2i8));
            r.push((35i8, 3i8));
        },
    }
    proof {
        assert(r@ =~= pattern_pairs(*kind));
    }
    r
}

/// Relies on `itertools::Itertools::counts`: it returns one entry per
/// distinct item of the iterator, mapped to that item's number of
/// occurrences. The entry order is whatever the backing hash map yields, so
/// nothing is promised of it.
#[verifier::external_body]
fn count_occurrences(cells: &Vec<Cell>) -> (r: Vec<(Cell, usize)>)
    ensures
        forall|k: int|
            0 <= k < r@.len() ==> (#[trigger] r@[k]).1 == cells@.to_multiset().count(r@[k].0)
                && r@[k].1 > 0,
        forall|k: int, l: int| 0 <= k < l < r@.len() ==> r@[k].0 != r@[l].0,
        forall|c: Cell|
            cells@.contains(c) ==> exists|k: int|
                0 <= k < r@.len() && (#[trigger] r@[k]).0 == c,
{
    cells.iter().copied().counts().into_iter().collect()
}

impl Game {
    /// The population is strictly sorted: the well-formedness every method
    /// preserves.
    pub open spec fn wf(&self) -> bool {
        strictly_sorted(self@)
    }

    /// An empty simulation: no live cells.
    pub fn new() -> (g: Game)
        ensures
            g.wf(),
            g@ == Seq::<Cell>::empty(),
    {
        Game { population: Vec::new() }
    }

    /// Make the cell at `(x, y)` live. Spawning an already live coordinate
    /// leaves the population unchanged: duplicates are coalesced eagerly, so
    /// `count` never counts one coordinate twice.
    pub fn spawn(&mut self, x: i64, y: i64)
        requires
            old(self).wf(),
        ensures
            final(self).wf(),
            forall|c: Cell|
                final(self)@.contains(c) <==> old(self)@.contains(c) || c == (Cell { x, y }),
            old(self)@.contains(Cell { x, y }) ==> final(self)@ == old(self)@,
            final(self)@.len() <= old(self)@.len() + 1,
    {
        let c = Cell::new(x, y);
        insert_sorted(&mut self.population, c);
    }

    /// The number of live cells in the current generation.
    pub fn count(&self) -> (n: usize)
        ensures
            n == self@.len(),
    {
        self.population.len()
    }

    /// Advance one generation. Every live cell's 9-cell neighborhood is
    /// expanded and tallied; the tallied coordinates that meet the rule
    /// (contribution 3, or 4 while already alive) replace the population
    /// wholesale. Coordinates never contributed to are dead by absence.
    #[verifier::loop_isolation(false)]
    pub fn tick(&mut self)
        requires
            old(self).wf(),
            forall|i: int| 0 <= i < old(self)@.len() ==> in_range(#[trigger] old(self)@[i]),
        ensures
            final(self).wf(),
            forall|c: Cell| final(self)@.contains(c) <==> next_alive(old(self)@, c),
    {
        let ghost pop0 = self@;
        // Expand every live cell into its 9-cell neighborhood.
        let mut expanded: Vec<Cell> = Vec::new();
        let mut i: usize = 0;
        proof {
            broadcast use vstd::seq_lib::to_multiset_contains;

            assert forall|c: Cell|
                expanded@.to_multiset().count(c) == contribution(pop0.take(0), c) by {
                assert(!expanded@.contains(c));
                assert(pop0.take(0).len() == 0);
            }
        }
        while i < self.population.len()
            invariant
                i <= pop0.len(),
                forall|c: Cell|
                    expanded@.to_multiset().count(c) == contribution(pop0.take(i as int), c),
            decreases pop0.len() - i,
        {
            let ghost exp0 = expanded@;
            let mut e = self.population[i].expand();
            expanded.append(&mut e);
            proof {
                vstd::seq_lib::lemma_multiset_commutative(exp0, expansion(pop0[i as int]));
                let t = pop0.take(i + 1 as int);
                assert(t.drop_last() =~= pop0.take(i as int));
                assert(t.last() == pop0[i as int]);
                assert forall|c: Cell|
                    expanded@.to_multiset().count(c) == contribution(
                        pop0.take(i + 1 as int),
                        c,
                    ) by {
                    lemma_expansion_covers(pop0[i as int], c);
                    assert(expanded@.to_multiset().count(c) == exp0.to_multiset().count(c)
                        + expansion(pop0[i as int]).to_multiset().count(c));
                }
            }
            i += 1;
        }
        proof {
            assert(pop0.take(pop0.len() as int) =~= pop0);
        }
        // Tally: one entry per distinct covered coordinate, with its
        // contribution count.
        let pairs = count_occurrences(&expanded);
        // Keep exactly the tallied coordinates that meet the rule.
        let mut next: Vec<Cell> = Vec::new();
        let mut j: usize = 0;
        while j < pairs.len()
            invariant
                j <= pairs@.len(),
                strictly_sorted(next@),
                forall|c: Cell|
                    next@.contains(c) <==> next_alive(pop0, c) && picked(pairs@, j as int, c),
            decreases pairs@.len() - j,
        {
            let p = pairs[j];
            let ghost jprev = j as int;
            let ghost next0 = next@;
            let alive_now = contains_cell(&self.population, &p.0);
            let rule = p.1 == 3 || (p.1 == 4 && alive_now);
            if rule {
                insert_sorted(&mut next, p.0);
            }
            j += 1;
            proof {
                assert(j as int == jprev + 1);
                assert(pairs@[jprev].1 == contribution(pop0, pairs@[jprev].0));
                assert(rule == next_alive(pop0, p.0));
                assert forall|c: Cell|
                    next@.contains(c) <==> next_alive(pop0, c) && picked(pairs@, j as int, c) by {
                    if next@.contains(c) {
                        if next0.contains(c) {
                            assert(next_alive(pop0, c));
                            let k0 = choose|k: int|
                                0 <= k < jprev && (#[trigger] pairs@[k]).0 == c;
                            assert(0 <= k0 < j && pairs@[k0].0 == c);
                            assert(picked(pairs@, j as int, c));
                        } else {
                            assert(rule);
                            assert(c == p.0);
                            assert(pairs@[jprev].0 == c);
                            assert(picked(pairs@, j as int, c));
                        }
                    }
                    if next_alive(pop0, c) && picked(pairs@, j as int, c) {
                        let k = choose|k: int| 0 <= k < j && (#[trigger] pairs@[k]).0 == c;
                        if k == jprev {
                            assert(c == p.0);
                            assert(rule);
                            assert(next@.contains(c));
                        } else {
                            assert(0 <= k < jprev && pairs@[k].0 == c);
                            assert(picked(pairs@, jprev, c));
                            assert(next0.contains(c));
                            assert(next@.contains(c));
                        }
                    }
                }
                assert(forall|c: Cell|
                    next@.contains(c) <==> next_alive(pop0, c) && picked(pairs@, j as int, c));
            }
        }
        proof {
            broadcast use vstd::seq_lib::to_multiset_contains;

            assert forall|c: Cell| next@.contains(c) <==> next_alive(pop0, c) by {
                if next_alive(pop0, c) {
                    assert(expanded@.to_multiset().count(c) >= 3);
                    assert(expanded@.contains(c));
                }
            }
        }
        self.population = next;
    }

    /// Place `kind`'s pattern with its origin at `(x, y)`: every offset
    /// `(dx, dy)` of the table becomes a live cell at `(x+dx, y+dy)`. Purely
    /// additive — the existing population stays, so several structures can
    /// be seeded into one simulation.
    #[verifier::loop_isolation(false)]
    pub fn seed(&mut self, kind: Seed, x: i64, y: i64)
        requires
            old(self).wf(),
            pattern_fits(pattern_pairs(kind), x as int, y as int),
        ensures
            final(self).wf(),
            forall|c: Cell|
                final(self)@.contains(c) <==> old(self)@.contains(c) || in_pattern(
                    pattern_pairs(kind),
                    x as int,
                    y as int,
                    c,
                ),
    {
        let offs = pattern_vec(&kind);
        let mut i: usize = 0;
        while i < offs.len()
            invariant
                i <= offs@.len(),
                self.wf(),
                forall|c: Cell|
                    self@.contains(c) <==> old(self)@.contains(c) || in_pattern(
                        offs@.take(i as int),
                        x as int,
                        y as int,
                        c,
                    ),
            decreases offs@.len() - i,
        {
            let o = offs[i];
            let ghost popb = self@;
            let ghost iprev = i as int;
            let cx = x + o.0 as i64;
            let cy = y + o.1 as i64;
            self.spawn(cx, cy);
            i += 1;
            proof {
                assert(i as int == iprev + 1);
                let t = offs@.take(i as int);
                assert(t.len() == iprev + 1);
                assert(Cell { x: cx, y: cy } == cell_at(offs@[iprev], x as int, y as int));
                assert forall|c: Cell|
                    self@.contains(c) <==> old(self)@.contains(c) || in_pattern(
                        t,
                        x as int,
                        y as int,
                        c,
                    ) by {
                    if self@.contains(c) {
                        if popb.contains(c) {
                            if !old(self)@.contains(c) {
                                let k0 = choose|k: int|
                                    0 <= k < iprev && c == cell_at(
                                        #[trigger] offs@.take(iprev)[k],
                                        x as int,
                                        y as int,
                                    );
                                assert(t[k0] == offs@.take(iprev)[k0]);
                                assert(in_pattern(t, x as int, y as int, c));
                            }
                        } else {
                            assert(c == (Cell { x: cx, y: cy }));
                            assert(t[iprev] == offs@[iprev]);
                            assert(in_pattern(t, x as int, y as int, c));
                        }
                    }
                    if in_pattern(t, x as int, y as int, c) {
                        let k = choose|k: int|
                            0 <= k < t.len() && c == cell_at(#[trigger] t[k], x as int, y as int);
                        if k == iprev {
                            assert(c == (Cell { x: cx, y: cy }));
                            assert(self@.contains(c));
                        } else {
                            assert(offs@.take(iprev)[k] == t[k]);
                            assert(in_pattern(offs@.take(iprev), x as int, y as int, c));
                            assert(popb.contains(c));
                            assert(self@.contains(c));
                        }
                    }
                }
                assert(forall|c: Cell|
                    self@.contains(c) <==> old(self)@.contains(c) || in_pattern(
                        offs@.take(i as int),
                        x as int,
                        y as int,
                        c,
                    ));
            }
        }
        proof {
            assert(offs@.take(offs@.len() as int) =~= offs@);
        }
    }

    /// The current generation, in canonical (strictly sorted) order.
    pub fn cells(&self) -> (r: Vec<Cell>)
        ensures
            r@ == self@,
    {
        let mut r: Vec<Cell> = Vec::new();
        let mut i: usize = 0;
        while i < self.population.len()
            invariant
                i <= self@.len(),
                r@ == self@.take(i as int),
                self@ == self.population@,
            decreases self@.len() - i,
        {
            r.push(self.population[i]);
            proof {
                assert(r@ =~= self@.take(i + 1 as int));
            }
            i += 1;
        }
        proof {
            assert(r@ =~= self@);
        }
        r
    }

    /// The screen-space squares of the live cells that fall inside the
    /// viewport, in population order; off-screen and non-representable cells
    /// are left out.
    pub fn get_rects(&self, offset: (i64, i64), size: (i64, i64)) -> (r: Vec<Rect>)
        ensures
            r@ == rects_of(self@, offset, size),
    {
        let mut r: Vec<Rect> = Vec::new();
        let mut i: usize = 0;
        while i < self.population.len()
            invariant
                i <= self@.len(),
                r@ == rects_of(self@.take(i as int), offset, size),
                self@ == self.population@,
            decreases self@.len() - i,
        {
            match self.population[i].rect(offset, size) {
                Some(rect) => {
                    r.push(rect);
                },
                None => {
                },
            }
            proof {
                let t = self@.take(i + 1 as int);
                assert(t.drop_last() =~= self@.take(i as int));
                assert(t.last() == self@[i as int]);
            }
            i += 1;
        }
        proof {
            assert(self@.take(self@.len() as int) =~= self@);
        }
        r
    }
}

} // verus!
