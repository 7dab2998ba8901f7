//! Consequences of the generation-advance rule, proved once and for all
//! origins: canonical form of a population, the still-life block, the
//! Blinker's period, extinction of a lone cell, and the viewport bounds of
//! the projection.

use vstd::prelude::*;
use vstd::relations::total_ordering;
use vstd::seq_lib::lemma_sorted_unique;

use crate::cell::{BLOCK_SIZE, Cell, Rect, cell_le, cell_lt, covers, project};
use crate::game::{Seed, contribution, in_pattern, next_alive, pattern_pairs, rects_of,
    strictly_sorted};

verus! {

/// 1 when `p`'s neighborhood covers `c`, else 0: one cell's share of `c`'s
/// contribution count.
pub open spec fn cover_count(p: Cell, c: Cell) -> nat {
    if covers(p, c) {
        1nat
    } else {
        0nat
    }
}

/// Two strictly sorted populations with the same members are the same
/// sequence: the sorted order is canonical.
pub proof fn lemma_canonical_form(s1: Seq<Cell>, s2: Seq<Cell>)
    requires
        strictly_sorted(s1),
        strictly_sorted(s2),
        forall|c: Cell| s1.contains(c) <==> s2.contains(c),
    ensures
        s1 == s2,
{
    let leq = |a: Cell, b: Cell| cell_le(a, b);
    assert(total_ordering(leq)) by {
        assert forall|a: Cell, b: Cell| a != b implies #[trigger] leq(a, b) || #[trigger] leq(
            b,
            a,
        ) by {
            assert(cell_lt(a, b) || cell_lt(b, a));
        }
    }
    assert forall|i: int, j: int|
        0 <= i < s1.len() && 0 <= j < s1.len() && i != j implies s1[i] != s1[j] by {
        if i < j {
            assert(cell_lt(s1[i], s1[j]));
        } else {
            assert(cell_lt(s1[j], s1[i]));
        }
    }
    assert(s1.no_duplicates());
    assert forall|i: int, j: int|
        0 <= i < s2.len() && 0 <= j < s2.len() && i != j implies s2[i] != s2[j] by {
        if i < j {
            assert(cell_lt(s2[i], s2[j]));
        } else {
            assert(cell_lt(s2[j], s2[i]));
        }
    }
    assert(s2.no_duplicates());
    s1.lemma_multiset_has_no_duplicates();
    s2.lemma_multiset_has_no_duplicates();
    broadcast use vstd::seq_lib::to_multiset_contains;

    assert(s1.to_multiset() =~= s2.to_multiset()) by {
        assert forall|c: Cell| s1.to_multiset().count(c) == s2.to_multiset().count(c) by {
            if s1.contains(c) {
                assert(s1.to_multiset().count(c) == 1);
                assert(s2.to_multiset().count(c) == 1);
            } else {
                assert(s1.to_multiset().count(c) == 0);
                assert(s2.to_multiset().count(c) == 0);
            }
        }
    }
    assert(vstd::relations::sorted_by(s1, leq));
    assert(vstd::relations::sorted_by(s2, leq));
    lemma_sorted_unique(s1, s2, leq);
}

/// The contribution of a one-cell population, written out.
pub proof fn lemma_contribution1(a: Cell, c: Cell)
    ensures
        contribution(seq![a], c) == cover_count(a, c),
{
    let s1 = seq![a];
    let s0 = Seq::<Cell>::empty();
    assert(s1.drop_last() =~= s0);
    assert(contribution(s0, c) == 0);
    assert(contribution(s1, c) == contribution(s0, c) + cover_count(a, c));
}

/// The contribution of a three-cell population, written out.
pub proof fn lemma_contribution3(a: Cell, b: Cell, d: Cell, c: Cell)
    ensures
        contribution(seq![a, b, d], c) == cover_count(a, c) + cover_count(b, c) + cover_count(
            d,
            c,
        ),
{
    let s3 = seq![a, b, d];
    let s2 = seq![a, b];
    let s1 = seq![a];
    let s0 = Seq::<Cell>::empty();
    assert(s3.drop_last() =~= s2);
    assert(s2.drop_last() =~= s1);
    assert(s1.drop_last() =~= s0);
    assert(contribution(s0, c) == 0);
    assert(contribution(s1, c) == contribution(s0, c) + cover_count(a, c));
    assert(contribution(s2, c) == contribution(s1, c) + cover_count(b, c));
    assert(contribution(s3, c) == contribution(s2, c) + cover_count(d, c));
}

/// The contribution of a four-cell population, written out.
pub proof fn lemma_contribution4(a: Cell, b: Cell, d: Cell, e: Cell, c: Cell)
    ensures
        contribution(seq![a, b, d, e], c) == cover_count(a, c) + cover_count(b, c) + cover_count(
            d,
            c,
        ) + cover_count(e, c),
{
    let s4 = seq![a, b, d, e];
    let s3 = seq![a, b, d];
    let s0 = Seq::<Cell>::empty();
    assert(s4.drop_last() =~= s3);
    lemma_contribution3(a, b, d, c);
    assert(contribution(s4, c) == contribution(s3, c) + cover_count(e, c));
}

/// A lone live cell has no coordinate with contribution 3 or more, so the
/// next generation is empty.
pub proof fn lemma_lone_cell_dies(a: Cell, p1: Seq<Cell>)
    requires
        forall|c: Cell| p1.contains(c) <==> next_alive(seq![a], c),
    ensures
        p1 == Seq::<Cell>::empty(),
{
    assert forall|c: Cell| !next_alive(seq![a], c) by {
        lemma_contribution1(a, c);
    }
    if p1.len() > 0 {
        assert(p1.contains(p1[0]));
    }
    assert(p1 =~= Seq::<Cell>::empty());
}

/// A 2x2 block of live cells is a still life: one tick leaves exactly those
/// four cells, at any origin.
pub proof fn lemma_block_still_life(x: i64, y: i64, p0: Seq<Cell>, p1: Seq<Cell>)
    requires
        x + 1 <= i64::MAX,
        y + 1 <= i64::MAX,
        strictly_sorted(p0),
        forall|c: Cell|
            p0.contains(c) <==> (c == (Cell { x, y }) || c == (Cell { x, y: (y + 1) as i64 }) || c
                == (Cell { x: (x + 1) as i64, y }) || c == (Cell {
                x: (x + 1) as i64,
                y: (y + 1) as i64,
            })),
        strictly_sorted(p1),
        forall|c: Cell| p1.contains(c) <==> next_alive(p0, c),
    ensures
        p1 == p0,
{
    let b00 = Cell { x, y };
    let b01 = Cell { x, y: (y + 1) as i64 };
    let b10 = Cell { x: (x + 1) as i64, y };
    let b11 = Cell { x: (x + 1) as i64, y: (y + 1) as i64 };
    let lit = seq![b00, b01, b10, b11];
    assert(strictly_sorted(lit));
    assert forall|c: Cell| lit.contains(c) <==> (c == b00 || c == b01 || c == b10 || c
        == b11) by {
        if c == b00 || c == b01 || c == b10 || c == b11 {
            assert(lit[0] == b00 && lit[1] == b01 && lit[2] == b10 && lit[3] == b11);
        }
    }
    lemma_canonical_form(p0, lit);
    assert forall|c: Cell| next_alive(p0, c) <==> p0.contains(c) by {
        lemma_contribution4(b00, b01, b10, b11, c);
    }
    lemma_canonical_form(p1, p0);
}

/// The Blinker seeded at any origin `(x, y)` stands perpendicular after one
/// tick and is back to its original three cells after two.
pub proof fn lemma_blinker_oscillates(x: i64, y: i64, p0: Seq<Cell>, p1: Seq<Cell>, p2: Seq<Cell>)
    requires
        i64::MIN <= x - 1,
        x + 1 <= i64::MAX,
        y + 2 <= i64::MAX,
        strictly_sorted(p0),
        forall|c: Cell|
            p0.contains(c) <==> in_pattern(pattern_pairs(Seed::Blinker), x as int, y as int, c),
        strictly_sorted(p1),
        forall|c: Cell| p1.contains(c) <==> next_alive(p0, c),
        strictly_sorted(p2),
        forall|c: Cell| p2.contains(c) <==> next_alive(p1, c),
    ensures
        p1 == seq![
            Cell { x: (x - 1) as i64, y: (y + 1) as i64 },
            Cell { x, y: (y + 1) as i64 },
            Cell { x: (x + 1) as i64, y: (y + 1) as i64 },
        ],
        p2 == p0,
{
    let offs = pattern_pairs(Seed::Blinker);
    let b0 = Cell { x, y };
    let b1 = Cell { x, y: (y + 1) as i64 };
    let b2 = Cell { x, y: (y + 2) as i64 };
    let h0 = Cell { x: (x - 1) as i64, y: (y + 1) as i64 };
    let h1 = Cell { x, y: (y + 1) as i64 };
    let h2 = Cell { x: (x + 1) as i64, y: (y + 1) as i64 };
    assert forall|c: Cell| in_pattern(offs, x as int, y as int, c) <==> (c == b0 || c == b1 || c
        == b2) by {
        assert(crate::game::cell_at(offs[0], x as int, y as int) == b0);
        assert(crate::game::cell_at(offs[1], x as int, y as int) == b1);
        assert(crate::game::cell_at(offs[2], x as int, y as int) == b2);
    }
    let lit0 = seq![b0, b1, b2];
    assert(strictly_sorted(lit0));
    assert forall|c: Cell| lit0.contains(c) <==> (c == b0 || c == b1 || c == b2) by {
        if c == b0 || c == b1 || c == b2 {
            assert(lit0[0] == b0 && lit0[1] == b1 && lit0[2] == b2);
        }
    }
    lemma_canonical_form(p0, lit0);
    assert forall|c: Cell| next_alive(p0, c) <==> (c == h0 || c == h1 || c == h2) by {
        lemma_contribution3(b0, b1, b2, c);
    }
    let lit1 = seq![h0, h1, h2];
    assert(strictly_sorted(lit1));
    assert forall|c: Cell| lit1.contains(c) <==> (c == h0 || c == h1 || c == h2) by {
        if c == h0 || c == h1 || c == h2 {
            assert(lit1[0] == h0 && lit1[1] == h1 && lit1[2] == h2);
        }
    }
    lemma_canonical_form(p1, lit1);
    assert forall|c: Cell| next_alive(p1, c) <==> (c == b0 || c == b1 || c == b2) by {
        lemma_contribution3(h0, h1, h2, c);
    }
    lemma_canonical_form(p2, p0);
}

/// A rectangle is drawn for a viewport exactly when some live cell projects
/// to it.
pub proof fn lemma_rects_membership(
    pop: Seq<Cell>,
    offset: (i64, i64),
    size: (i64, i64),
    r: Rect,
)
    ensures
        rects_of(pop, offset, size).contains(r) <==> exists|k: int|
            0 <= k < pop.len() && project(#[trigger] pop[k], offset, size) == Some(r),
    decreases pop.len(),
{
    if pop.len() == 0 {
    } else {
        let rest = pop.drop_last();
        lemma_rects_membership(rest, offset, size, r);
        let rs = rects_of(pop, offset, size);
        let rrest = rects_of(rest, offset, size);
        if rs.contains(r) {
            match project(pop.last(), offset, size) {
                Some(q) => {
                    assert(rs == rrest.push(q));
                    if r == q {
                        assert(project(pop[pop.len() - 1], offset, size) == Some(r));
                    } else {
                        assert(rrest.contains(r)) by {
                            let m = choose|m: int| 0 <= m < rs.len() && rs[m] == r;
                            assert(rrest[m] == r);
                        }
                        let k = choose|k: int|
                            0 <= k < rest.len() && project(#[trigger] rest[k], offset, size)
                                == Some(r);
                        assert(project(pop[k], offset, size) == Some(r));
                    }
                },
                None => {
                    let k = choose|k: int|
                        0 <= k < rest.len() && project(#[trigger] rest[k], offset, size) == Some(
                            r,
                        );
                    assert(project(pop[k], offset, size) == Some(r));
                },
            }
        }
        if exists|k: int| 0 <= k < pop.len() && project(#[trigger] pop[k], offset, size) == Some(
            r,
        ) {
            let k = choose|k: int|
                0 <= k < pop.len() && project(#[trigger] pop[k], offset, size) == Some(r);
            if k == pop.len() - 1 {
                assert(rs.contains(r)) by {
                    match project(pop.last(), offset, size) {
                        Some(q) => {
                            assert(rs == rrest.push(q));
                            assert(rs[rs.len() - 1] == q);
                        },
                        None => {
                        },
                    }
                }
            } else {
                assert(rest[k] == pop[k]);
                assert(rrest.contains(r));
                assert forall|m: int| 0 <= m < rrest.len() implies rs.contains(rrest[m]) by {
                    match project(pop.last(), offset, size) {
                        Some(q) => {
                            assert(rs == rrest.push(q));
                            assert(rs[m] == rrest[m]);
                        },
                        None => {
                        },
                    }
                }
                let m = choose|m: int| 0 <= m < rrest.len() && rrest[m] == r;
                assert(rs.contains(rrest[m]));
            }
        }
    }
}

/// For offset `(0, 0)` and bound `(w, h)`, the cell at `(w, 0)` projects to
/// a rectangle (the upper edge is inclusive) while the cell at `(w + 1, 0)`
/// projects to nothing and so is never drawn.
pub proof fn lemma_projection_bounds(w: i64, h: i64)
    requires
        0 <= w,
        w + 1 <= i64::MAX,
        0 <= h,
        w * BLOCK_SIZE <= i32::MAX,
    ensures
        project(Cell { x: w, y: 0 }, (0i64, 0i64), (w, h)) == Some(
            Rect { x: (w * BLOCK_SIZE) as i32, y: 0, w: BLOCK_SIZE, h: BLOCK_SIZE },
        ),
        project(Cell { x: (w + 1) as i64, y: 0 }, (0i64, 0i64), (w, h)) is None,
{
    assert(!crate::cell::visible(Cell { x: (w + 1) as i64, y: 0 }, (0i64, 0i64), (w, h)));
}

} // verus!
