//! Walks over free cells and the set of cells that a start cell reaches.
//!
//! Everything here is mathematics: a board is the set of its free cells, a
//! walk is a sequence of free cells in which neighbours share an edge, and a
//! cell is reachable from another when a walk joins them.

use crate::geometry::{adjacent, manhattan, Cell};
use vstd::prelude::*;
use vstd::set_lib::*;

verus! {

/// The cells at positions `i` and `i + 1` of `p` share an edge.
pub open spec fn linked(p: Seq<Cell>, i: int) -> bool {
    adjacent(p[i], p[i + 1])
}

/// `p` is a non-empty sequence of free cells, each adjacent to the next.
pub open spec fn is_walk(free: Set<Cell>, p: Seq<Cell>) -> bool {
    &&& p.len() > 0
    &&& forall|i: int| 0 <= i < p.len() ==> free.contains(#[trigger] p[i])
    &&& forall|i: int| 0 <= i < p.len() - 1 ==> #[trigger] linked(p, i)
}

/// `p` is a walk from `a` to `b`.
pub open spec fn walk_between(free: Set<Cell>, p: Seq<Cell>, a: Cell, b: Cell) -> bool {
    is_walk(free, p) && p[0] == a && p[p.len() - 1] == b
}

/// Some walk over free cells leads from `a` to `b`.
pub open spec fn connects(free: Set<Cell>, a: Cell, b: Cell) -> bool {
    exists|p: Seq<Cell>| #[trigger] walk_between(free, p, a, b)
}

/// The free cells that `start` reaches, `start` itself included when it is free.
pub open spec fn reachable(free: Set<Cell>, start: Cell) -> Set<Cell> {
    Set::new(|c: Cell| connects(free, start, c))
}

/// All cells of a board `width` wide and `height` high.
pub open spec fn board_cells(width: int, height: int) -> Set<Cell> {
    Set::new(|c: Cell| 0 <= c.0 < width && 0 <= c.1 < height)
}

/// The cells of row `y` with `0 <= x < width`.
pub open spec fn row_cells(width: int, y: int) -> Set<Cell> {
    Set::new(|c: Cell| 0 <= c.0 < width && c.1 == y)
}

/// A free cell reaches itself.
pub proof fn lemma_connects_self(free: Set<Cell>, a: Cell)
    requires
        free.contains(a),
    ensures
        connects(free, a, a),
{
    let p = seq![a];
    assert(walk_between(free, p, a, a));
}

/// A walk can be prolonged by one adjacent free cell.
pub proof fn lemma_connects_extend(free: Set<Cell>, a: Cell, b: Cell, c: Cell)
    requires
        connects(free, a, b),
        free.contains(c),
        adjacent(b, c),
    ensures
        connects(free, a, c),
{
    let p = choose|p: Seq<Cell>| #[trigger] walk_between(free, p, a, b);
    let q = p.push(c);
    assert forall|i: int| 0 <= i < q.len() implies free.contains(#[trigger] q[i]) by {
        if i < p.len() {
            assert(q[i] == p[i]);
        }
    }
    assert forall|i: int| 0 <= i < q.len() - 1 implies #[trigger] linked(q, i) by {
        if i < p.len() - 1 {
            assert(linked(p, i));
        }
    }
    assert(walk_between(free, q, a, c));
}

/// Both ends of a walk are free.
pub proof fn lemma_connects_ends_free(free: Set<Cell>, a: Cell, b: Cell)
    requires
        connects(free, a, b),
    ensures
        free.contains(a),
        free.contains(b),
{
    let p = choose|p: Seq<Cell>| #[trigger] walk_between(free, p, a, b);
    assert(free.contains(p[0]));
    assert(free.contains(p[p.len() - 1]));
}

/// Nothing is reachable from a cell that is not free.
pub proof fn lemma_reachable_from_blocked(free: Set<Cell>, start: Cell)
    requires
        !free.contains(start),
    ensures
        reachable(free, start) =~= Set::<Cell>::empty(),
{
    assert forall|c: Cell| !reachable(free, start).contains(c) by {
        if connects(free, start, c) {
            lemma_connects_ends_free(free, start, c);
        }
    }
}

/// The reachable cells are free cells, so there are finitely many of them and
/// no more than there are free cells.
pub proof fn lemma_reachable_bounded(free: Set<Cell>, start: Cell)
    requires
        free.finite(),
    ensures
        reachable(free, start).subset_of(free),
        reachable(free, start).finite(),
        reachable(free, start).len() <= free.len(),
{
    assert forall|c: Cell| reachable(free, start).contains(c) implies free.contains(c) by {
        lemma_connects_ends_free(free, start, c);
    }
    lemma_set_subset_finite(free, reachable(free, start));
    lemma_len_subset(reachable(free, start), free);
}

/// A walk that starts inside a set closed under free neighbours never leaves it.
proof fn lemma_walk_stays_inside(free: Set<Cell>, closed: Set<Cell>, p: Seq<Cell>, i: int)
    requires
        is_walk(free, p),
        closed.contains(p[0]),
        forall|a: Cell, b: Cell|
            closed.contains(a) && free.contains(b) && adjacent(a, b) ==> closed.contains(b),
        0 <= i < p.len(),
    ensures
        closed.contains(p[i]),
    decreases i,
{
    if i > 0 {
        lemma_walk_stays_inside(free, closed, p, i - 1);
        assert(linked(p, i - 1));
        assert(free.contains(p[i]));
    }
}

/// A set that holds `start` and, with each of its cells, every free neighbour
/// of it, holds all that `start` reaches.
pub proof fn lemma_closed_set_holds_reachable(free: Set<Cell>, start: Cell, closed: Set<Cell>)
    requires
        closed.contains(start),
        forall|a: Cell, b: Cell|
            closed.contains(a) && free.contains(b) && adjacent(a, b) ==> closed.contains(b),
    ensures
        reachable(free, start).subset_of(closed),
{
    assert forall|c: Cell| reachable(free, start).contains(c) implies closed.contains(c) by {
        let p = choose|p: Seq<Cell>| #[trigger] walk_between(free, p, start, c);
        lemma_walk_stays_inside(free, closed, p, p.len() - 1);
    }
}

/// A row of `width` cells has `width` elements.
proof fn lemma_row_cells_len(width: int, y: int)
    requires
        0 <= width,
    ensures
        row_cells(width, y).finite(),
        row_cells(width, y).len() == width,
    decreases width,
{
    if width == 0 {
        assert(row_cells(width, y) =~= Set::<Cell>::empty());
    } else {
        lemma_row_cells_len(width - 1, y);
        assert(row_cells(width, y) =~= row_cells(width - 1, y).insert((width - 1, y)));
    }
}

/// A board of `width` by `height` cells has `width * height` cells.
pub proof fn lemma_board_cells_len(width: int, height: int)
    requires
        0 <= width,
        0 <= height,
    ensures
        board_cells(width, height).finite(),
        board_cells(width, height).len() == width * height,
    decreases height,
{
    if height == 0 {
        assert(board_cells(width, height) =~= Set::<Cell>::empty());
        assert(width * height == 0);
    } else {
        lemma_board_cells_len(width, height - 1);
        lemma_row_cells_len(width, height - 1);
        let below = board_cells(width, height - 1);
        let top = row_cells(width, height - 1);
        assert(board_cells(width, height) =~= below + top);
        assert(below.disjoint(top));
        lemma_set_disjoint_lens(below, top);
        assert(width * height == width * (height - 1) + width) by (nonlinear_arith);
    }
}

/// On a board without blocked cells every cell reaches every other.
pub proof fn lemma_open_board_connected(width: int, height: int, a: Cell, b: Cell)
    requires
        board_cells(width, height).contains(a),
        board_cells(width, height).contains(b),
    ensures
        connects(board_cells(width, height), a, b),
    decreases manhattan(a, b),
{
    let free = board_cells(width, height);
    if a == b {
        lemma_connects_self(free, a);
    } else {
        let before: Cell = if b.0 > a.0 {
            (b.0 - 1, b.1)
        } else if b.0 < a.0 {
            (b.0 + 1, b.1)
        } else if b.1 > a.1 {
            (b.0, b.1 - 1)
        } else {
            (b.0, b.1 + 1)
        };
        lemma_open_board_connected(width, height, a, before);
        lemma_connects_extend(free, a, before, b);
    }
}

/// On a board without blocked cells, the cells reachable from any cell of the
/// board are all `width * height` of them.
pub proof fn lemma_open_board_reaches_all(width: int, height: int, start: Cell)
    requires
        board_cells(width, height).contains(start),
    ensures
        reachable(board_cells(width, height), start) == board_cells(width, height),
        reachable(board_cells(width, height), start).len() == width * height,
{
    let free = board_cells(width, height);
    lemma_board_cells_len(width, height);
    lemma_reachable_bounded(free, start);
    assert forall|c: Cell| free.contains(c) implies reachable(free, start).contains(c) by {
        lemma_open_board_connected(width, height, start, c);
    }
    assert(reachable(free, start) =~= free);
}

} // verus!
