//! Mirror symmetry of the duel strategy.
//!
//! On a board that a reflection maps onto itself, with the two snakes being
//! each other's mirror images, exchanging the roles of the two snakes mirrors
//! the payoff matrix, and with it the chosen move.

use crate::board::{Board, GameState, Snake};
use crate::decider::{decision, no_safe_move};
use crate::duel::{
    duel_choice, duel_values, duel_weight, food_edge, food_edge_sum, matrix_total, payoff,
    row_total,
};
use crate::geometry::{manhattan, step, Cell, Coord, Direction};
use crate::moves::first_best;
use vstd::prelude::*;

verus! {

/// A reflection of the board: across its vertical axis (`flip_x`), across its
/// horizontal axis (`flip_y`), or through its center (both).
pub struct Mirror {
    pub flip_x: bool,
    pub flip_y: bool,
}

impl Mirror {
    /// The mirror image of a cell on a board of the given size.
    pub open spec fn cell(self, width: int, height: int, c: Cell) -> Cell {
        (
            if self.flip_x { width - 1 - c.0 } else { c.0 },
            if self.flip_y { height - 1 - c.1 } else { c.1 },
        )
    }

    /// The mirror image of a direction.
    pub open spec fn direction(self, d: Direction) -> Direction {
        match d {
            Direction::Up => if self.flip_y { Direction::Down } else { Direction::Up },
            Direction::Down => if self.flip_y { Direction::Up } else { Direction::Down },
            Direction::Left => if self.flip_x { Direction::Right } else { Direction::Left },
            Direction::Right => if self.flip_x { Direction::Left } else { Direction::Right },
        }
    }
}

/// The cells of a list of positions.
pub open spec fn cells_of(positions: Seq<Coord>) -> Seq<Cell> {
    positions.map_values(|p: Coord| p@)
}

/// The mirror images of a list of cells.
pub open spec fn mirrored_cells(mirror: Mirror, width: int, height: int, cells: Seq<Cell>) -> Seq<
    Cell,
> {
    cells.map_values(|c: Cell| mirror.cell(width, height, c))
}

/// The body of `b` is the mirror image of the body of `a`, segment by segment.
pub open spec fn mirrored_bodies(mirror: Mirror, board: Board, a: Snake, b: Snake) -> bool {
    &&& a.body@.len() == b.body@.len()
    &&& forall|k: int|
        0 <= k < a.body@.len() ==> (#[trigger] b.body@[k])@ == mirror.cell(
            board.width as int,
            board.height as int,
            a.body@[k]@,
        )
}

/// The food of the board is its own mirror image: every cell holds as much
/// food as its mirror image does.
pub open spec fn mirrored_food(mirror: Mirror, board: Board) -> bool {
    cells_of(board.food@).to_multiset() == mirrored_cells(
        mirror,
        board.width as int,
        board.height as int,
        cells_of(board.food@),
    ).to_multiset()
}

/// The board is symmetric for the two snakes: they are mirror images of each
/// other, of equal length and equal health, and the food is mirrored.
pub open spec fn symmetric(mirror: Mirror, board: Board, a: Snake, b: Snake) -> bool {
    &&& a.body@.len() >= 1
    &&& mirrored_bodies(mirror, board, a, b)
    &&& a.health == b.health
    &&& mirrored_food(mirror, board)
}

/// Sum of `term` over a list of cells.
spec fn cell_sum(cells: Seq<Cell>, term: spec_fn(Cell) -> int) -> int
    decreases cells.len(),
{
    if cells.len() == 0 {
        0
    } else {
        cell_sum(cells.drop_last(), term) + term(cells.last())
    }
}

/// Taking one cell out of a list lowers the sum by the term of that cell.
proof fn lemma_cell_sum_remove(cells: Seq<Cell>, term: spec_fn(Cell) -> int, i: int)
    requires
        0 <= i < cells.len(),
    ensures
        cell_sum(cells, term) == cell_sum(cells.remove(i), term) + term(cells[i]),
    decreases cells.len(),
{
    if i == cells.len() - 1 {
        assert(cells.remove(i) =~= cells.drop_last());
    } else {
        lemma_cell_sum_remove(cells.drop_last(), term, i);
        assert(cells.remove(i).drop_last() =~= cells.drop_last().remove(i));
        assert(cells.remove(i).last() == cells.last());
    }
}

/// The sum does not depend on the order of the cells.
proof fn lemma_cell_sum_permutation(a: Seq<Cell>, b: Seq<Cell>, term: spec_fn(Cell) -> int)
    requires
        a.to_multiset() == b.to_multiset(),
    ensures
        cell_sum(a, term) == cell_sum(b, term),
    decreases a.len(),
{
    a.to_multiset_ensures();
    b.to_multiset_ensures();
    if a.len() == 0 {
        assert(b.len() == 0);
    } else {
        let x = a.last();
        assert(a.contains(x));
        assert(b.to_multiset().count(x) > 0);
        assert(b.contains(x));
        let j = choose|j: int| 0 <= j < b.len() && b[j] == x;
        assert(a.drop_last() =~= a.remove(a.len() - 1));
        assert(a.drop_last().to_multiset() =~= b.remove(j).to_multiset());
        lemma_cell_sum_permutation(a.drop_last(), b.remove(j), term);
        lemma_cell_sum_remove(b, term, j);
    }
}

/// The sum over mapped cells is the sum of the term taken after the mapping.
proof fn lemma_cell_sum_mapped(
    cells: Seq<Cell>,
    map: spec_fn(Cell) -> Cell,
    term: spec_fn(Cell) -> int,
    mapped_term: spec_fn(Cell) -> int,
)
    requires
        forall|c: Cell| #[trigger] mapped_term(c) == term(map(c)),
    ensures
        cell_sum(cells.map_values(map), term) == cell_sum(cells, mapped_term),
    decreases cells.len(),
{
    if cells.len() > 0 {
        lemma_cell_sum_mapped(cells.drop_last(), map, term, mapped_term);
        assert(cells.map_values(map).drop_last() =~= cells.drop_last().map_values(map));
        assert(cells.map_values(map).last() == map(cells.last()));
    }
}

/// The food sum of a payoff is the sum of the food terms over the food cells.
proof fn lemma_food_edge_sum_is_cell_sum(mine: Cell, theirs: Cell, food: Seq<Coord>, n: int)
    requires
        0 <= n <= food.len(),
    ensures
        food_edge_sum(mine, theirs, food, n) == cell_sum(
            cells_of(food).take(n),
            |f: Cell| food_edge(mine, theirs, f),
        ),
    decreases n,
{
    let term = |f: Cell| food_edge(mine, theirs, f);
    if n > 0 {
        lemma_food_edge_sum_is_cell_sum(mine, theirs, food, n - 1);
        assert(cells_of(food).take(n).drop_last() =~= cells_of(food).take(n - 1));
        assert(cells_of(food).take(n).last() == food[n - 1]@);
    }
}

/// A reflection keeps Manhattan distances.
proof fn lemma_mirror_keeps_distance(mirror: Mirror, width: int, height: int, a: Cell, b: Cell)
    ensures
        manhattan(mirror.cell(width, height, a), mirror.cell(width, height, b)) == manhattan(a, b),
        mirror.cell(width, height, mirror.cell(width, height, a)) == a,
{
}

/// On a board with mirrored food the food sum of two cells equals that of
/// their mirror images.
proof fn lemma_mirror_food_sum(mirror: Mirror, board: Board, mine: Cell, theirs: Cell)
    requires
        mirrored_food(mirror, board),
    ensures
        food_edge_sum(
            mirror.cell(board.width as int, board.height as int, mine),
            mirror.cell(board.width as int, board.height as int, theirs),
            board.food@,
            board.food@.len() as int,
        ) == food_edge_sum(mine, theirs, board.food@, board.food@.len() as int),
{
    let w = board.width as int;
    let h = board.height as int;
    let cells = cells_of(board.food@);
    let n = board.food@.len() as int;
    let reflect = |c: Cell| mirror.cell(w, h, c);
    let plain = |f: Cell| food_edge(mine, theirs, f);
    let seen_mirrored = |f: Cell| food_edge(mirror.cell(w, h, mine), mirror.cell(w, h, theirs), f);
    assert(cells.take(n) =~= cells);
    lemma_food_edge_sum_is_cell_sum(mine, theirs, board.food@, n);
    lemma_food_edge_sum_is_cell_sum(
        mirror.cell(w, h, mine),
        mirror.cell(w, h, theirs),
        board.food@,
        n,
    );
    assert forall|c: Cell| #[trigger] plain(c) == seen_mirrored(reflect(c)) by {
        lemma_mirror_keeps_distance(mirror, w, h, mine, c);
        lemma_mirror_keeps_distance(mirror, w, h, theirs, c);
    }
    lemma_cell_sum_mapped(cells, reflect, seen_mirrored, plain);
    assert(cells.map_values(reflect) == mirrored_cells(mirror, w, h, cells));
    lemma_cell_sum_permutation(cells, cells.map_values(reflect), seen_mirrored);
}

/// A snake covers a cell exactly when its mirror image covers the mirror
/// image of the cell.
proof fn lemma_mirror_covers(mirror: Mirror, board: Board, a: Snake, b: Snake, c: Cell)
    requires
        mirrored_bodies(mirror, board, a, b),
    ensures
        b.covers(mirror.cell(board.width as int, board.height as int, c)) == a.covers(c),
{
    let w = board.width as int;
    let h = board.height as int;
    if a.covers(c) {
        let j = choose|j: int| 0 <= j < a.body@.len() - 1 && (#[trigger] a.body@[j])@ == c;
        assert(b.body@[j]@ == mirror.cell(w, h, c));
    }
    if b.covers(mirror.cell(w, h, c)) {
        let j = choose|j: int|
            0 <= j < b.body@.len() - 1 && (#[trigger] b.body@[j])@ == mirror.cell(w, h, c);
        lemma_mirror_keeps_distance(mirror, w, h, a.body@[j]@, c);
        assert(b.body@[j]@ == mirror.cell(w, h, a.body@[j]@));
        assert(a.body@[j]@ == c);
    }
}

/// Being mirror images is mutual: a reflection undoes itself.
proof fn lemma_mirrored_bodies_swap(mirror: Mirror, board: Board, a: Snake, b: Snake)
    requires
        mirrored_bodies(mirror, board, a, b),
    ensures
        mirrored_bodies(mirror, board, b, a),
{
    let w = board.width as int;
    let h = board.height as int;
    assert forall|k: int| 0 <= k < b.body@.len() implies (#[trigger] a.body@[k])@ == mirror.cell(
        w,
        h,
        b.body@[k]@,
    ) by {
        lemma_mirror_keeps_distance(mirror, w, h, a.body@[k]@, a.body@[k]@);
    }
}

/// On a symmetric board, exchanging the roles of the two snakes mirrors the
/// payoff matrix: the payoff of a pair of moves after the exchange is the
/// payoff of the mirrored pair of moves before it.
pub proof fn lemma_mirror_payoff(
    mirror: Mirror,
    board: Board,
    a: Snake,
    b: Snake,
    mine: Direction,
    theirs: Direction,
)
    requires
        symmetric(mirror, board, a, b),
    ensures
        payoff(b, a, board, mine, theirs) == payoff(
            a,
            b,
            board,
            mirror.direction(mine),
            mirror.direction(theirs),
        ),
{
    let w = board.width as int;
    let h = board.height as int;
    let own = step(a.head(), mirror.direction(mine));
    let other = step(b.head(), mirror.direction(theirs));
    let own_swapped = step(b.head(), mine);
    let other_swapped = step(a.head(), theirs);
    assert(b.body@[0]@ == mirror.cell(w, h, a.body@[0]@));
    assert(own_swapped == mirror.cell(w, h, own));
    assert(other_swapped == mirror.cell(w, h, other));
    lemma_mirror_keeps_distance(mirror, w, h, own, other);
    assert(board.in_bounds(own_swapped) == board.in_bounds(own));
    assert(board.in_bounds(other_swapped) == board.in_bounds(other));
    lemma_mirror_covers(mirror, board, a, b, own);
    lemma_mirror_covers(mirror, board, a, b, other);
    lemma_mirrored_bodies_swap(mirror, board, a, b);
    lemma_mirror_covers(mirror, board, b, a, own);
    lemma_mirror_covers(mirror, board, b, a, other);
    lemma_mirror_food_sum(mirror, board, own, other);
}

/// On a symmetric board the expected payoff of a move after the exchange of
/// roles is that of the mirrored move before it, and the sum of the four
/// expected payoffs stays the same.
pub proof fn lemma_mirror_rows(mirror: Mirror, board: Board, a: Snake, b: Snake, mine: Direction)
    requires
        symmetric(mirror, board, a, b),
    ensures
        row_total(b, a, board, mine) == row_total(a, b, board, mirror.direction(mine)),
        matrix_total(b, a, board) == matrix_total(a, b, board),
        duel_weight(b, a, board, mine) == duel_weight(a, b, board, mirror.direction(mine)),
{
    assert forall|m: Direction| row_total(b, a, board, m) == row_total(
        a,
        b,
        board,
        mirror.direction(m),
    ) by {
        lemma_mirror_payoff(mirror, board, a, b, m, Direction::Up);
        lemma_mirror_payoff(mirror, board, a, b, m, Direction::Down);
        lemma_mirror_payoff(mirror, board, a, b, m, Direction::Left);
        lemma_mirror_payoff(mirror, board, a, b, m, Direction::Right);
    }
    assert(row_total(b, a, board, Direction::Up) == row_total(a, b, board, mirror.direction(Direction::Up)));
    assert(row_total(b, a, board, Direction::Down) == row_total(a, b, board, mirror.direction(Direction::Down)));
    assert(row_total(b, a, board, Direction::Left) == row_total(a, b, board, mirror.direction(Direction::Left)));
    assert(row_total(b, a, board, Direction::Right) == row_total(a, b, board, mirror.direction(Direction::Right)));
}

/// Choosing among mirrored values yields the mirror image of the choice among
/// the values themselves, exactly when that choice does not tie with its own
/// mirror image: of two mirrored directions of equal value the fixed order
/// of directions keeps the same one on both sides.
pub proof fn lemma_first_best_mirrored(
    mirror: Mirror,
    value: spec_fn(Direction) -> Option<int>,
    mirrored: spec_fn(Direction) -> Option<int>,
)
    requires
        forall|d: Direction| #[trigger] mirrored(d) == value(mirror.direction(d)),
    ensures
        (first_best(mirrored) == mirror.direction(first_best(value))) <==> (mirror.direction(
            first_best(value),
        ) == first_best(value) || value(mirror.direction(first_best(value))) != value(
            first_best(value),
        )),
{
    assert(mirrored(Direction::Up) == value(mirror.direction(Direction::Up)));
    assert(mirrored(Direction::Down) == value(mirror.direction(Direction::Down)));
    assert(mirrored(Direction::Left) == value(mirror.direction(Direction::Left)));
    assert(mirrored(Direction::Right) == value(mirror.direction(Direction::Right)));
}

/// On a symmetric board, exchanging the roles of the two snakes yields the
/// mirrored move, exactly when the chosen move does not tie with its own
/// mirror image. In particular, when no weight is positive the answer is up
/// on both sides, whatever the mirror.
pub proof fn lemma_mirror_choice(mirror: Mirror, board: Board, a: Snake, b: Snake)
    requires
        symmetric(mirror, board, a, b),
    ensures
        (duel_choice(b, a, board) == mirror.direction(duel_choice(a, b, board))) <==> (
        mirror.direction(duel_choice(a, b, board)) == duel_choice(a, b, board) || duel_weight(
            a,
            b,
            board,
            mirror.direction(duel_choice(a, b, board)),
        ).0 != duel_weight(a, b, board, duel_choice(a, b, board)).0),
{
    let value = duel_values(a, b, board);
    let mirrored = duel_values(b, a, board);
    assert forall|d: Direction| #[trigger] mirrored(d) == value(mirror.direction(d)) by {
        lemma_mirror_rows(mirror, board, a, b, d);
    }
    lemma_first_best_mirrored(mirror, value, mirrored);
}

/// Two snakes that are the only ones on the board and mirror images of each
/// other block a cell exactly when they block its mirror image.
proof fn lemma_mirror_safe_cell(mirror: Mirror, board: Board, a: Snake, b: Snake, c: Cell)
    requires
        board.snakes@.len() == 2,
        (board.snakes@[0] == a && board.snakes@[1] == b) || (board.snakes@[0] == b
            && board.snakes@[1] == a),
        mirrored_bodies(mirror, board, a, b),
    ensures
        board.safe(mirror.cell(board.width as int, board.height as int, c)) == board.safe(c),
{
    let image = mirror.cell(board.width as int, board.height as int, c);
    lemma_mirrored_bodies_swap(mirror, board, a, b);
    lemma_mirror_covers(mirror, board, a, b, c);
    lemma_mirror_covers(mirror, board, b, a, c);
    assert(board.collides(c) <==> a.covers(c) || b.covers(c)) by {
        if board.collides(c) {
            let i = choose|i: int| 0 <= i < board.snakes@.len() && (#[trigger] board.snakes@[i]).covers(c);
        }
        if a.covers(c) || b.covers(c) {
            assert(board.snakes@[0].covers(c) || board.snakes@[1].covers(c));
        }
    }
    assert(board.collides(image) <==> a.covers(image) || b.covers(image)) by {
        if board.collides(image) {
            let i = choose|i: int|
                0 <= i < board.snakes@.len() && (#[trigger] board.snakes@[i]).covers(image);
        }
        if a.covers(image) || b.covers(image) {
            assert(board.snakes@[0].covers(image) || board.snakes@[1].covers(image));
        }
    }
}

/// On a symmetric board with the two snakes alone on it, one of them has a
/// safe move exactly when the other has.
pub proof fn lemma_mirror_safety(mirror: Mirror, first: GameState, second: GameState)
    requires
        first.board == second.board,
        first.board.snakes@.len() == 2,
        (first.board.snakes@[0] == first.you && first.board.snakes@[1] == second.you) || (
        first.board.snakes@[0] == second.you && first.board.snakes@[1] == first.you),
        symmetric(mirror, first.board, first.you, second.you),
    ensures
        no_safe_move(second) == no_safe_move(first),
{
    let board = first.board;
    let w = board.width as int;
    let h = board.height as int;
    let a = first.you;
    let b = second.you;
    assert(b.body@[0]@ == mirror.cell(w, h, a.body@[0]@));
    assert forall|d: Direction|
        board.safe(#[trigger] step(b.head(), d)) == board.safe(
            step(a.head(), mirror.direction(d)),
        ) by {
        let c = step(a.head(), mirror.direction(d));
        assert(step(b.head(), d) == mirror.cell(w, h, c));
        lemma_mirror_safe_cell(mirror, board, a, b, c);
    }
    assert(board.safe(step(b.head(), Direction::Up)) == board.safe(
        step(a.head(), mirror.direction(Direction::Up)),
    ));
    assert(board.safe(step(b.head(), Direction::Down)) == board.safe(
        step(a.head(), mirror.direction(Direction::Down)),
    ));
    assert(board.safe(step(b.head(), Direction::Left)) == board.safe(
        step(a.head(), mirror.direction(Direction::Left)),
    ));
    assert(board.safe(step(b.head(), Direction::Right)) == board.safe(
        step(a.head(), mirror.direction(Direction::Right)),
    ));
}

/// The same for whole snapshots. Take two snapshots of one symmetric board
/// with two snakes, each snapshot played by one of them. The engine answers
/// the second snapshot with the mirror image of its answer to the first,
/// exactly when that answer is its own mirror image or, a safe move being
/// there, does not tie with its mirror image. Without a safe move the answer
/// is up on both sides.
pub proof fn lemma_mirror_decision(mirror: Mirror, first: GameState, second: GameState)
    requires
        first.board == second.board,
        first.board.snakes@.len() == 2,
        first.you.id@ != second.you.id@,
        (first.board.snakes@[0] == first.you && first.board.snakes@[1] == second.you) || (
        first.board.snakes@[0] == second.you && first.board.snakes@[1] == first.you),
        symmetric(mirror, first.board, first.you, second.you),
    ensures
        (decision(second) == mirror.direction(decision(first))) <==> (mirror.direction(
            decision(first),
        ) == decision(first) || (!no_safe_move(first) && duel_weight(
            first.you,
            second.you,
            first.board,
            mirror.direction(decision(first)),
        ).0 != duel_weight(first.you, second.you, first.board, decision(first)).0)),
{
    lemma_mirror_safety(mirror, first, second);
    lemma_mirror_choice(mirror, first.board, first.you, second.you);
}

} // verus!
