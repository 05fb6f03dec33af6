//! The occupancy grid of one turn and the flood fill that measures the space
//! open to a candidate move.

use crate::board::{Board, Snake};
use crate::geometry::{adjacent, Cell, Coord, Point};
use crate::reach::{
    board_cells, connects, lemma_board_cells_len, lemma_closed_set_holds_reachable,
    lemma_connects_extend, lemma_connects_self, lemma_open_board_reaches_all,
    lemma_reachable_bounded, lemma_reachable_from_blocked, reachable,
};
use vstd::prelude::*;
use vstd::set_lib::*;

verus! {

/// `rows` is a matrix of `height` rows, each `width` long.
spec fn rect(rows: Seq<Vec<bool>>, width: int, height: int) -> bool {
    &&& rows.len() == height
    &&& forall|y: int| 0 <= y < height ==> (#[trigger] rows[y])@.len() == width
}

/// The matrix holds `true` at cell `c`; cells outside the matrix hold nothing.
spec fn marked(rows: Seq<Vec<bool>>, c: Cell) -> bool {
    &&& 0 <= c.1 < rows.len()
    &&& 0 <= c.0 < rows[c.1]@.len()
    &&& rows[c.1]@[c.0]
}

/// One of the first `n` positions of `cells` lies on `c`.
spec fn among_first(cells: Seq<Coord>, n: int, c: Cell) -> bool {
    exists|k: int| 0 <= k < n && k < cells.len() && (#[trigger] cells[k])@ == c
}

/// One of the first `n` snakes has a segment other than its last one on `c`.
spec fn first_snakes_cover(snakes: Seq<Snake>, n: int, c: Cell) -> bool {
    exists|i: int| 0 <= i < n && i < snakes.len() && (#[trigger] snakes[i]).covers(c)
}

/// Some entry of the stack is the cell `c`.
spec fn on_stack(stack: Seq<Point>, c: Cell) -> bool {
    exists|i: int| 0 <= i < stack.len() && (#[trigger] stack[i])@ == c
}

/// A matrix of the given size that holds `false` everywhere.
fn blank_matrix(width: usize, height: usize) -> (rows: Vec<Vec<bool>>)
    ensures
        rect(rows@, width as int, height as int),
        forall|c: Cell| !marked(rows@, c),
{
    let mut rows: Vec<Vec<bool>> = Vec::new();
    let mut y: usize = 0;
    while y < height
        invariant
            y <= height,
            rect(rows@, width as int, y as int),
            forall|c: Cell| !marked(rows@, c),
        decreases height - y,
    {
        let mut row: Vec<bool> = Vec::new();
        let mut x: usize = 0;
        while x < width
            invariant
                x <= width,
                row@.len() == x,
                forall|k: int| 0 <= k < x ==> !row@[k],
            decreases width - x,
        {
            row.push(false);
            x += 1;
        }
        let ghost before = rows@;
        rows.push(row);
        proof {
            assert forall|c: Cell| !marked(rows@, c) by {
                if 0 <= c.1 < y {
                    assert(rows@[c.1] == before[c.1]);
                    assert(!marked(before, c));
                }
            }
        }
        y += 1;
    }
    rows
}

/// Sets the entry at `pos` when `pos` lies inside the matrix, and nothing else.
fn mark_cell(rows: &mut Vec<Vec<bool>>, width: usize, height: usize, pos: &Coord)
    requires
        rect(old(rows)@, width as int, height as int),
    ensures
        rect(final(rows)@, width as int, height as int),
        forall|c: Cell|
            marked(final(rows)@, c) <==> marked(old(rows)@, c) || (c == pos@
                && board_cells(width as int, height as int).contains(c)),
{
    if 0 <= pos.x && 0 <= pos.y {
        let x = pos.x as usize;
        let y = pos.y as usize;
        if x < width && y < height {
            rows[y][x] = true;
        }
    }
}

/// The first `k + 1` positions are the first `k` and the one at index `k`.
proof fn lemma_among_first_step(cells: Seq<Coord>, k: int, c: Cell)
    requires
        0 <= k < cells.len(),
    ensures
        among_first(cells, k + 1, c) <==> among_first(cells, k, c) || cells[k]@ == c,
{
    if among_first(cells, k + 1, c) {
        let m = choose|m: int| 0 <= m < k + 1 && m < cells.len() && (#[trigger] cells[m])@ == c;
        if m < k {
            assert(among_first(cells, k, c));
        }
    }
    if among_first(cells, k, c) {
        let m = choose|m: int| 0 <= m < k && m < cells.len() && (#[trigger] cells[m])@ == c;
        assert(among_first(cells, k + 1, c));
    }
    if cells[k]@ == c {
        assert(among_first(cells, k + 1, c));
    }
}

/// The first `i + 1` snakes are the first `i` and the one at index `i`, whose
/// covered cells are those of its body without the last segment.
proof fn lemma_first_snakes_step(snakes: Seq<Snake>, i: int, c: Cell)
    requires
        0 <= i < snakes.len(),
    ensures
        first_snakes_cover(snakes, i + 1, c) <==> first_snakes_cover(snakes, i, c) || among_first(
            snakes[i].body@,
            snakes[i].body@.len() - 1,
            c,
        ),
{
    let body = snakes[i].body@;
    if first_snakes_cover(snakes, i + 1, c) {
        let m = choose|m: int| 0 <= m < i + 1 && m < snakes.len() && (#[trigger] snakes[m]).covers(c);
        if m < i {
            assert(first_snakes_cover(snakes, i, c));
        } else {
            let k = choose|k: int| 0 <= k < body.len() - 1 && (#[trigger] body[k])@ == c;
            assert(among_first(body, body.len() - 1, c));
        }
    }
    if first_snakes_cover(snakes, i, c) {
        let m = choose|m: int| 0 <= m < i && m < snakes.len() && (#[trigger] snakes[m]).covers(c);
        assert(first_snakes_cover(snakes, i + 1, c));
    }
    if among_first(body, body.len() - 1, c) {
        let k = choose|k: int| 0 <= k < body.len() - 1 && (#[trigger] body[k])@ == c;
        assert(snakes[i].covers(c));
        assert(first_snakes_cover(snakes, i + 1, c));
    }
}

/// Taken over all snakes and all hazards, the two partial notions are the
/// board's own.
proof fn lemma_all_marked(board: Board, c: Cell)
    ensures
        first_snakes_cover(board.snakes@, board.snakes@.len() as int, c) <==> board.collides(c),
        among_first(board.hazards@, board.hazards@.len() as int, c) <==> board.hazard_at(c),
{
    if board.collides(c) {
        let m = choose|m: int| 0 <= m < board.snakes@.len() && (#[trigger] board.snakes@[m]).covers(c);
        assert(first_snakes_cover(board.snakes@, board.snakes@.len() as int, c));
    }
    if first_snakes_cover(board.snakes@, board.snakes@.len() as int, c) {
        let m = choose|m: int|
            0 <= m < board.snakes@.len() && (#[trigger] board.snakes@[m]).covers(c);
        assert(board.collides(c));
    }
    if board.hazard_at(c) {
        let k = choose|k: int| 0 <= k < board.hazards@.len() && (#[trigger] board.hazards@[k])@ == c;
        assert(among_first(board.hazards@, board.hazards@.len() as int, c));
    }
    if among_first(board.hazards@, board.hazards@.len() as int, c) {
        let k = choose|k: int|
            0 <= k < board.hazards@.len() && (#[trigger] board.hazards@[k])@ == c;
        assert(board.hazard_at(c));
    }
}

/// Sets the entries at the first `n` positions of `cells`.
fn mark_first(rows: &mut Vec<Vec<bool>>, width: usize, height: usize, cells: &Vec<Coord>, n: usize)
    requires
        rect(old(rows)@, width as int, height as int),
        n <= cells@.len(),
    ensures
        rect(final(rows)@, width as int, height as int),
        forall|c: Cell|
            marked(final(rows)@, c) <==> marked(old(rows)@, c) || (among_first(cells@, n as int, c)
                && board_cells(width as int, height as int).contains(c)),
{
    let mut k: usize = 0;
    while k < n
        invariant
            k <= n <= cells@.len(),
            rect(rows@, width as int, height as int),
            forall|c: Cell|
                marked(rows@, c) <==> marked(old(rows)@, c) || (among_first(cells@, k as int, c)
                    && board_cells(width as int, height as int).contains(c)),
        decreases n - k,
    {
        mark_cell(rows, width, height, &cells[k]);
        proof {
            assert forall|c: Cell|
                marked(rows@, c) <==> marked(old(rows)@, c) || (among_first(cells@, k + 1, c)
                    && board_cells(width as int, height as int).contains(c)) by {
                lemma_among_first_step(cells@, k as int, c);
            }
        }
        k += 1;
    }
}

/// The blocked/free grid of one turn. A cell is blocked when a body segment
/// other than a snake's last one lies on it, or a hazard does; cells outside
/// the board read as blocked.
pub struct OccupancyGrid {
    width: usize,
    height: usize,
    rows: Vec<Vec<bool>>,
}

impl OccupancyGrid {
    #[verifier::type_invariant]
    spec fn shaped(&self) -> bool {
        &&& self.width <= i32::MAX
        &&& self.height <= i32::MAX
        &&& rect(self.rows@, self.width as int, self.height as int)
    }

    /// Number of columns.
    pub closed spec fn width(&self) -> int {
        self.width as int
    }

    /// Number of rows.
    pub closed spec fn height(&self) -> int {
        self.height as int
    }

    /// Whether `c` is blocked. Every cell outside the grid is.
    pub closed spec fn is_blocked(&self, c: Cell) -> bool {
        !board_cells(self.width as int, self.height as int).contains(c) || marked(self.rows@, c)
    }

    /// The cells that are not blocked.
    pub open spec fn free_cells(&self) -> Set<Cell> {
        Set::new(|c: Cell| !self.is_blocked(c))
    }

    /// The free cells lie on the grid, so they are finitely many.
    pub proof fn lemma_free_cells_bounded(&self)
        ensures
            0 <= self.width(),
            0 <= self.height(),
            self.free_cells().subset_of(board_cells(self.width(), self.height())),
            self.free_cells().finite(),
            self.free_cells().len() <= self.width() * self.height(),
    {
        let all = board_cells(self.width(), self.height());
        lemma_board_cells_len(self.width(), self.height());
        lemma_set_subset_finite(all, self.free_cells());
        lemma_len_subset(self.free_cells(), all);
    }

    /// Builds the grid of a board. A board without positive dimensions gives a
    /// grid without cells.
    pub fn build(board: &Board) -> (grid: OccupancyGrid)
        ensures
            grid.width() == if board.width > 0 { board.width as int } else { 0 },
            grid.height() == if board.height > 0 { board.height as int } else { 0 },
            grid.free_cells() == board.free_cells(),
    {
        let width: usize = if board.width > 0 { board.width as usize } else { 0 };
        let height: usize = if board.height > 0 { board.height as usize } else { 0 };
        let mut rows = blank_matrix(width, height);
        let mut i: usize = 0;
        while i < board.snakes.len()
            invariant
                i <= board.snakes@.len(),
                rect(rows@, width as int, height as int),
                forall|c: Cell|
                    marked(rows@, c) <==> first_snakes_cover(board.snakes@, i as int, c)
                        && board_cells(width as int, height as int).contains(c),
            decreases board.snakes@.len() - i,
        {
            let body = &board.snakes[i].body;
            let n: usize = if body.len() > 0 { body.len() - 1 } else { 0 };
            mark_first(&mut rows, width, height, body, n);
            proof {
                assert forall|c: Cell|
                    marked(rows@, c) <==> first_snakes_cover(board.snakes@, i + 1, c)
                        && board_cells(width as int, height as int).contains(c) by {
                    lemma_first_snakes_step(board.snakes@, i as int, c);
                }
            }
            i += 1;
        }
        mark_first(&mut rows, width, height, &board.hazards, board.hazards.len());
        let grid = OccupancyGrid { width, height, rows };
        proof {
            assert forall|c: Cell| grid.free_cells().contains(c) <==> board.free_cells().contains(
                c,
            ) by {
                lemma_all_marked(*board, c);
            }
            assert(grid.free_cells() =~= board.free_cells());
        }
        grid
    }
}

/// Whether a move onto `new_pos` lands on a free cell of the grid: on the
/// board, under no body segment but a tail, and under no hazard.
pub fn is_move_safe(new_pos: &Coord, grid: &OccupancyGrid) -> (safe: bool)
    ensures
        safe == grid.free_cells().contains(new_pos@),
{
    proof {
        use_type_invariant(grid);
    }
    if new_pos.x < 0 || new_pos.y < 0 {
        return false;
    }
    let x = new_pos.x as usize;
    let y = new_pos.y as usize;
    if x >= grid.width || y >= grid.height {
        return false;
    }
    !grid.rows[y][x]
}

/// The state of a flood fill from `start` is sound: every cell seen or
/// waiting on the stack is reachable when it is free; and nothing is lost:
/// every free neighbour of a seen cell is seen or waits on the stack, and so
/// does `start`.
spec fn search_state(free: Set<Cell>, start: Cell, seen: Set<Cell>, stack: Seq<Point>) -> bool {
    &&& free.contains(start)
    &&& seen.subset_of(reachable(free, start))
    &&& forall|i: int|
        0 <= i < stack.len() && free.contains((#[trigger] stack[i])@) ==> connects(
            free,
            start,
            stack[i]@,
        )
    &&& forall|a: Cell, b: Cell|
        seen.contains(a) && free.contains(b) && #[trigger] adjacent(a, b) ==> seen.contains(b)
            || on_stack(stack, b)
    &&& seen.contains(start) || on_stack(stack, start)
}

/// A cell that waits on the stack either is its top or still waits below it.
proof fn lemma_on_stack_below(stack: Seq<Point>, c: Cell)
    requires
        on_stack(stack, c),
    ensures
        on_stack(stack.drop_last(), c) || stack.last()@ == c,
{
    let i = choose|i: int| 0 <= i < stack.len() && (#[trigger] stack[i])@ == c;
    if i < stack.len() - 1 {
        assert(stack.drop_last()[i] == stack[i]);
    }
}

/// A cell that waits on the stack still does after a push.
proof fn lemma_on_stack_push(stack: Seq<Point>, p: Point, c: Cell)
    requires
        on_stack(stack, c) || p@ == c,
    ensures
        on_stack(stack.push(p), c),
{
    if on_stack(stack, c) {
        let i = choose|i: int| 0 <= i < stack.len() && (#[trigger] stack[i])@ == c;
        assert(stack.push(p)[i] == stack[i]);
    } else {
        assert(stack.push(p)[stack.len() as int] == p);
    }
}

/// Dropping the top of the stack keeps the search state when the top is
/// blocked or already seen.
proof fn lemma_search_skip(free: Set<Cell>, start: Cell, seen: Set<Cell>, stack: Seq<Point>)
    requires
        search_state(free, start, seen, stack),
        stack.len() > 0,
        !free.contains(stack.last()@) || seen.contains(stack.last()@),
    ensures
        search_state(free, start, seen, stack.drop_last()),
{
    let rest = stack.drop_last();
    assert forall|i: int| 0 <= i < rest.len() && free.contains((#[trigger] rest[i])@) implies connects(
        free,
        start,
        rest[i]@,
    ) by {
        assert(rest[i] == stack[i]);
    }
    assert forall|a: Cell, b: Cell|
        seen.contains(a) && free.contains(b) && #[trigger] adjacent(a, b) implies seen.contains(b)
        || on_stack(rest, b) by {
        if on_stack(stack, b) {
            lemma_on_stack_below(stack, b);
        }
    }
    if on_stack(stack, start) {
        lemma_on_stack_below(stack, start);
    }
}

/// Moving a free, unseen top of the stack to the seen cells keeps the search
/// state when its four neighbours are pushed in its place.
proof fn lemma_search_visit(
    free: Set<Cell>,
    start: Cell,
    seen: Set<Cell>,
    stack: Seq<Point>,
    up: Point,
    right: Point,
    down: Point,
    left: Point,
)
    requires
        search_state(free, start, seen, stack),
        stack.len() > 0,
        free.contains(stack.last()@),
        up@ == (stack.last()@.0, stack.last()@.1 + 1),
        right@ == (stack.last()@.0 + 1, stack.last()@.1),
        down@ == (stack.last()@.0, stack.last()@.1 - 1),
        left@ == (stack.last()@.0 - 1, stack.last()@.1),
    ensures
        search_state(
            free,
            start,
            seen.insert(stack.last()@),
            stack.drop_last().push(up).push(right).push(down).push(left),
        ),
{
    let cur = stack.last()@;
    let rest = stack.drop_last();
    let next = rest.push(up).push(right).push(down).push(left);
    let grown = seen.insert(cur);
    assert forall|c: Cell| on_stack(stack, c) implies on_stack(next, c) || c == cur by {
        lemma_on_stack_below(stack, c);
        if on_stack(rest, c) {
            lemma_on_stack_push(rest, up, c);
            lemma_on_stack_push(rest.push(up), right, c);
            lemma_on_stack_push(rest.push(up).push(right), down, c);
            lemma_on_stack_push(rest.push(up).push(right).push(down), left, c);
        }
    }
    assert forall|i: int| 0 <= i < next.len() && free.contains((#[trigger] next[i])@) implies connects(
        free,
        start,
        next[i]@,
    ) by {
        if i < rest.len() {
            assert(next[i] == stack[i]);
        } else {
            lemma_connects_extend(free, start, cur, next[i]@);
        }
    }
    assert forall|a: Cell, b: Cell|
        grown.contains(a) && free.contains(b) && #[trigger] adjacent(a, b) implies grown.contains(b)
        || on_stack(next, b) by {
        if a == cur {
            let n = rest.len() as int;
            assert(next[n] == up && next[n + 1] == right && next[n + 2] == down && next[n + 3]
                == left);
        }
    }
}

/// When the stack is empty, the seen cells are exactly the reachable ones.
proof fn lemma_search_done(free: Set<Cell>, start: Cell, seen: Set<Cell>, stack: Seq<Point>)
    requires
        search_state(free, start, seen, stack),
        stack.len() == 0,
    ensures
        seen == reachable(free, start),
{
    lemma_closed_set_holds_reachable(free, start, seen);
    assert(seen =~= reachable(free, start));
}

/// Counts the free cells that `start` reaches through free cells, moving
/// between cells that share an edge; `start` itself counts. From a blocked
/// cell, or one outside the grid, the count is 0.
pub fn flood_fill(grid: &OccupancyGrid, start: &Coord) -> (count: u64)
    ensures
        count == reachable(grid.free_cells(), start@).len(),
        !grid.free_cells().contains(start@) ==> count == 0,
{
    let ghost free = grid.free_cells();
    proof {
        use_type_invariant(grid);
        grid.lemma_free_cells_bounded();
        lemma_reachable_bounded(free, start@);
        assert(grid.width() * grid.height() <= 0x7fff_ffff * 0x7fff_ffff) by (nonlinear_arith)
            requires
                0 <= grid.width() <= 0x7fff_ffff,
                0 <= grid.height() <= 0x7fff_ffff,
        ;
    }
    if !is_move_safe(start, grid) {
        proof {
            lemma_reachable_from_blocked(free, start@);
        }
        return 0;
    }
    let mut visited = blank_matrix(grid.width, grid.height);
    let mut stack: Vec<Point> = Vec::new();
    stack.push(Point::from_coord(start));
    let mut count: u64 = 0;
    let ghost mut seen: Set<Cell> = Set::empty();
    proof {
        lemma_connects_self(free, start@);
        lemma_on_stack_push(Seq::empty(), stack@[0], start@);
        assert(stack@ =~= Seq::<Point>::empty().push(stack@[0]));
    }
    while stack.len() > 0
        invariant
            free == grid.free_cells(),
            free.finite(),
            free.len() <= 0x7fff_ffff * 0x7fff_ffff,
            reachable(free, start@).subset_of(free),
            rect(visited@, grid.width as int, grid.height as int),
            forall|c: Cell| marked(visited@, c) <==> seen.contains(c),
            seen.finite(),
            seen.len() == count,
            search_state(free, start@, seen, stack@),
        decreases free.len() - seen.len(), stack@.len(),
    {
        let ghost waiting = stack@;
        let cur = stack.pop().unwrap();
        let pos = Coord { x: cur.x, y: cur.y };
        proof {
            use_type_invariant(grid);
            assert(stack@ =~= waiting.drop_last());
        }
        if is_move_safe(&pos, grid) && !visited[cur.y as usize][cur.x as usize] {
            visited[cur.y as usize][cur.x as usize] = true;
            let up = Point { x: cur.x, y: cur.y + 1 };
            let right = Point { x: cur.x + 1, y: cur.y };
            let down = Point { x: cur.x, y: cur.y - 1 };
            let left = Point { x: cur.x - 1, y: cur.y };
            stack.push(up);
            stack.push(right);
            stack.push(down);
            stack.push(left);
            proof {
                lemma_search_visit(free, start@, seen, waiting, up, right, down, left);
                seen = seen.insert(cur@);
                lemma_len_subset(seen, free);
            }
            count += 1;
        } else {
            proof {
                lemma_search_skip(free, start@, seen, waiting);
            }
        }
    }
    proof {
        lemma_search_done(free, start@, seen, stack@);
    }
    count
}

/// The space reachable from a cell never exceeds the free cells of the board,
/// which are the cells of the board less the blocked ones.
pub proof fn lemma_space_bounded(board: Board, start: Cell)
    requires
        board.width >= 0,
        board.height >= 0,
    ensures
        board.free_cells().subset_of(board_cells(board.width as int, board.height as int)),
        reachable(board.free_cells(), start).subset_of(board.free_cells()),
        reachable(board.free_cells(), start).len() <= board.free_cells().len() <= board.width
            * board.height,
{
    let all = board_cells(board.width as int, board.height as int);
    lemma_board_cells_len(board.width as int, board.height as int);
    lemma_set_subset_finite(all, board.free_cells());
    lemma_len_subset(board.free_cells(), all);
    lemma_reachable_bounded(board.free_cells(), start);
}

/// On a board without bodies and hazards, the space reachable from any cell
/// of the board is the whole board: `width * height` cells.
pub proof fn lemma_open_board_space(board: Board, start: Cell)
    requires
        forall|c: Cell| !board.collides(c) && !board.hazard_at(c),
        board.in_bounds(start),
    ensures
        reachable(board.free_cells(), start).len() == board.width * board.height,
{
    assert(board.free_cells() =~= board_cells(board.width as int, board.height as int));
    lemma_open_board_reaches_all(board.width as int, board.height as int, start);
}

} // verus!
