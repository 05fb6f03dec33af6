//! The per-turn snapshot: agents, food, hazards, and the collision rule.

use crate::geometry::{can_step, Cell, Coord};
use vstd::prelude::*;

verus! {

/// One competing snake. The body is listed head first, tail last.
#[derive(Clone, Debug)]
pub struct Snake {
    pub id: String,
    pub body: Vec<Coord>,
    pub health: i32,
    pub length: usize,
}

/// The board of one turn.
#[derive(Clone, Debug)]
pub struct Board {
    pub height: i32,
    pub width: i32,
    pub food: Vec<Coord>,
    pub hazards: Vec<Coord>,
    pub snakes: Vec<Snake>,
}

/// The full snapshot the engine decides from: the board and the agent it plays.
#[derive(Clone, Debug)]
pub struct GameState {
    pub board: Board,
    pub you: Snake,
}

/// Every position of `cells` lies on a board of the given size.
pub open spec fn all_on_board(cells: Seq<Coord>, width: int, height: int) -> bool {
    forall|k: int|
        0 <= k < cells.len() ==> 0 <= (#[trigger] cells[k]).x < width && 0 <= cells[k].y < height
}

/// No two snakes of `snakes` share an identifier.
pub open spec fn distinct_ids(snakes: Seq<Snake>) -> bool {
    forall|i: int, j: int|
        0 <= i < j < snakes.len() ==> (#[trigger] snakes[i]).id@ != (#[trigger] snakes[j]).id@
}

/// Some snake of `snakes` carries the identifier `id`.
pub open spec fn has_id(snakes: Seq<Snake>, id: Seq<char>) -> bool {
    exists|i: int| 0 <= i < snakes.len() && (#[trigger] snakes[i]).id@ == id
}

impl Snake {
    /// The cell of the head.
    pub open spec fn head(&self) -> Cell {
        self.body@[0]@
    }

    /// A valid snake has a head that can step in every direction, a health
    /// between 0 and 100, and a length that is at least its body's.
    pub open spec fn wf(&self) -> bool {
        &&& self.body@.len() >= 1
        &&& can_step(self.head())
        &&& 0 <= self.health <= 100
        &&& self.length >= self.body@.len()
    }

    /// Some segment of the body other than the last one lies on `c`. The last
    /// segment vacates its cell on the next tick and never counts.
    pub open spec fn covers(&self, c: Cell) -> bool {
        exists|j: int| 0 <= j < self.body@.len() - 1 && (#[trigger] self.body@[j])@ == c
    }

    /// Whether a segment of the body other than the last one lies on `pos`.
    pub fn occupies(&self, pos: &Coord) -> (hit: bool)
        ensures
            hit == self.covers(pos@),
    {
        if self.body.len() == 0 {
            return false;
        }
        let last: usize = self.body.len() - 1;
        let mut j: usize = 0;
        while j < last
            invariant
                last == self.body@.len() - 1,
                j <= last,
                forall|k: int| 0 <= k < j ==> (#[trigger] self.body@[k])@ != pos@,
            decreases last - j,
        {
            if self.body[j].x == pos.x && self.body[j].y == pos.y {
                return true;
            }
            j += 1;
        }
        false
    }

    /// Whether the snake is valid.
    pub fn is_valid(&self) -> (ok: bool)
        ensures
            ok == self.wf(),
    {
        if self.body.len() == 0 {
            return false;
        }
        let head = &self.body[0];
        head.x > i32::MIN && head.x < i32::MAX && head.y > i32::MIN && head.y < i32::MAX
            && 0 <= self.health && self.health <= 100 && self.length >= self.body.len()
    }
}

impl Board {
    /// `c` lies on the board.
    pub open spec fn in_bounds(&self, c: Cell) -> bool {
        0 <= c.0 < self.width && 0 <= c.1 < self.height
    }

    /// Some snake has a segment other than its last one on `c`.
    pub open spec fn collides(&self, c: Cell) -> bool {
        exists|i: int| 0 <= i < self.snakes@.len() && (#[trigger] self.snakes@[i]).covers(c)
    }

    /// A hazard lies on `c`.
    pub open spec fn hazard_at(&self, c: Cell) -> bool {
        exists|k: int| 0 <= k < self.hazards@.len() && (#[trigger] self.hazards@[k])@ == c
    }

    /// Every listed snake has a head.
    pub open spec fn snakes_have_heads(&self) -> bool {
        forall|i: int| 0 <= i < self.snakes@.len() ==> (#[trigger] self.snakes@[i]).body@.len() >= 1
    }

    /// The safety rule for a candidate position: it lies on the board and on
    /// no snake's body, vacating tails excepted.
    pub open spec fn safe(&self, c: Cell) -> bool {
        self.in_bounds(c) && !self.collides(c)
    }

    /// The free cells of the occupancy grid: on the board, under no body
    /// segment but a tail, and under no hazard.
    pub open spec fn free_cells(&self) -> Set<Cell> {
        Set::new(|c: Cell| self.in_bounds(c) && !self.collides(c) && !self.hazard_at(c))
    }

    /// A valid board has positive dimensions, food and hazards on the board,
    /// and valid snakes with distinct identifiers.
    pub open spec fn wf(&self) -> bool {
        &&& self.width > 0
        &&& self.height > 0
        &&& all_on_board(self.food@, self.width as int, self.height as int)
        &&& all_on_board(self.hazards@, self.width as int, self.height as int)
        &&& forall|i: int| 0 <= i < self.snakes@.len() ==> (#[trigger] self.snakes@[i]).wf()
        &&& distinct_ids(self.snakes@)
    }

    /// Whether `pos` lies on the board.
    pub fn contains(&self, pos: &Coord) -> (inside: bool)
        ensures
            inside == self.in_bounds(pos@),
    {
        0 <= pos.x && pos.x < self.width && 0 <= pos.y && pos.y < self.height
    }

    /// Whether every position of `cells` lies on the board.
    fn holds_all(&self, cells: &Vec<Coord>) -> (ok: bool)
        ensures
            ok == all_on_board(cells@, self.width as int, self.height as int),
    {
        let mut k: usize = 0;
        while k < cells.len()
            invariant
                k <= cells@.len(),
                all_on_board(cells@.take(k as int), self.width as int, self.height as int),
            decreases cells@.len() - k,
        {
            if !self.contains(&cells[k]) {
                return false;
            }
            proof {
                let before = cells@.take(k as int);
                let after = cells@.take(k + 1);
                assert forall|i: int| 0 <= i < after.len() implies 0 <= (#[trigger] after[i]).x
                    < self.width && 0 <= after[i].y < self.height by {
                    if i < k {
                        assert(before[i] == after[i]);
                    }
                }
            }
            k += 1;
        }
        assert(cells@.take(k as int) =~= cells@);
        true
    }

    /// Whether the identifier of `snakes[i]` differs from all earlier ones.
    fn id_is_new(&self, i: usize) -> (fresh: bool)
        requires
            i < self.snakes@.len(),
        ensures
            fresh == forall|j: int| 0 <= j < i ==> (#[trigger] self.snakes@[j]).id@ != self.snakes@[i as int].id@,
    {
        let mut j: usize = 0;
        while j < i
            invariant
                j <= i < self.snakes@.len(),
                forall|k: int| 0 <= k < j ==> (#[trigger] self.snakes@[k]).id@ != self.snakes@[i as int].id@,
            decreases i - j,
        {
            if self.snakes[j].id == self.snakes[i].id {
                return false;
            }
            j += 1;
        }
        true
    }

    /// Whether the board is valid.
    pub fn is_valid(&self) -> (ok: bool)
        ensures
            ok == self.wf(),
    {
        if self.width <= 0 || self.height <= 0 {
            return false;
        }
        if !self.holds_all(&self.food) || !self.holds_all(&self.hazards) {
            return false;
        }
        let mut i: usize = 0;
        while i < self.snakes.len()
            invariant
                i <= self.snakes@.len(),
                forall|k: int| 0 <= k < i ==> (#[trigger] self.snakes@[k]).wf(),
                distinct_ids(self.snakes@.take(i as int)),
            decreases self.snakes@.len() - i,
        {
            if !self.snakes[i].is_valid() {
                return false;
            }
            if !self.id_is_new(i) {
                proof {
                    let j = choose|j: int| 0 <= j < i && (#[trigger] self.snakes@[j]).id@ == self.snakes@[i as int].id@;
                    assert(self.snakes@[j].id@ == self.snakes@[i as int].id@);
                }
                return false;
            }
            proof {
                let before = self.snakes@.take(i as int);
                let after = self.snakes@.take(i + 1);
                assert forall|a: int, b: int| 0 <= a < b < after.len() implies (#[trigger] after[a]).id@
                    != (#[trigger] after[b]).id@ by {
                    if b < i {
                        assert(before[a] == after[a] && before[b] == after[b]);
                    }
                }
            }
            i += 1;
        }
        assert(self.snakes@.take(i as int) =~= self.snakes@);
        true
    }
}

impl GameState {
    /// A valid snapshot has a valid board and a valid own agent that is listed
    /// among the board's snakes by its identifier.
    pub open spec fn wf(&self) -> bool {
        &&& self.board.wf()
        &&& self.you.wf()
        &&& has_id(self.board.snakes@, self.you.id@)
    }

    /// Whether the snapshot is valid.
    pub fn is_valid(&self) -> (ok: bool)
        ensures
            ok == self.wf(),
    {
        if !self.board.is_valid() || !self.you.is_valid() {
            return false;
        }
        let mut i: usize = 0;
        while i < self.board.snakes.len()
            invariant
                self.board.wf(),
                self.you.wf(),
                i <= self.board.snakes@.len(),
                forall|k: int| 0 <= k < i ==> (#[trigger] self.board.snakes@[k]).id@ != self.you.id@,
            decreases self.board.snakes@.len() - i,
        {
            if self.board.snakes[i].id == self.you.id {
                assert(self.board.snakes@[i as int].id@ == self.you.id@);
                return true;
            }
            i += 1;
        }
        false
    }
}

/// Whether a move onto `pos` is safe: `pos` lies on the board and on no
/// snake's body, vacating tails excepted.
pub fn is_safe_move(pos: &Coord, board: &Board) -> (ok: bool)
    ensures
        ok == board.safe(pos@),
{
    if !board.contains(pos) {
        return false;
    }
    let mut i: usize = 0;
    while i < board.snakes.len()
        invariant
            i <= board.snakes@.len(),
            forall|k: int| 0 <= k < i ==> !(#[trigger] board.snakes@[k]).covers(pos@),
        decreases board.snakes@.len() - i,
    {
        if board.snakes[i].occupies(pos) {
            return false;
        }
        i += 1;
    }
    true
}

} // verus!
