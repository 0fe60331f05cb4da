use vstd::prelude::*;

use crate::Player;

verus! {

/// A cell position `(x, y)`; coordinates are small signed integers.
pub type Pos = (i8, i8);

/// The state of one cell of the board.
#[derive(Clone, Copy, PartialEq, Eq, Structural, Debug)]
pub enum Cell {
    Full(Player),
    Empty,
    Blocked,
}

/// A unit or diagonal step `(dx, dy)`, with both components in `{-1, 0, 1}`
/// and not both zero.
#[derive(Clone, Copy, PartialEq, Eq, Structural, Debug)]
pub struct Direction {
    x: i8,
    y: i8,
}

/// The step `s` taken `i` times from coordinate `c`, for `s` in `{-1, 0, 1}`.
pub open spec fn step(c: int, s: int, i: int) -> int {
    if s == 1 {
        c + i
    } else if s == -1 {
        c - i
    } else {
        c
    }
}

/// The four orthogonal steps, in order: up, left, down, right.
pub open spec fn cardinal_step(j: int) -> (int, int) {
    if j == 0 {
        (0, 1)
    } else if j == 1 {
        (-1, 0)
    } else if j == 2 {
        (0, -1)
    } else {
        (1, 0)
    }
}

/// One step for each of the four lines through a cell, in order:
/// vertical, horizontal, rising diagonal, falling diagonal.
pub open spec fn axis_step(j: int) -> (int, int) {
    if j == 0 {
        (0, 1)
    } else if j == 1 {
        (1, 0)
    } else if j == 2 {
        (1, 1)
    } else {
        (1, -1)
    }
}

/// A step with components in `{-1, 0, 1}`, not both zero.
pub open spec fn is_unit_step(d: (int, int)) -> bool {
    &&& -1 <= d.0 <= 1
    &&& -1 <= d.1 <= 1
    &&& !(d.0 == 0 && d.1 == 0)
}

impl View for Direction {
    type V = (int, int);

    closed spec fn view(&self) -> (int, int) {
        (self.x as int, self.y as int)
    }
}

impl Direction {
    /// The four orthogonal directions: up, left, down, right.
    pub fn cardinal() -> (r: [Direction; 4])
        ensures
            forall|j: int| 0 <= j < 4 ==> #[trigger] r@[j]@ == cardinal_step(j),
    {
        [
            Direction { x: 0, y: 1 },
            Direction { x: -1, y: 0 },
            Direction { x: 0, y: -1 },
            Direction { x: 1, y: 0 },
        ]
    }

    /// One direction per line through a cell: up, right, up-right, down-right.
    pub fn axis() -> (r: [Direction; 4])
        ensures
            forall|j: int| 0 <= j < 4 ==> #[trigger] r@[j]@ == axis_step(j),
    {
        [
            Direction { x: 0, y: 1 },
            Direction { x: 1, y: 0 },
            Direction { x: 1, y: 1 },
            Direction { x: 1, y: -1 },
        ]
    }

    /// The opposite direction.
    pub fn flip(self) -> (r: Direction)
        requires
            is_unit_step(self@),
        ensures
            r@ == (-self@.0, -self@.1),
    {
        Direction { x: -self.x, y: -self.y }
    }

    /// The position one step from `pos` in this direction. No bounds check.
    pub fn from(self, pos: Pos) -> (r: Pos)
        requires
            is_unit_step(self@),
            -128 <= pos.0 + self@.0 <= 127,
            -128 <= pos.1 + self@.1 <= 127,
        ensures
            r.0 == pos.0 + self@.0,
            r.1 == pos.1 + self@.1,
    {
        (pos.0 + self.x, pos.1 + self.y)
    }
}

/// The whole board: a square grid of `size * size` cells, stored row by row.
pub struct Board {
    pub size: usize,
    cells: Vec<Cell>,
}

/// For `0 <= x, x2 < s`, the index `x + s * y` determines `x` and `y`,
/// and stays below `s * s` when `0 <= y < s`.
proof fn lemma_index(s: int, x: int, y: int, x2: int, y2: int)
    requires
        0 <= x < s,
        0 <= y < s,
        0 <= x2 < s,
        0 <= y2 < s,
    ensures
        0 <= x + s * y < s * s,
        x + s * y == x2 + s * y2 ==> x == x2 && y == y2,
{
    assert(0 <= x + s * y < s * s) by (nonlinear_arith)
        requires
            0 <= x < s,
            0 <= y < s,
    ;
    if x + s * y == x2 + s * y2 {
        assert(y == y2) by (nonlinear_arith)
            requires
                0 <= x < s,
                0 <= x2 < s,
                x + s * y == x2 + s * y2,
        ;
    }
}

impl Board {
    /// The cells, row by row.
    pub closed spec fn cells_view(&self) -> Seq<Cell> {
        self.cells@
    }

    /// The length of a side.
    pub closed spec fn side(&self) -> int {
        self.size as int
    }

    /// The size fits the coordinates of a `Pos`, and there is one cell per coordinate.
    pub open spec fn wf(&self) -> bool {
        &&& self.side() <= 127
        &&& self.cells_view().len() == self.side() * self.side()
    }

    /// Both coordinates lie in `[0, size)`.
    pub open spec fn valid(&self, x: int, y: int) -> bool {
        0 <= x < self.side() && 0 <= y < self.side()
    }

    /// The cell at `(x, y)`.
    pub open spec fn cell(&self, x: int, y: int) -> Cell {
        self.cells_view()[x + self.side() * y]
    }

    /// `other` is this board with the cell at `(x, y)` set to `c`.
    pub open spec fn updated(&self, other: &Board, x: int, y: int, c: Cell) -> bool {
        &&& other.side() == self.side()
        &&& other.wf()
        &&& forall|a: int, b: int|
            other.valid(a, b) ==> #[trigger] other.cell(a, b) == if a == x && b == y {
                c
            } else {
                self.cell(a, b)
            }
    }

    /// Some cell of the board is empty.
    pub open spec fn has_empty(&self) -> bool {
        exists|x: int, y: int| self.valid(x, y) && #[trigger] self.cell(x, y) == Cell::Empty
    }

    /// A board of `size * size` empty cells.
    pub fn new(size: usize) -> (r: Board)
        requires
            size <= 127,
        ensures
            r.wf(),
            r.side() == size,
            forall|x: int, y: int| r.valid(x, y) ==> #[trigger] r.cell(x, y) == Cell::Empty,
    {
        assert(size * size <= 127 * 127) by (nonlinear_arith)
            requires
                size <= 127,
        ;
        let n: usize = size * size;
        let mut cells: Vec<Cell> = Vec::new();
        let mut i: usize = 0;
        while i < n
            invariant
                i <= n,
                cells@.len() == i,
                forall|k: int| 0 <= k < i ==> cells@[k] == Cell::Empty,
            decreases n - i,
        {
            cells.push(Cell::Empty);
            i = i + 1;
        }
        let r = Board { size, cells };
        assert forall|x: int, y: int| r.valid(x, y) implies #[trigger] r.cell(x, y) == Cell::Empty by {
            lemma_index(size as int, x, y, x, y);
        }
        r
    }

    /// Whether `pos` stepped by `dir` is still on the board.
    pub fn can_go(&self, pos: Pos, dir: Direction) -> (r: bool)
        requires
            is_unit_step(dir@),
        ensures
            r == self.valid(pos.0 + dir@.0, pos.1 + dir@.1),
    {
        let x: i16 = pos.0 as i16 + dir.x as i16;
        let y: i16 = pos.1 as i16 + dir.y as i16;
        x >= 0 && (x as usize) < self.size && y >= 0 && (y as usize) < self.size
    }

    /// Whether both coordinates of `pos` lie in `[0, size)`.
    pub fn is_valid(&self, pos: Pos) -> (r: bool)
        ensures
            r == self.valid(pos.0 as int, pos.1 as int),
    {
        pos.0 >= 0 && (pos.0 as usize) < self.size && pos.1 >= 0 && (pos.1 as usize) < self.size
    }

    /// Whether the cell at `pos` is empty.
    pub fn is_empty(&self, pos: Pos) -> (r: bool)
        requires
            self.wf(),
            self.valid(pos.0 as int, pos.1 as int),
        ensures
            r == (self.cell(pos.0 as int, pos.1 as int) == Cell::Empty),
    {
        self.get(pos) == Cell::Empty
    }

    /// The cell at `pos`.
    pub fn get(&self, pos: Pos) -> (r: Cell)
        requires
            self.wf(),
            self.valid(pos.0 as int, pos.1 as int),
        ensures
            r == self.cell(pos.0 as int, pos.1 as int),
    {
        let cell_id = self.cell_id(pos);
        self.cells[cell_id]
    }

    /// Blocks the cell at `pos`, whatever it held.
    pub fn block(&mut self, pos: Pos)
        requires
            old(self).wf(),
            old(self).valid(pos.0 as int, pos.1 as int),
        ensures
            old(self).updated(final(self), pos.0 as int, pos.1 as int, Cell::Blocked),
    {
        self.set_cell(pos, Cell::Blocked)
    }

    /// Puts a disk of `player` on the cell at `pos`, whatever it held.
    pub fn play(&mut self, pos: Pos, player: Player)
        requires
            old(self).wf(),
            old(self).valid(pos.0 as int, pos.1 as int),
        ensures
            old(self).updated(final(self), pos.0 as int, pos.1 as int, Cell::Full(player)),
    {
        self.set_cell(pos, Cell::Full(player))
    }

    /// Whether some cell of the board is empty.
    pub fn has_empty_cell(&self) -> (r: bool)
        requires
            self.wf(),
        ensures
            r == self.has_empty(),
    {
        let n: i8 = self.size as i8;
        let mut y: i8 = 0;
        while y < n
            invariant
                self.wf(),
                n == self.side(),
                0 <= y <= n,
                forall|a: int, b: int|
                    0 <= a < n && 0 <= b < y ==> #[trigger] self.cell(a, b) != Cell::Empty,
            decreases n - y,
        {
            let mut x: i8 = 0;
            while x < n
                invariant
                    self.wf(),
                    n == self.side(),
                    0 <= y < n,
                    0 <= x <= n,
                    forall|a: int, b: int|
                        0 <= a < n && 0 <= b < y ==> #[trigger] self.cell(a, b) != Cell::Empty,
                    forall|a: int| 0 <= a < x ==> #[trigger] self.cell(a, y as int) != Cell::Empty,
                decreases n - x,
            {
                if self.is_empty((x, y)) {
                    return true;
                }
                x = x + 1;
            }
            y = y + 1;
        }
        false
    }

    fn set_cell(&mut self, pos: Pos, cell: Cell)
        requires
            old(self).wf(),
            old(self).valid(pos.0 as int, pos.1 as int),
        ensures
            old(self).updated(final(self), pos.0 as int, pos.1 as int, cell),
    {
        let cell_id = self.cell_id(pos);
        self.cells.set(cell_id, cell);
        assert forall|a: int, b: int| self.valid(a, b) implies #[trigger] self.cell(a, b) == if a
            == pos.0 && b == pos.1 {
            cell
        } else {
            old(self).cell(a, b)
        } by {
            lemma_index(self.size as int, a, b, pos.0 as int, pos.1 as int);
        }
    }

    fn cell_id(&self, pos: Pos) -> (r: usize)
        requires
            self.wf(),
            self.valid(pos.0 as int, pos.1 as int),
        ensures
            r == pos.0 + self.size * pos.1,
            r < self.cells_view().len(),
    {
        proof {
            lemma_index(self.size as int, pos.0 as int, pos.1 as int, pos.0 as int, pos.1 as int);
        }
        let x: usize = pos.0 as usize;
        let y: usize = pos.1 as usize;
        proof {
            assert(0 <= self.size * y <= 127 * 127) by (nonlinear_arith)
                requires
                    y < self.size,
                    self.size <= 127,
            ;
        }
        x + self.size * y
    }
}

} // verus!
