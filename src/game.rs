use vstd::prelude::*;

use crate::board::{axis_step, cardinal_step, is_unit_step, step, Board, Cell, Direction, Pos};
use crate::error::Error;
use crate::Player;

verus! {

/// The ways a move can break the rules.
#[derive(Debug, PartialEq, Eq, Structural)]
pub enum RuleError {
    /// The player is not the one whose turn it is.
    InvalidTurn,
    /// The target cell is blocked or already holds a disk.
    NonEmptyCell,
    /// The target cell does not rest against the wall.
    FloatingCell,
}

/// What a legal move led to.
#[derive(Debug, PartialEq, Eq, Structural)]
pub enum Outcome {
    /// The player who moved has four in a line.
    Win(Player),
    /// No empty cell is left and nobody has won.
    Draw,
    /// The game goes on.
    Continue,
}

/// A single match: the board and whose turn it is.
pub struct Game {
    board: Board,
    next_player: Player,
    players: usize,
}

/// The starting layout of a board: its size and the cells blocked before play,
/// and the number of players who take turns.
pub struct Configuration {
    size: usize,
    blocked_tiles: Vec<Pos>,
    players: usize,
}

/// Some position in `blocked` is `(x, y)`.
pub open spec fn lists(blocked: Seq<Pos>, x: int, y: int) -> bool {
    exists|i: int| 0 <= i < blocked.len() && #[trigger] blocked[i].0 == x && blocked[i].1 == y
}

/// `i` steps from `(x, y)` along the unit step `d`, then on the board and non-empty
/// for every `i >= 1`: the walk from `(x, y)` along `d` meets no empty cell
/// before it leaves the board.
pub open spec fn rests_along(b: Board, x: int, y: int, d: (int, int)) -> bool {
    forall|i: int|
        i >= 1 && b.valid(step(x, d.0, i), step(y, d.1, i)) ==> #[trigger] b.cell(
            step(x, d.0, i),
            step(y, d.1, i),
        ) != Cell::Empty
}

/// The cell at `(x, y)` rests against the wall in none of the four orthogonal directions.
pub open spec fn floating(b: Board, x: int, y: int) -> bool {
    forall|j: int| 0 <= j < 4 ==> !rests_along(b, x, y, #[trigger] cardinal_step(j))
}

/// The `k` cells after `(x, y)` along `d` are on the board and hold disks of `p`.
pub open spec fn run(b: Board, x: int, y: int, d: (int, int), p: Player, k: int) -> bool {
    forall|i: int|
        1 <= i <= k ==> b.valid(step(x, d.0, i), step(y, d.1, i)) && #[trigger] b.cell(
            step(x, d.0, i),
            step(y, d.1, i),
        ) == Cell::Full(p)
}

/// Besides `(x, y)`, three more disks of `p` lie on the line through `(x, y)` along `d`,
/// contiguous with it: `k` on one side and `3 - k` on the other.
pub open spec fn line_of_four(b: Board, x: int, y: int, d: (int, int), p: Player) -> bool {
    exists|k: int| 0 <= k <= 3 && #[trigger] run(b, x, y, d, p, k) && run(b, x, y, (-d.0, -d.1), p, 3 - k)
}

/// Some line through `(x, y)` holds four contiguous disks of `p` counting the one at `(x, y)`.
pub open spec fn wins(b: Board, x: int, y: int, p: Player) -> bool {
    exists|j: int| 0 <= j < 4 && line_of_four(b, x, y, #[trigger] axis_step(j), p)
}

/// The four cells at offsets `-k ..= 3 - k` from `(x, y)` along `d` are on the
/// board and hold disks of `p`.
pub open spec fn four_contiguous(b: Board, x: int, y: int, d: (int, int), p: Player, k: int) -> bool {
    forall|i: int|
        -k <= i <= 3 - k ==> b.valid(step(x, d.0, i), step(y, d.1, i)) && #[trigger] b.cell(
            step(x, d.0, i),
            step(y, d.1, i),
        ) == Cell::Full(p)
}

/// A disk of `p` at `(x, y)` wins exactly when it is one of four contiguous
/// disks of `p` along a row, a column or a diagonal. So three in a row do not
/// win, nor does a line broken by an empty cell or another player's disk.
pub proof fn lemma_wins_iff_four_contiguous(b: Board, x: int, y: int, p: Player)
    requires
        b.valid(x, y),
        b.cell(x, y) == Cell::Full(p),
    ensures
        wins(b, x, y, p) <==> exists|j: int, k: int|
            0 <= j < 4 && 0 <= k <= 3 && #[trigger] four_contiguous(b, x, y, axis_step(j), p, k),
{
    if wins(b, x, y, p) {
        let j = choose|j: int| 0 <= j < 4 && line_of_four(b, x, y, #[trigger] axis_step(j), p);
        let d = axis_step(j);
        let nd = (-d.0, -d.1);
        let k = choose|k: int| 0 <= k <= 3 && #[trigger] run(b, x, y, d, p, k) && run(b, x, y, nd, p, 3 - k);
        let m = 3 - k;
        assert forall|i: int| -m <= i <= 3 - m implies b.valid(step(x, d.0, i), step(y, d.1, i))
            && #[trigger] b.cell(step(x, d.0, i), step(y, d.1, i)) == Cell::Full(p) by {
            if i < 0 {
                assert(step(x, nd.0, -i) == step(x, d.0, i) && step(y, nd.1, -i) == step(y, d.1, i));
                assert(b.cell(step(x, nd.0, -i), step(y, nd.1, -i)) == Cell::Full(p));
            } else if i == 0 {
                assert(step(x, d.0, 0) == x && step(y, d.1, 0) == y);
            }
        }
        assert(four_contiguous(b, x, y, axis_step(j), p, m));
    }
    if exists|j: int, k: int|
        0 <= j < 4 && 0 <= k <= 3 && #[trigger] four_contiguous(b, x, y, axis_step(j), p, k) {
        let (j, m) = choose|j: int, k: int|
            0 <= j < 4 && 0 <= k <= 3 && #[trigger] four_contiguous(b, x, y, axis_step(j), p, k);
        let d = axis_step(j);
        let nd = (-d.0, -d.1);
        let k = 3 - m;
        assert forall|i: int| 1 <= i <= k implies b.valid(step(x, d.0, i), step(y, d.1, i))
            && #[trigger] b.cell(step(x, d.0, i), step(y, d.1, i)) == Cell::Full(p) by {
            assert(b.cell(step(x, d.0, i), step(y, d.1, i)) == Cell::Full(p));
        }
        assert forall|i: int| 1 <= i <= 3 - k implies b.valid(step(x, nd.0, i), step(y, nd.1, i))
            && #[trigger] b.cell(step(x, nd.0, i), step(y, nd.1, i)) == Cell::Full(p) by {
            assert(step(x, nd.0, i) == step(x, d.0, -i) && step(y, nd.1, i) == step(y, d.1, -i));
            assert(b.cell(step(x, d.0, -i), step(y, d.1, -i)) == Cell::Full(p));
        }
        assert(run(b, x, y, d, p, k));
        assert(line_of_four(b, x, y, axis_step(j), p));
    }
}

/// A cell whose four orthogonal neighbours are all on the board and empty is floating.
pub proof fn lemma_empty_neighbours_float(b: Board, x: int, y: int)
    requires
        b.valid(x - 1, y),
        b.valid(x + 1, y),
        b.valid(x, y - 1),
        b.valid(x, y + 1),
        b.cell(x - 1, y) == Cell::Empty,
        b.cell(x + 1, y) == Cell::Empty,
        b.cell(x, y - 1) == Cell::Empty,
        b.cell(x, y + 1) == Cell::Empty,
    ensures
        floating(b, x, y),
{
    assert forall|j: int| 0 <= j < 4 implies !rests_along(b, x, y, #[trigger] cardinal_step(j)) by {
        let d = cardinal_step(j);
        assert(b.cell(step(x, d.0, 1), step(y, d.1, 1)) == Cell::Empty);
    }
}

proof fn lemma_run_shorter(b: Board, x: int, y: int, d: (int, int), p: Player, k1: int, k2: int)
    requires
        run(b, x, y, d, p, k2),
        k1 <= k2,
    ensures
        run(b, x, y, d, p, k1),
{
}

// Counts the disks of `player` that follow `pos` along `dir`, without a gap.
fn count_cells(board: &Board, pos: Pos, dir: Direction, player: Player) -> (r: u32)
    requires
        board.wf(),
        board.valid(pos.0 as int, pos.1 as int),
        is_unit_step(dir@),
    ensures
        r < board.side(),
        run(*board, pos.0 as int, pos.1 as int, dir@, player, r as int),
        !run(*board, pos.0 as int, pos.1 as int, dir@, player, r + 1),
{
    let ghost (x, y, d) = (pos.0 as int, pos.1 as int, dir@);
    let mut cur: Pos = pos;
    let mut result: u32 = 0;
    loop
        invariant
            board.wf(),
            x == pos.0,
            y == pos.1,
            board.valid(x, y),
            is_unit_step(d),
            d == dir@,
            cur.0 == step(x, d.0, result as int),
            cur.1 == step(y, d.1, result as int),
            board.valid(cur.0 as int, cur.1 as int),
            run(*board, x, y, d, player, result as int),
        decreases board.side() - result,
    {
        assert(result < board.side());
        let next = dir.from(cur);
        assert(next.0 == step(x, d.0, result + 1) && next.1 == step(y, d.1, result + 1));
        // names the next cell, so that `run` can be read at it
        let ghost next_cell = board.cell(next.0 as int, next.1 as int);
        if !board.is_valid(next) {
            return result;
        }
        if board.get(next) != Cell::Full(player) {
            return result;
        }
        result = result + 1;
        cur = next;
    }
}

// Whether placing at `pos` gave `player` four contiguous disks on some line.
fn is_winning(board: &Board, player: Player, pos: Pos) -> (r: bool)
    requires
        board.wf(),
        board.valid(pos.0 as int, pos.1 as int),
    ensures
        r == wins(*board, pos.0 as int, pos.1 as int, player),
{
    let ghost (x, y) = (pos.0 as int, pos.1 as int);
    let dirs = Direction::axis();
    let mut j: usize = 0;
    while j < 4
        invariant
            board.wf(),
            x == pos.0,
            y == pos.1,
            board.valid(x, y),
            j <= 4,
            forall|jj: int| 0 <= jj < 4 ==> #[trigger] dirs@[jj]@ == axis_step(jj),
            forall|jj: int| 0 <= jj < j ==> !line_of_four(*board, x, y, #[trigger] axis_step(jj), player),
        decreases 4 - j,
    {
        let dir = dirs[j];
        assert(dir@ == axis_step(j as int));
        let ahead = count_cells(board, pos, dir, player);
        let back = count_cells(board, pos, dir.flip(), player);
        let ghost d = dir@;
        let ghost nd = (-d.0, -d.1);
        if ahead + back >= 3 {
            let ghost k: int = if ahead >= 3 { 3 } else { ahead as int };
            proof {
                lemma_run_shorter(*board, x, y, d, player, k, ahead as int);
                lemma_run_shorter(*board, x, y, nd, player, 3 - k, back as int);
                assert(run(*board, x, y, d, player, k));
            }
            return true;
        }
        assert forall|k: int| 0 <= k <= 3 implies !(#[trigger] run(*board, x, y, d, player, k)
            && run(*board, x, y, nd, player, 3 - k)) by {
            if run(*board, x, y, d, player, k) && run(*board, x, y, nd, player, 3 - k) {
                if k > ahead {
                    lemma_run_shorter(*board, x, y, d, player, ahead + 1, k);
                } else {
                    lemma_run_shorter(*board, x, y, nd, player, back + 1, 3 - k);
                }
            }
        }
        j = j + 1;
    }
    false
}

/// A walk along a unit step that has left the board never comes back to it.
proof fn lemma_stays_off(b: Board, x: int, y: int, d: (int, int), i: int, k: int)
    requires
        is_unit_step(d),
        b.valid(step(x, d.0, i), step(y, d.1, i)),
        !b.valid(step(x, d.0, i + 1), step(y, d.1, i + 1)),
        k > i,
    ensures
        !b.valid(step(x, d.0, k), step(y, d.1, k)),
{
}

// Whether the walk from `pos` along `d` meets no empty cell before the wall.
fn is_full_line(board: &Board, pos: Pos, d: Direction) -> (r: bool)
    requires
        board.wf(),
        board.valid(pos.0 as int, pos.1 as int),
        is_unit_step(d@),
    ensures
        r == rests_along(*board, pos.0 as int, pos.1 as int, d@),
{
    let ghost (x, y, s) = (pos.0 as int, pos.1 as int, d@);
    let ghost mut i: int = 0;
    let mut cur: Pos = pos;
    loop
        invariant
            board.wf(),
            x == pos.0,
            y == pos.1,
            s == d@,
            is_unit_step(s),
            board.valid(x, y),
            0 <= i,
            cur.0 == step(x, s.0, i),
            cur.1 == step(y, s.1, i),
            board.valid(cur.0 as int, cur.1 as int),
            forall|k: int|
                1 <= k <= i ==> #[trigger] board.cell(step(x, s.0, k), step(y, s.1, k))
                    != Cell::Empty,
        decreases board.side() - i,
    {
        assert(i < board.side());
        let next = d.from(cur);
        assert(next.0 == step(x, s.0, i + 1) && next.1 == step(y, s.1, i + 1));
        if !board.is_valid(next) {
            assert forall|k: int|
                k >= 1 && board.valid(step(x, s.0, k), step(y, s.1, k)) implies #[trigger] board.cell(
                step(x, s.0, k),
                step(y, s.1, k),
            ) != Cell::Empty by {
                if k > i {
                    lemma_stays_off(*board, x, y, s, i, k);
                }
            }
            return true;
        }
        if board.is_empty(next) {
            return false;
        }
        cur = next;
        proof {
            i = i + 1;
        }
    }
}

// Whether the cell at `pos` rests against the wall in no orthogonal direction.
fn is_floating(board: &Board, pos: Pos) -> (r: bool)
    requires
        board.wf(),
        board.valid(pos.0 as int, pos.1 as int),
    ensures
        r == floating(*board, pos.0 as int, pos.1 as int),
{
    let dirs = Direction::cardinal();
    let mut j: usize = 0;
    while j < 4
        invariant
            board.wf(),
            board.valid(pos.0 as int, pos.1 as int),
            j <= 4,
            forall|jj: int| 0 <= jj < 4 ==> #[trigger] dirs@[jj]@ == cardinal_step(jj),
            forall|jj: int|
                0 <= jj < j ==> !rests_along(*board, pos.0 as int, pos.1 as int, #[trigger] cardinal_step(jj)),
        decreases 4 - j,
    {
        assert(dirs@[j as int]@ == cardinal_step(j as int));
        if is_full_line(board, pos, dirs[j]) {
            return false;
        }
        j = j + 1;
    }
    true
}

/// What a legal move at `(x, y)` by `p` led to, on the board after it.
pub open spec fn outcome_of(b: Board, x: int, y: int, p: Player) -> Outcome {
    if wins(b, x, y, p) {
        Outcome::Win(p)
    } else if !b.has_empty() {
        Outcome::Draw
    } else {
        Outcome::Continue
    }
}

impl Configuration {
    /// The length of a side of the board.
    pub closed spec fn spec_size(&self) -> int {
        self.size as int
    }

    /// The positions blocked before play, in the order they were added.
    pub closed spec fn blocked(&self) -> Seq<Pos> {
        self.blocked_tiles@
    }

    /// The number of players who take turns.
    pub closed spec fn spec_players(&self) -> int {
        self.players as int
    }

    /// The size fits a `Pos`, some player takes turns, and every blocked
    /// position lies on the board.
    pub open spec fn wf(&self) -> bool {
        &&& self.spec_size() <= 127
        &&& self.spec_players() >= 1
        &&& forall|i: int|
            0 <= i < self.blocked().len() ==> 0 <= #[trigger] self.blocked()[i].0 < self.spec_size()
                && 0 <= self.blocked()[i].1 < self.spec_size()
    }

    /// An empty board of the given size, for two players.
    pub fn new(size: usize) -> (r: Configuration)
        ensures
            r.spec_size() == size,
            r.blocked() == Seq::<Pos>::empty(),
            r.spec_players() == 2,
    {
        Configuration { size, blocked_tiles: Vec::new(), players: 2 }
    }

    /// This configuration with `pos` blocked as well.
    pub fn add_blocked(self, pos: Pos) -> (r: Configuration)
        ensures
            r.spec_size() == self.spec_size(),
            r.blocked() == self.blocked().push(pos),
            r.spec_players() == self.spec_players(),
    {
        let mut r = self;
        r.blocked_tiles.push(pos);
        r
    }

    /// This configuration with `players` players taking turns.
    pub fn with_players(self, players: usize) -> (r: Configuration)
        ensures
            r.spec_size() == self.spec_size(),
            r.blocked() == self.blocked(),
            r.spec_players() == players,
    {
        let mut r = self;
        r.players = players;
        r
    }

    /// An empty board of size 8.
    pub fn clean_8() -> (r: Configuration)
        ensures
            r.wf(),
            r.spec_size() == 8,
            r.blocked() == Seq::<Pos>::empty(),
            r.spec_players() == 2,
    {
        Self::new(8)
    }

    /// An empty board of size 10.
    pub fn clean_10() -> (r: Configuration)
        ensures
            r.wf(),
            r.spec_size() == 10,
            r.blocked() == Seq::<Pos>::empty(),
            r.spec_players() == 2,
    {
        Self::new(10)
    }

    /// A board of size 8 with four blocked cells near the corners.
    pub fn corner_8() -> (r: Configuration)
        ensures
            r.wf(),
            r.spec_size() == 8,
            r.blocked() == seq![(1i8, 2i8), (2i8, 6i8), (6i8, 5i8), (5i8, 1i8)],
            r.spec_players() == 2,
    {
        Self::corner_n(8)
    }

    /// A board of size 10 with four blocked cells near the corners.
    pub fn corner_10() -> (r: Configuration)
        ensures
            r.wf(),
            r.spec_size() == 10,
            r.blocked() == seq![(1i8, 2i8), (2i8, 8i8), (8i8, 7i8), (7i8, 1i8)],
            r.spec_players() == 2,
    {
        Self::corner_n(10)
    }

    /// A board of the given size with four blocked cells near the corners, placed
    /// so that a quarter turn of the board maps them onto each other.
    pub fn corner_n(size: usize) -> (r: Configuration)
        requires
            size <= 127,
        ensures
            r.spec_size() == size,
            r.blocked().len() == 4,
            r.blocked()[0] == (1i8, 2i8),
            r.blocked()[1].0 == 2 && r.blocked()[1].1 == size - 2,
            r.blocked()[2].0 == size - 2 && r.blocked()[2].1 == size - 3,
            r.blocked()[3].0 == size - 3 && r.blocked()[3].1 == 1,
            r.spec_players() == 2,
            size >= 3 ==> r.wf(),
    {
        let i_size: i8 = size as i8;
        Self::new(size).add_blocked((1, 2)).add_blocked((2, i_size - 2)).add_blocked(
            (i_size - 2, i_size - 3),
        ).add_blocked((i_size - 3, 1))
    }
}

impl Game {
    /// The board.
    pub closed spec fn spec_board(&self) -> Board {
        self.board
    }

    /// The player whose turn it is.
    pub closed spec fn spec_next_player(&self) -> Player {
        self.next_player
    }

    /// The number of players who take turns.
    pub closed spec fn spec_players(&self) -> int {
        self.players as int
    }

    /// The board is well formed and the player to move is one of the players.
    pub open spec fn wf(&self) -> bool {
        &&& self.spec_board().wf()
        &&& self.spec_players() >= 1
        &&& self.spec_next_player() < self.spec_players()
    }

    /// A move by `player` at `(x, y)` breaks no rule: it is their turn, the
    /// cell is empty, and it rests against the wall in some orthogonal direction.
    pub open spec fn legal(&self, player: Player, x: int, y: int) -> bool {
        &&& player == self.spec_next_player()
        &&& self.spec_board().cell(x, y) == Cell::Empty
        &&& !floating(self.spec_board(), x, y)
    }

    /// Creates a new game from the given board configuration; player 0 moves first.
    pub fn new(config: Configuration) -> (r: Game)
        requires
            config.wf(),
        ensures
            r.wf(),
            r.spec_board().side() == config.spec_size(),
            r.spec_next_player() == 0,
            r.spec_players() == config.spec_players(),
            forall|x: int, y: int|
                r.spec_board().valid(x, y) ==> #[trigger] r.spec_board().cell(x, y) == if lists(
                    config.blocked(),
                    x,
                    y,
                ) {
                    Cell::Blocked
                } else {
                    Cell::Empty
                },
    {
        let mut board = Board::new(config.size);
        let tiles = &config.blocked_tiles;
        let mut i: usize = 0;
        while i < tiles.len()
            invariant
                config.wf(),
                tiles@ == config.blocked(),
                board.wf(),
                board.side() == config.spec_size(),
                i <= tiles.len(),
                forall|x: int, y: int|
                    board.valid(x, y) ==> #[trigger] board.cell(x, y) == if lists(
                        tiles@.take(i as int),
                        x,
                        y,
                    ) {
                        Cell::Blocked
                    } else {
                        Cell::Empty
                    },
            decreases tiles.len() - i,
        {
            let tile = tiles[i];
            board.block(tile);
            proof {
                let pre = tiles@.take(i as int);
                let post = tiles@.take(i + 1);
                assert(post == pre.push(tile));
                assert forall|x: int, y: int| board.valid(x, y) implies lists(post, x, y) == (lists(
                    pre,
                    x,
                    y,
                ) || (x == tile.0 && y == tile.1)) by {
                    if x == tile.0 && y == tile.1 {
                        assert(post[i as int] == tile);
                    }
                    if lists(pre, x, y) {
                        let k = choose|k: int| 0 <= k < pre.len() && #[trigger] pre[k].0 == x && pre[k].1 == y;
                        assert(post[k] == pre[k]);
                    }
                    if lists(post, x, y) && !(x == tile.0 && y == tile.1) {
                        let k = choose|k: int| 0 <= k < post.len() && #[trigger] post[k].0 == x && post[k].1 == y;
                        assert(pre[k] == post[k]);
                    }
                }
            }
            i = i + 1;
        }
        assert(tiles@.take(i as int) == tiles@);
        Game { board, next_player: 0, players: config.players }
    }

    /// Returns the player who will play next.
    pub fn get_next_player(&self) -> (r: Player)
        ensures
            r == self.spec_next_player(),
    {
        self.next_player
    }

    /// The board, to read cells from.
    pub fn board(&self) -> (r: &Board)
        ensures
            *r == self.spec_board(),
    {
        &self.board
    }

    /// Plays a disk of `player` on the cell at `pos`.
    ///
    /// The checks run in order and the first that fails gives the error: the
    /// turn, then the cell being empty, then the cell resting against the wall.
    /// A rejected move changes nothing. A legal one puts the disk, passes the
    /// turn on to the next player in rotation, and tells whether the mover won,
    /// the board is full, or the game goes on.
    pub fn play(&mut self, player: Player, pos: Pos) -> (r: Result<Outcome, Error>)
        requires
            old(self).wf(),
            old(self).spec_board().valid(pos.0 as int, pos.1 as int),
        ensures
            final(self).wf(),
            player != old(self).spec_next_player() ==> r == Err::<Outcome, Error>(
                Error::Rule(RuleError::InvalidTurn),
            ),
            player == old(self).spec_next_player() && old(self).spec_board().cell(
                pos.0 as int,
                pos.1 as int,
            ) != Cell::Empty ==> r == Err::<Outcome, Error>(Error::Rule(RuleError::NonEmptyCell)),
            player == old(self).spec_next_player() && old(self).spec_board().cell(
                pos.0 as int,
                pos.1 as int,
            ) == Cell::Empty && floating(old(self).spec_board(), pos.0 as int, pos.1 as int)
                ==> r == Err::<Outcome, Error>(Error::Rule(RuleError::FloatingCell)),
            r is Err ==> *final(self) == *old(self),
            old(self).legal(player, pos.0 as int, pos.1 as int) ==> {
                &&& old(self).spec_board().updated(
                    &final(self).spec_board(),
                    pos.0 as int,
                    pos.1 as int,
                    Cell::Full(player),
                )
                &&& final(self).spec_players() == old(self).spec_players()
                &&& final(self).spec_next_player() == (old(self).spec_next_player() + 1)
                    % old(self).spec_players()
                &&& r == Ok::<Outcome, Error>(
                    outcome_of(final(self).spec_board(), pos.0 as int, pos.1 as int, player),
                )
            },
    {
        if player != self.next_player {
            return Err(Error::from(RuleError::InvalidTurn));
        }
        if !self.board.is_empty(pos) {
            return Err(Error::from(RuleError::NonEmptyCell));
        }
        if is_floating(&self.board, pos) {
            return Err(Error::from(RuleError::FloatingCell));
        }
        self.board.play(pos, player);
        self.next_player = (self.next_player + 1) % self.players;
        if is_winning(&self.board, player, pos) {
            Ok(Outcome::Win(player))
        } else if !self.board.has_empty_cell() {
            Ok(Outcome::Draw)
        } else {
            Ok(Outcome::Continue)
        }
    }
}

} // verus!
