//! The game as a mathematical value: the board, the character, the turn and the
//! score, with the rules that relate one position of the game to the next.

use crate::coord::{END_TURN, H, W};
use crate::generator::output;
use vstd::prelude::*;

verus! {

/// Largest point value that a cell can hold.
pub const MAX_POINT: usize = 9;

/// Number of moves a character can choose from: right, left, down, up.
pub const ACTIONS: usize = 4;

/// Number of generator outputs that building a board consumes: two for the
/// starting position, one for every cell but the starting one.
pub const DRAWS: usize = H * W + 1;

/// Change of column that the move `action` makes.
pub open spec fn dx(action: int) -> int {
    if action == 0 {
        1
    } else if action == 1 {
        -1
    } else {
        0
    }
}

/// Change of row that the move `action` makes.
pub open spec fn dy(action: int) -> int {
    if action == 2 {
        1
    } else if action == 3 {
        -1
    } else {
        0
    }
}

/// A position of the game.
pub struct Maze {
    /// Point values by row and column: `cells[y][x]`.
    pub cells: Seq<Seq<nat>>,
    /// Number of moves made so far.
    pub turn: nat,
    /// Column of the character.
    pub x: int,
    /// Row of the character.
    pub y: int,
    /// Points collected so far.
    pub score: nat,
}

impl Maze {
    /// The board has `H` rows of `W` cells, each holding at most `MAX_POINT`.
    pub open spec fn board_wf(self) -> bool {
        &&& self.cells.len() == H
        &&& forall|y: int| 0 <= y < H ==> (#[trigger] self.cells[y]).len() == W
        &&& forall|y: int, x: int| 0 <= y < H && 0 <= x < W ==> #[trigger] self.cells[y][x] <= MAX_POINT
    }

    /// What holds of every position that a game passes through.
    pub open spec fn wf(self) -> bool {
        &&& self.board_wf()
        &&& 0 <= self.x < W
        &&& 0 <= self.y < H
        &&& self.turn <= END_TURN
        &&& self.score <= MAX_POINT * self.turn
    }

    /// The game is over.
    pub open spec fn is_done(self) -> bool {
        self.turn == END_TURN
    }

    /// The move `action` exists and keeps the character on the board.
    pub open spec fn legal(self, action: int) -> bool {
        &&& 0 <= action < ACTIONS
        &&& 0 <= self.x + dx(action) < W
        &&& 0 <= self.y + dy(action) < H
    }

    /// The legal ones among the moves below `bound`, in rising order.
    pub open spec fn legal_below(self, bound: int) -> Seq<usize>
        decreases bound,
    {
        if bound <= 0 {
            Seq::empty()
        } else if self.legal(bound - 1) {
            self.legal_below(bound - 1).push((bound - 1) as usize)
        } else {
            self.legal_below(bound - 1)
        }
    }

    /// The legal moves, in rising order.
    pub open spec fn legal_actions(self) -> Seq<usize> {
        self.legal_below(ACTIONS as int)
    }

    /// The position after the move `action`: the character moves, collects the
    /// points of the cell it lands on, which becomes empty, and a turn passes.
    pub open spec fn step(self, action: int) -> Maze {
        let x = self.x + dx(action);
        let y = self.y + dy(action);
        Maze {
            cells: self.cells.update(y, self.cells[y].update(x, 0)),
            turn: self.turn + 1,
            x,
            y,
            score: self.score + self.cells[y][x],
        }
    }

    /// The character stands in a corner of the board.
    pub open spec fn in_corner(self) -> bool {
        (self.x == 0 || self.x == W - 1) && (self.y == 0 || self.y == H - 1)
    }

    /// The character stands on the rim of the board.
    pub open spec fn on_rim(self) -> bool {
        self.x == 0 || self.x == W - 1 || self.y == 0 || self.y == H - 1
    }

    /// The sum of the point values of the first `bound` cells, counted row by row.
    pub open spec fn points_below(self, bound: int) -> nat
        decreases bound,
    {
        if bound <= 0 {
            0
        } else {
            self.points_below(bound - 1) + self.cells[(bound - 1) / (W as int)][(bound - 1) % (W as int)]
        }
    }

    /// The sum of the point values still on the board.
    pub open spec fn total(self) -> nat {
        self.points_below(H * W)
    }

    /// The moves `actions` can be played one after the other from here: each is
    /// legal where it is made, and none is made once the game is over.
    pub open spec fn playable(self, actions: Seq<usize>) -> bool
        decreases actions.len(),
    {
        actions.len() == 0 || {
            &&& !self.is_done()
            &&& self.legal(actions[0] as int)
            &&& self.step(actions[0] as int).playable(actions.drop_first())
        }
    }

    /// The position after the moves `actions`, played one after the other.
    pub open spec fn run(self, actions: Seq<usize>) -> Maze
        decreases actions.len(),
    {
        if actions.len() == 0 {
            self
        } else {
            self.step(actions[0] as int).run(actions.drop_first())
        }
    }

    /// The starting position that the generator outputs `draws` give: the first
    /// fixes the row of the character, the second its column, and the following
    /// ones the point values of the other cells, row by row.
    pub open spec fn from_draws(draws: Seq<u32>) -> Maze {
        let sy = (draws[0] as int) % (H as int);
        let sx = (draws[1] as int) % (W as int);
        Maze {
            cells: Seq::new(
                H as nat,
                |y: int| Seq::new(W as nat, |x: int| Self::drawn_point(draws, sx, sy, x, y)),
            ),
            turn: 0,
            x: sx,
            y: sy,
            score: 0,
        }
    }

    /// The point value that the cell `(x, y)` gets from `draws` when the
    /// character starts at `(sx, sy)`. The starting cell is empty and takes no
    /// draw, so the cells after it use the draw one place earlier.
    pub open spec fn drawn_point(draws: Seq<u32>, sx: int, sy: int, x: int, y: int) -> nat {
        let cell = y * W + x;
        let start = sy * W + sx;
        if cell == start {
            0
        } else if cell < start {
            ((draws[cell + 2] as int) % 10) as nat
        } else {
            ((draws[cell + 1] as int) % 10) as nat
        }
    }

    /// The first `DRAWS` outputs of a generator seeded with `seed`.
    pub open spec fn draws_of(seed: u32) -> Seq<u32> {
        Seq::new(DRAWS as nat, |i: int| output(seed, i as nat))
    }

    /// The starting position for `seed`.
    pub open spec fn seeded(seed: u32) -> Maze {
        Self::from_draws(Self::draws_of(seed))
    }
}

} // verus!
