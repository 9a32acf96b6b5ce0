//! The game as it runs: the board in memory and the operations of a turn.

use crate::coord::{Coord, END_TURN, H, W};
use crate::generator::{output, Generator};
use crate::laws::lemma_step_conserves;
use crate::maze::{Maze, ACTIONS, DRAWS};
use vstd::prelude::*;

verus! {

/// A game in progress: on each turn the character moves one cell right, left,
/// down or up and collects the points of the cell it lands on. The aim is a high
/// score when the last turn is over.
pub struct MazeState {
    /// Point values by row and column.
    points: Vec<Vec<usize>>,
    /// Number of moves made so far.
    turn: usize,
    /// Where the character stands.
    character: Coord,
    /// Points collected so far.
    game_score: usize,
}

impl View for MazeState {
    type V = Maze;

    closed spec fn view(&self) -> Maze {
        Maze {
            cells: Seq::new(
                self.points@.len(),
                |y: int| Seq::new(self.points@[y]@.len(), |x: int| self.points@[y]@[x] as nat),
            ),
            turn: self.turn as nat,
            x: self.character.x as int,
            y: self.character.y as int,
            score: self.game_score as nat,
        }
    }
}

impl MazeState {
    /// The state is a position that a game can pass through.
    pub open spec fn wf(&self) -> bool {
        self@.wf()
    }

    /// The starting state that the generator outputs `draws` give.
    pub fn from_draws(draws: &[u32; DRAWS]) -> (state: MazeState)
        ensures
            state.wf(),
            state@ == Maze::from_draws(draws@),
    {
        let character_y: usize = draws[0] as usize % H;
        let character_x: usize = draws[1] as usize % W;
        let character = Coord::new(character_x, character_y);
        let mut points: Vec<Vec<usize>> = Vec::new();
        let mut used: usize = 2;
        for y in 0..H
            invariant
                character.x == character_x,
                character.y == character_y,
                character_x == (draws@[1] as int) % (W as int),
                character_y == (draws@[0] as int) % (H as int),
                points@.len() == y,
                used == 2 + y * W - (if y * W > character_y * W + character_x { 1int } else { 0int }),
                forall|r: int| 0 <= r < y ==> (#[trigger] points@[r])@.len() == W,
                forall|r: int, c: int|
                    0 <= r < y && 0 <= c < W ==> (#[trigger] points@[r]@[c]) as nat
                        == Maze::drawn_point(draws@, character_x as int, character_y as int, c, r),
        {
            let mut row: Vec<usize> = Vec::new();
            for x in 0..W
                invariant
                    y < H,
                    character.x == character_x,
                    character.y == character_y,
                    character_x < W,
                    character_y < H,
                    row@.len() == x,
                    used == 2 + y * W + x - (if y * W + x > character_y * W + character_x { 1int } else { 0int }),
                    forall|c: int|
                        0 <= c < x ==> (#[trigger] row@[c]) as nat
                            == Maze::drawn_point(draws@, character_x as int, character_y as int, c, y as int),
            {
                if y == character.y && x == character.x {
                    row.push(0);
                } else {
                    row.push(draws[used] as usize % 10);
                    used = used + 1;
                }
            }
            points.push(row);
        }
        let state = MazeState { points, turn: 0, character, game_score: 0 };
        proof {
            let want = Maze::from_draws(draws@);
            assert(state@.cells.len() == want.cells.len());
            assert forall|r: int| 0 <= r < H implies #[trigger] state@.cells[r] == want.cells[r] by {
                assert(state.points@[r]@.len() == W);
                assert forall|c: int| 0 <= c < W implies #[trigger] state@.cells[r][c] == want.cells[r][c] by {
                    assert(state.points@[r]@[c] as nat == Maze::drawn_point(
                        draws@,
                        character_x as int,
                        character_y as int,
                        c,
                        r,
                    ));
                }
                assert(state@.cells[r] =~= want.cells[r]);
            }
            assert(state@.cells =~= want.cells);
        }
        state
    }

    /// The starting state for `seed`: the seed alone fixes the board and where
    /// the character starts, so two states made from one seed are the same.
    pub fn new(seed: u32) -> (state: MazeState)
        ensures
            state.wf(),
            state@ == Maze::seeded(seed),
    {
        let mut mt_for_construct = Generator::new(seed);
        let mut draws: [u32; DRAWS] = [0; DRAWS];
        for i in 0..DRAWS
            invariant
                forall|k: int| 0 <= k < i ==> #[trigger] draws@[k] == output(seed, k as nat),
                forall|k: nat| #[trigger] mt_for_construct.upcoming(k) == output(seed, i as nat + k),
        {
            let ghost before = mt_for_construct;
            draws[i] = mt_for_construct.next_u32();
            assert forall|k: nat| #[trigger] mt_for_construct.upcoming(k) == output(
                seed,
                (i + 1) as nat + k,
            ) by {
                assert(mt_for_construct.upcoming(k) == before.upcoming(k + 1));
            }
        }
        assert(draws@ =~= Maze::draws_of(seed));
        Self::from_draws(&draws)
    }

    /// Whether the game is over.
    pub fn is_done(&self) -> (done: bool)
        ensures
            done == self@.is_done(),
    {
        self.turn == END_TURN
    }

    /// Number of moves made so far.
    pub fn turn(&self) -> (turn: usize)
        ensures
            turn == self@.turn,
    {
        self.turn
    }

    /// Points collected so far.
    pub fn score(&self) -> (score: usize)
        ensures
            score == self@.score,
    {
        self.game_score
    }

    /// Where the character stands.
    pub fn character(&self) -> (at: Coord)
        ensures
            at.x == self@.x,
            at.y == self@.y,
            self.wf() ==> at.in_bounds(),
    {
        self.character
    }

    /// The point value of the cell at column `x`, row `y`.
    pub fn point(&self, x: usize, y: usize) -> (value: usize)
        requires
            self.wf(),
            x < W,
            y < H,
        ensures
            value == self@.cells[y as int][x as int],
    {
        assert(self@.cells[y as int].len() == W);
        self.points[y][x]
    }

    /// The moves that keep the character on the board, in rising order:
    /// 0 is right, 1 left, 2 down, 3 up. Whether the game is over plays no part.
    pub fn legal_actions(&self) -> (actions: Vec<usize>)
        requires
            self.wf(),
        ensures
            actions@ == self@.legal_actions(),
    {
        let mut actions: Vec<usize> = Vec::new();
        for action in 0..ACTIONS
            invariant
                self.wf(),
                actions@ == self@.legal_below(action as int),
        {
            if self.is_legal(action) {
                actions.push(action);
            }
        }
        actions
    }

    /// Whether the move `action` exists and keeps the character on the board.
    pub fn is_legal(&self, action: usize) -> (legal: bool)
        requires
            self.wf(),
        ensures
            legal == self@.legal(action as int),
    {
        if action == 0 {
            self.character.x + 1 < W
        } else if action == 1 {
            self.character.x > 0
        } else if action == 2 {
            self.character.y + 1 < H
        } else if action == 3 {
            self.character.y > 0
        } else {
            false
        }
    }

    /// Plays the move `action`: the character moves, its score grows by the
    /// points of the cell it lands on, that cell becomes empty, and a turn passes.
    pub fn advance(&mut self, action: usize)
        requires
            old(self).wf(),
            !old(self)@.is_done(),
            old(self)@.legal(action as int),
        ensures
            final(self).wf(),
            final(self)@ == old(self)@.step(action as int),
            final(self)@.score >= old(self)@.score,
            final(self)@.score + final(self)@.total() == old(self)@.score + old(self)@.total(),
    {
        if action == 0 {
            self.character.x = self.character.x + 1;
        } else if action == 1 {
            self.character.x = self.character.x - 1;
        } else if action == 2 {
            self.character.y = self.character.y + 1;
        } else {
            self.character.y = self.character.y - 1;
        }
        let x: usize = self.character.x;
        let y: usize = self.character.y;
        assert(old(self)@.cells[y as int].len() == W);
        let point: usize = self.points[y][x];
        assert(point == old(self)@.cells[y as int][x as int]);
        self.game_score = self.game_score + point;
        self.points[y][x] = 0;
        self.turn = self.turn + 1;
        proof {
            let want = old(self)@.step(action as int);
            assert forall|r: int| 0 <= r < H implies #[trigger] self@.cells[r] == want.cells[r] by {
                assert(old(self)@.cells[r].len() == W);
                assert(self@.cells[r] =~= want.cells[r]);
            }
            assert(self@.cells =~= want.cells);
            lemma_step_conserves(old(self)@, action as int);
        }
    }
}

} // verus!
