//! Random play: a move picked by a generator output, and a whole game played
//! that way and recorded as text.

use crate::coord::END_TURN;
use crate::generator::{output, Generator};
use crate::laws::{lemma_legal_actions, lemma_step_wf};
use crate::maze::Maze;
use crate::render::render;
use crate::state::MazeState;
use vstd::prelude::*;

verus! {

/// The move that the generator output `draw` picks among the legal moves.
pub open spec fn picked(m: Maze, draw: u32) -> usize {
    m.legal_actions()[(draw as int) % (m.legal_actions().len() as int)]
}

/// The position after `moves` random moves of the game that `seed` starts, the
/// move number `k` picked by the output number `k` of a generator seeded with
/// `action_seed`.
pub open spec fn played(seed: u32, action_seed: u32, moves: nat) -> Maze
    decreases moves,
{
    if moves == 0 {
        Maze::seeded(seed)
    } else {
        let before = played(seed, action_seed, (moves - 1) as nat);
        before.step(picked(before, output(action_seed, (moves - 1) as nat)) as int)
    }
}

/// The move that a draw picks is a legal one.
pub proof fn lemma_picked_legal(m: Maze, draw: u32)
    requires
        m.wf(),
    ensures
        m.legal(picked(m, draw) as int),
{
    lemma_legal_actions(m);
    let at = (draw as int) % (m.legal_actions().len() as int);
    assert(m.legal_actions().contains(m.legal_actions()[at]));
}

/// Random play stays within the rules: after `moves` moves, as many turns have
/// passed, and the game is over after `END_TURN` of them.
pub proof fn lemma_played_wf(seed: u32, action_seed: u32, moves: nat)
    requires
        moves <= END_TURN,
    ensures
        played(seed, action_seed, moves).wf(),
        played(seed, action_seed, moves).turn == moves,
        played(seed, action_seed, moves).is_done() <==> moves == END_TURN,
    decreases moves,
{
    if moves > 0 {
        let before = played(seed, action_seed, (moves - 1) as nat);
        let draw = output(action_seed, (moves - 1) as nat);
        lemma_played_wf(seed, action_seed, (moves - 1) as nat);
        lemma_picked_legal(before, draw);
        lemma_step_wf(before, picked(before, draw) as int);
    }
}

/// The move that `draw` picks among the legal moves of `state`.
pub fn pick_action(state: &MazeState, draw: u32) -> (action: usize)
    requires
        state.wf(),
    ensures
        action == picked(state@, draw),
        state@.legal(action as int),
{
    proof {
        lemma_legal_actions(state@);
        lemma_picked_legal(state@, draw);
    }
    let legal_actions = state.legal_actions();
    legal_actions[draw as usize % legal_actions.len()]
}

/// A random legal move: the next output of `mt_for_action` picks it.
pub fn random_action(state: &MazeState, mt_for_action: &mut Generator) -> (action: usize)
    requires
        state.wf(),
    ensures
        action == picked(state@, old(mt_for_action).upcoming(0)),
        state@.legal(action as int),
        forall|i: nat| #[trigger] final(mt_for_action).upcoming(i) == old(mt_for_action).upcoming(i + 1),
{
    let draw: u32 = mt_for_action.next_u32();
    pick_action(state, draw)
}

/// Plays the game that `seed` starts with random moves to its end, the moves
/// picked by a generator of its own seeded with `action_seed`, and returns the
/// states of the game as text: the start, then the state after each move.
pub fn play_game(seed: u32, action_seed: u32) -> (frames: Vec<String>)
    ensures
        frames@.len() == END_TURN + 1,
        forall|k: int|
            0 <= k <= END_TURN ==> (#[trigger] frames@[k])@ == render(played(seed, action_seed, k as nat)),
{
    let mut state = MazeState::new(seed);
    let mut mt_for_action = Generator::new(action_seed);
    let mut frames: Vec<String> = Vec::new();
    frames.push(state.to_string());
    while !state.is_done()
        invariant
            state.wf(),
            state@ == played(seed, action_seed, state@.turn),
            frames@.len() == state@.turn + 1,
            forall|k: int|
                0 <= k <= state@.turn ==> (#[trigger] frames@[k])@ == render(
                    played(seed, action_seed, k as nat),
                ),
            forall|i: nat| #[trigger] mt_for_action.upcoming(i) == output(action_seed, state@.turn + i),
        decreases END_TURN - state@.turn,
    {
        let ghost before = mt_for_action;
        let action: usize = random_action(&state, &mut mt_for_action);
        state.advance(action);
        assert forall|i: nat| #[trigger] mt_for_action.upcoming(i) == output(
            action_seed,
            state@.turn + i,
        ) by {
            assert(mt_for_action.upcoming(i) == before.upcoming(i + 1));
        }
        frames.push(state.to_string());
    }
    frames
}

} // verus!
