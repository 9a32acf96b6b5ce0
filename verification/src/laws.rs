//! What holds of every game, proved from the rules.

use crate::coord::{END_TURN, H, W};
use crate::maze::{dx, dy, Maze, ACTIONS, DRAWS, MAX_POINT};
use vstd::prelude::*;

verus! {

/// A starting position is a position of the game: nothing is scored, no turn
/// has passed, and the cell under the character is empty.
pub proof fn lemma_start_wf(draws: Seq<u32>)
    requires
        draws.len() == DRAWS,
    ensures
        Maze::from_draws(draws).wf(),
        Maze::from_draws(draws).turn == 0,
        Maze::from_draws(draws).score == 0,
        Maze::from_draws(draws).cells[Maze::from_draws(draws).y][Maze::from_draws(draws).x] == 0,
{
}

/// A legal move made before the game is over leads to a position of the game
/// again, one turn later, with the character on an empty cell.
pub proof fn lemma_step_wf(m: Maze, action: int)
    requires
        m.wf(),
        !m.is_done(),
        m.legal(action),
    ensures
        m.step(action).wf(),
        m.step(action).turn == m.turn + 1,
        m.step(action).cells[m.step(action).y][m.step(action).x] == 0,
{
    let n = m.step(action);
    assert(m.cells[n.y][n.x] <= MAX_POINT);
    assert(n.score <= MAX_POINT * n.turn) by (nonlinear_arith)
        requires
            n.score <= m.score + MAX_POINT,
            m.score <= MAX_POINT * m.turn,
            n.turn == m.turn + 1,
    ;
    assert forall|y: int| 0 <= y < H implies (#[trigger] n.cells[y]).len() == W by {
        assert(m.cells[y].len() == W);
    }
    assert forall|y: int, x: int| 0 <= y < H && 0 <= x < W implies #[trigger] n.cells[y][x]
        <= MAX_POINT by {
        assert(m.cells[y].len() == W);
        assert(m.cells[y][x] <= MAX_POINT);
    }
}

/// A move changes one cell only: the one the character lands on, which it
/// empties.
pub proof fn lemma_step_cells(m: Maze, action: int, x: int, y: int)
    requires
        m.wf(),
        m.legal(action),
        0 <= x < W,
        0 <= y < H,
    ensures
        m.step(action).cells[y][x] == (if x == m.x + dx(action) && y == m.y + dy(action) {
            0
        } else {
            m.cells[y][x]
        }),
{
    assert(m.cells[y].len() == W);
    assert(m.cells[m.y + dy(action)].len() == W);
}

/// The sum over the first `bound` cells after a move: what it was before, less
/// the points of the landing cell where that cell is among them.
proof fn lemma_points_below_step(m: Maze, action: int, bound: int)
    requires
        m.wf(),
        m.legal(action),
        0 <= bound <= H * W,
    ensures
        m.step(action).points_below(bound) + (if bound > (m.y + dy(action)) * W + m.x + dx(action) {
            m.cells[m.y + dy(action)][m.x + dx(action)]
        } else {
            0
        }) == m.points_below(bound),
    decreases bound,
{
    if bound > 0 {
        lemma_points_below_step(m, action, bound - 1);
        let x = (bound - 1) % (W as int);
        let y = (bound - 1) / (W as int);
        lemma_step_cells(m, action, x, y);
    }
}

/// What a move adds to the score it takes from the board: the score and the
/// points left on the board together stay the same.
pub proof fn lemma_step_conserves(m: Maze, action: int)
    requires
        m.wf(),
        m.legal(action),
    ensures
        m.step(action).score + m.step(action).total() == m.score + m.total(),
        m.step(action).score >= m.score,
{
    lemma_points_below_step(m, action, H * W);
}

/// Playing `first` and then `rest` is playing the two one after the other.
pub proof fn lemma_run_split(m: Maze, first: Seq<usize>, rest: Seq<usize>)
    ensures
        m.run(first + rest) == m.run(first).run(rest),
        m.playable(first + rest) <==> m.playable(first) && m.run(first).playable(rest),
    decreases first.len(),
{
    if first.len() == 0 {
        assert(first + rest =~= rest);
    } else {
        assert((first + rest).drop_first() =~= first.drop_first() + rest);
        assert((first + rest)[0] == first[0]);
        lemma_run_split(m.step(first[0] as int), first.drop_first(), rest);
    }
}

/// Moves played by the rules lead to a position of the game.
pub proof fn lemma_run_wf(m: Maze, actions: Seq<usize>)
    requires
        m.wf(),
        m.playable(actions),
    ensures
        m.run(actions).wf(),
    decreases actions.len(),
{
    if actions.len() > 0 {
        lemma_step_wf(m, actions[0] as int);
        lemma_run_wf(m.step(actions[0] as int), actions.drop_first());
    }
}

/// Every move takes one turn, and the game is over after `END_TURN` of them:
/// from the start, a run of moves ends the game if and only if it has
/// `END_TURN` moves, and no longer run can be played.
pub proof fn lemma_turns(m: Maze, actions: Seq<usize>)
    requires
        m.wf(),
        m.playable(actions),
    ensures
        m.run(actions).turn == m.turn + actions.len(),
        m.turn + actions.len() <= END_TURN,
        m.run(actions).is_done() <==> m.turn + actions.len() == END_TURN,
    decreases actions.len(),
{
    if actions.len() > 0 {
        lemma_step_wf(m, actions[0] as int);
        lemma_turns(m.step(actions[0] as int), actions.drop_first());
    }
}

/// The score never falls, and it grows by what leaves the board: after any
/// moves, the score and the points left on the board together are what they
/// were before. So the score never exceeds the points that were there.
pub proof fn lemma_score(m: Maze, actions: Seq<usize>)
    requires
        m.wf(),
        m.playable(actions),
    ensures
        m.score <= m.run(actions).score,
        m.run(actions).score + m.run(actions).total() == m.score + m.total(),
        m.run(actions).score <= m.score + m.total(),
    decreases actions.len(),
{
    if actions.len() > 0 {
        lemma_step_wf(m, actions[0] as int);
        lemma_step_conserves(m, actions[0] as int);
        lemma_score(m.step(actions[0] as int), actions.drop_first());
    }
}

/// In the course of a game the score never falls: after `later` moves of a run
/// it is at least what it was after `earlier` of them.
pub proof fn lemma_score_monotone(m: Maze, actions: Seq<usize>, earlier: int, later: int)
    requires
        m.wf(),
        m.playable(actions),
        0 <= earlier <= later <= actions.len(),
    ensures
        m.run(actions.take(earlier)).score <= m.run(actions.take(later)).score,
{
    let head = actions.take(earlier);
    let mid = actions.subrange(earlier, later);
    let tail = actions.skip(later);
    assert(actions.take(later) =~= head + mid);
    assert(actions =~= actions.take(later) + tail);
    lemma_run_split(m, actions.take(later), tail);
    lemma_run_split(m, head, mid);
    lemma_run_wf(m, head);
    lemma_score(m.run(head), mid);
}

/// From a starting position, the score of a game never exceeds the sum of the
/// points that the board started with.
pub proof fn lemma_score_within_board(draws: Seq<u32>, actions: Seq<usize>)
    requires
        draws.len() == DRAWS,
        Maze::from_draws(draws).playable(actions),
    ensures
        Maze::from_draws(draws).run(actions).score <= Maze::from_draws(draws).total(),
{
    lemma_start_wf(draws);
    lemma_score(Maze::from_draws(draws), actions);
}

/// An empty cell stays empty for the rest of the game.
pub proof fn lemma_empty_stays_empty(m: Maze, actions: Seq<usize>, x: int, y: int)
    requires
        m.wf(),
        m.playable(actions),
        0 <= x < W,
        0 <= y < H,
        m.cells[y][x] == 0,
    ensures
        m.run(actions).cells[y][x] == 0,
    decreases actions.len(),
{
    if actions.len() > 0 {
        lemma_step_wf(m, actions[0] as int);
        lemma_step_cells(m, actions[0] as int, x, y);
        lemma_empty_stays_empty(m.step(actions[0] as int), actions.drop_first(), x, y);
    }
}

/// A run of one move is that move.
pub proof fn lemma_run_one(m: Maze, action: usize)
    ensures
        m.run(seq![action]) == m.step(action as int),
        m.playable(seq![action]) <==> !m.is_done() && m.legal(action as int),
{
    let one = seq![action];
    assert(one.drop_first() =~= Seq::<usize>::empty());
    assert(one[0] == action);
    assert(m.step(action as int).run(one.drop_first()) == m.step(action as int));
    assert(m.step(action as int).playable(one.drop_first()));
}

/// The points of a cell are collected once: where the move number `again` of a
/// run lands on the cell that the earlier move number `once` landed on, it adds
/// nothing to the score.
pub proof fn lemma_collected_once(m: Maze, actions: Seq<usize>, once: int, again: int)
    requires
        m.wf(),
        m.playable(actions),
        0 <= once < again < actions.len(),
        m.run(actions.take(once + 1)).x == m.run(actions.take(again + 1)).x,
        m.run(actions.take(once + 1)).y == m.run(actions.take(again + 1)).y,
    ensures
        m.run(actions.take(again + 1)).score == m.run(actions.take(again)).score,
{
    let head = actions.take(once);
    let landed = m.run(actions.take(once + 1));
    let mid = actions.subrange(once + 1, again);
    let before = m.run(actions.take(again));
    // the run up to and including the move `once`
    assert(actions.take(once + 1) =~= head + seq![actions[once]]);
    assert(actions =~= actions.take(once + 1) + actions.skip(once + 1));
    lemma_run_split(m, actions.take(once + 1), actions.skip(once + 1));
    lemma_run_split(m, head, seq![actions[once]]);
    lemma_run_wf(m, head);
    lemma_run_one(m.run(head), actions[once]);
    lemma_step_wf(m.run(head), actions[once] as int);
    // from there to just before the move `again`
    assert(actions.take(again) =~= actions.take(once + 1) + mid);
    assert(actions =~= actions.take(again) + actions.skip(again));
    lemma_run_split(m, actions.take(again), actions.skip(again));
    lemma_run_split(m, actions.take(once + 1), mid);
    lemma_empty_stays_empty(landed, mid, landed.x, landed.y);
    lemma_run_wf(m, actions.take(again));
    // the move `again`
    assert(actions.take(again + 1) =~= actions.take(again) + seq![actions[again]]);
    lemma_run_split(m, actions.take(again), seq![actions[again]]);
    lemma_run_one(before, actions[again]);
}

/// The legal moves are exactly the moves that keep the character on the board,
/// each once and in rising order: two of them in a corner, three elsewhere on
/// the rim, all four inside.
pub proof fn lemma_legal_actions(m: Maze)
    requires
        m.wf(),
    ensures
        forall|action: int|
            m.legal(action) <==> 0 <= action < ACTIONS && m.legal_actions().contains(action as usize),
        forall|i: int| 0 <= i < m.legal_actions().len() ==> #[trigger] m.legal_actions()[i] < ACTIONS,
        forall|i: int, j: int|
            0 <= i < j < m.legal_actions().len() ==> m.legal_actions()[i] < m.legal_actions()[j],
        m.legal_actions().len() == (if m.in_corner() {
            2nat
        } else if m.on_rim() {
            3nat
        } else {
            4nat
        }),
{
    reveal_with_fuel(Maze::legal_below, 5);
    let acts = m.legal_actions();
    assert forall|action: int| m.legal(action) implies 0 <= action < ACTIONS && acts.contains(
        action as usize,
    ) by {
        lemma_legal_index(m, action);
    }
    assert forall|action: int| 0 <= action < ACTIONS && acts.contains(action as usize) implies m.legal(
        action,
    ) by {
        let i = choose|i: int| 0 <= i < acts.len() && acts[i] == action as usize;
        assert(acts[i] == action as usize);
    }
}

/// A legal move is among the legal moves.
proof fn lemma_legal_index(m: Maze, action: int)
    requires
        m.wf(),
        m.legal(action),
    ensures
        m.legal_actions().contains(action as usize),
{
    reveal_with_fuel(Maze::legal_below, 5);
    let acts = m.legal_actions();
    let before = m.legal_below(action).len() as int;
    assert(acts[before] == action as usize);
}

} // verus!
