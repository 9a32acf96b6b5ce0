use maze_state::coord::END_TURN;
use maze_state::generator::Generator;
use maze_state::maze::DRAWS;
use maze_state::play::{pick_action, play_game, random_action};
use maze_state::state::MazeState;
use rand::Rng;
use rand_mt::Mt19937GenRand32;

const SAMPLE: [u32; DRAWS] = [2, 1, 10, 11, 12, 13, 14, 15, 16, 17, 18, 25, 26];

#[test]
fn pick_action_counts_through_the_legal_moves() {
    // at (1, 2) the legal moves are 0, 1, 3
    let state = MazeState::from_draws(&SAMPLE);
    assert_eq!(state.legal_actions(), vec![0, 1, 3]);
    assert_eq!(pick_action(&state, 0), 0);
    assert_eq!(pick_action(&state, 1), 1);
    assert_eq!(pick_action(&state, 2), 3);
    assert_eq!(pick_action(&state, 3), 0);
    assert_eq!(pick_action(&state, 7), 1);
    // 4294967295 = 3 * 1431655765
    assert_eq!(pick_action(&state, u32::MAX), 0);
}

#[test]
fn pick_action_in_a_corner() {
    let mut draws = [1u32; DRAWS];
    draws[0] = 2;
    draws[1] = 3;
    let state = MazeState::from_draws(&draws);
    assert_eq!(pick_action(&state, 10), 1);
    assert_eq!(pick_action(&state, 11), 3);
}

#[test]
fn random_action_takes_one_draw() {
    let state = MazeState::from_draws(&SAMPLE);
    let mut used = Generator::new(0);
    let mut fresh = Generator::new(0);
    let first = fresh.next_u32();
    assert_eq!(random_action(&state, &mut used), pick_action(&state, first));
    assert_eq!(used.next_u32(), fresh.next_u32());
}

#[test]
fn random_action_is_legal() {
    for seed in 0..100u32 {
        let state = MazeState::new(seed);
        let mut chooser = Generator::new(seed);
        for _ in 0..10 {
            let action = random_action(&state, &mut chooser);
            assert!(state.is_legal(action));
            assert!(state.legal_actions().contains(&action));
        }
    }
}

#[test]
fn play_game_records_every_state() {
    for (seed, action_seed) in [(121321u32, 0u32), (0, 0), (1, 2), (5489, 5489), (u32::MAX, 7)] {
        let frames = play_game(seed, action_seed);
        assert_eq!(frames.len(), END_TURN + 1);
        let mut state = MazeState::new(seed);
        let mut chooser = Generator::new(action_seed);
        assert_eq!(frames[0], state.to_string());
        for frame in &frames[1..] {
            assert!(!state.is_done());
            let action = random_action(&state, &mut chooser);
            state.advance(action);
            assert_eq!(*frame, state.to_string());
        }
        assert!(state.is_done());
        assert!(frames[END_TURN].starts_with("turn:\t4\n"));
    }
}

#[test]
fn play_game_follows_the_twister() {
    let frames = play_game(121321, 0);
    let mut state = MazeState::new(121321);
    let mut twister = Mt19937GenRand32::new(0);
    assert_eq!(frames[0], state.to_string());
    for frame in &frames[1..] {
        let actions = state.legal_actions();
        let action = actions[twister.gen::<u32>() as usize % actions.len()];
        state.advance(action);
        assert_eq!(*frame, state.to_string());
    }
}

#[test]
fn play_game_is_deterministic() {
    assert_eq!(play_game(121321, 0), play_game(121321, 0));
    assert_eq!(play_game(3, 4), play_game(3, 4));
}

#[test]
fn play_game_keeps_the_two_streams_apart() {
    // the start depends on the game seed alone
    assert_eq!(play_game(121321, 0)[0], play_game(121321, 1)[0]);
    assert_eq!(play_game(121321, 0)[0], MazeState::new(121321).to_string());
    // the moves depend on the other seed
    let games: Vec<Vec<String>> = (0..20u32).map(|action_seed| play_game(121321, action_seed)).collect();
    assert!(games.iter().any(|game| *game != games[0]));
}
