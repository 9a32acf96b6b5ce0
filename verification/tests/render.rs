use maze_state::coord::{H, W};
use maze_state::generator::Generator;
use maze_state::maze::DRAWS;
use maze_state::render::{push_decimal, CHARACTER_MARK, EMPTY_MARK};
use maze_state::state::MazeState;

const SAMPLE: [u32; DRAWS] = [2, 1, 10, 11, 12, 13, 14, 15, 16, 17, 18, 25, 26];

fn decimal(n: usize) -> String {
    let mut text = String::new();
    push_decimal(&mut text, n);
    text
}

#[test]
fn marks_are_at_and_dot() {
    assert_eq!(CHARACTER_MARK, '@');
    assert_eq!(EMPTY_MARK, '.');
}

#[test]
fn push_decimal_writes_digits() {
    assert_eq!(decimal(0), "0");
    assert_eq!(decimal(7), "7");
    assert_eq!(decimal(9), "9");
    assert_eq!(decimal(10), "10");
    assert_eq!(decimal(36), "36");
    assert_eq!(decimal(100), "100");
    assert_eq!(decimal(1234567890), "1234567890");
    assert_eq!(decimal(usize::MAX), format!("{}", usize::MAX));
}

#[test]
fn push_decimal_appends() {
    let mut text = String::from("score:\t");
    push_decimal(&mut text, 24);
    assert_eq!(text, "score:\t24");
}

#[test]
fn to_string_of_a_start() {
    let state = MazeState::from_draws(&SAMPLE);
    assert_eq!(state.to_string(), "turn:\t0\nscore:\t0\n.123\n4567\n8@56\n");
}

#[test]
fn to_string_after_a_move() {
    let mut state = MazeState::from_draws(&SAMPLE);
    state.advance(0);
    assert_eq!(state.to_string(), "turn:\t1\nscore:\t5\n.123\n4567\n8.@6\n");
}

#[test]
fn to_string_with_a_two_digit_score() {
    let mut state = MazeState::from_draws(&SAMPLE);
    for action in [3, 0, 0, 2] {
        state.advance(action);
    }
    assert_eq!(state.to_string(), "turn:\t4\nscore:\t24\n.123\n4...\n8.5@\n");
}

#[test]
fn to_string_hides_the_points_under_the_character() {
    // the starting cell is empty, the others hold 1
    let mut draws = [1u32; DRAWS];
    draws[0] = 0;
    draws[1] = 0;
    let state = MazeState::from_draws(&draws);
    assert_eq!(state.to_string(), "turn:\t0\nscore:\t0\n@111\n1111\n1111\n");
}

#[test]
fn to_string_leaves_the_state_alone() {
    let state = MazeState::new(121321);
    let first = state.to_string();
    let second = state.to_string();
    assert_eq!(first, second);
    assert_eq!(state.turn(), 0);
    assert_eq!(state.score(), 0);
}

#[test]
fn text_has_header_and_one_line_for_each_row() {
    for seed in 0..200u32 {
        let mut state = MazeState::new(seed);
        let mut chooser = Generator::new(seed + 1000);
        loop {
            let text = state.to_string();
            assert!(text.ends_with('\n'));
            assert_eq!(text.matches('\n').count(), H + 2);
            let lines: Vec<&str> = text.lines().collect();
            assert_eq!(lines.len(), H + 2);
            assert_eq!(lines[0], format!("turn:\t{}", state.turn()));
            assert_eq!(lines[1], format!("score:\t{}", state.score()));
            assert_eq!(text.matches(CHARACTER_MARK).count(), 1);
            let at = state.character();
            for y in 0..H {
                let row: Vec<char> = lines[y + 2].chars().collect();
                assert_eq!(row.len(), W);
                for x in 0..W {
                    if x == at.x && y == at.y {
                        assert_eq!(row[x], CHARACTER_MARK);
                    } else {
                        let value = state.point(x, y);
                        assert_eq!(row[x] == EMPTY_MARK, value == 0);
                        if value > 0 {
                            assert_eq!(row[x].to_digit(10), Some(value as u32));
                        }
                    }
                }
            }
            if state.is_done() {
                break;
            }
            let actions = state.legal_actions();
            state.advance(actions[chooser.next_u32() as usize % actions.len()]);
        }
    }
}
