//! The game as text: two header lines with the turn and the score, then the
//! board, one line for each row.

use crate::coord::{H, W};
use crate::maze::{Maze, MAX_POINT};
use crate::state::MazeState;
use vstd::prelude::*;
use vstd::string::StringExecFns;

verus! {

/// The character that marks the cell under the character of the game.
pub const CHARACTER_MARK: char = '@';

/// The character that marks an empty cell.
pub const EMPTY_MARK: char = '.';

/// The decimal digit for `d`, which is below ten.
pub open spec fn digit(d: int) -> char {
    if d == 0 {
        '0'
    } else if d == 1 {
        '1'
    } else if d == 2 {
        '2'
    } else if d == 3 {
        '3'
    } else if d == 4 {
        '4'
    } else if d == 5 {
        '5'
    } else if d == 6 {
        '6'
    } else if d == 7 {
        '7'
    } else if d == 8 {
        '8'
    } else {
        '9'
    }
}

/// The number `n` in decimal digits, without leading zeros.
pub open spec fn decimal(n: nat) -> Seq<char>
    decreases n,
{
    if n < 10 {
        seq![digit(n as int)]
    } else {
        decimal(n / 10).push(digit((n % 10) as int))
    }
}

/// The text before the turn in the first line.
pub open spec fn turn_label() -> Seq<char> {
    seq!['t', 'u', 'r', 'n', ':', '\t']
}

/// The text before the score in the second line.
pub open spec fn score_label() -> Seq<char> {
    seq!['s', 'c', 'o', 'r', 'e', ':', '\t']
}

/// The two header lines.
pub open spec fn header(m: Maze) -> Seq<char> {
    turn_label() + decimal(m.turn).push('\n') + score_label() + decimal(m.score).push('\n')
}

/// The character that shows the cell `(x, y)`: the mark of the character where
/// it stands, else the point value as a digit, or the mark of an empty cell.
pub open spec fn cell_char(m: Maze, x: int, y: int) -> char {
    if m.x == x && m.y == y {
        CHARACTER_MARK
    } else if m.cells[y][x] > 0 {
        digit(m.cells[y][x] as int)
    } else {
        EMPTY_MARK
    }
}

/// The first `bound` cells of the row `y`, as text.
pub open spec fn cells_below(m: Maze, y: int, bound: int) -> Seq<char>
    decreases bound,
{
    if bound <= 0 {
        Seq::empty()
    } else {
        cells_below(m, y, bound - 1).push(cell_char(m, bound - 1, y))
    }
}

/// The line for the row `y`.
pub open spec fn row_line(m: Maze, y: int) -> Seq<char> {
    cells_below(m, y, W as int).push('\n')
}

/// The lines for the first `bound` rows.
pub open spec fn rows_below(m: Maze, bound: int) -> Seq<char>
    decreases bound,
{
    if bound <= 0 {
        Seq::empty()
    } else {
        rows_below(m, bound - 1) + row_line(m, bound - 1)
    }
}

/// The game as text.
pub open spec fn render(m: Maze) -> Seq<char> {
    header(m) + rows_below(m, H as int)
}

/// The digit for `d` as a string.
fn digit_str(d: usize) -> (s: &'static str)
    requires
        d < 10,
    ensures
        s@ == seq![digit(d as int)],
{
    proof {
        reveal_strlit("0");
        reveal_strlit("1");
        reveal_strlit("2");
        reveal_strlit("3");
        reveal_strlit("4");
        reveal_strlit("5");
        reveal_strlit("6");
        reveal_strlit("7");
        reveal_strlit("8");
        reveal_strlit("9");
    }
    let s = if d == 0 {
        "0"
    } else if d == 1 {
        "1"
    } else if d == 2 {
        "2"
    } else if d == 3 {
        "3"
    } else if d == 4 {
        "4"
    } else if d == 5 {
        "5"
    } else if d == 6 {
        "6"
    } else if d == 7 {
        "7"
    } else if d == 8 {
        "8"
    } else {
        "9"
    };
    assert(s@ =~= seq![digit(d as int)]);
    s
}

/// Appends `n` in decimal digits to `text`.
pub fn push_decimal(text: &mut String, n: usize)
    ensures
        final(text)@ == old(text)@ + decimal(n as nat),
    decreases n,
{
    if n >= 10 {
        push_decimal(text, n / 10);
    }
    text.append(digit_str(n % 10));
    assert(text@ =~= old(text)@ + decimal(n as nat));
}

impl MazeState {
    /// The state as text: a line with the turn, a line with the score, and a
    /// line for each row of the board, in which `@` marks the character, a digit
    /// the points of a cell, and `.` an empty cell.
    pub fn to_string(&self) -> (text: String)
        requires
            self.wf(),
        ensures
            text@ == render(self@),
    {
        let mut res = String::new();
        proof {
            reveal_strlit("turn:\t");
            reveal_strlit("score:\t");
            reveal_strlit("\n");
        }
        res.append("turn:\t");
        push_decimal(&mut res, self.turn());
        res.append("\n");
        res.append("score:\t");
        push_decimal(&mut res, self.score());
        res.append("\n");
        assert(res@ =~= header(self@));
        let character = self.character();
        for h in 0..H
            invariant
                self.wf(),
                character.x == self@.x,
                character.y == self@.y,
                res@ == header(self@) + rows_below(self@, h as int),
        {
            let ghost before = res@;
            for w in 0..W
                invariant
                    self.wf(),
                    h < H,
                    character.x == self@.x,
                    character.y == self@.y,
                    res@ == before + cells_below(self@, h as int, w as int),
            {
                let ghost so_far = res@;
                proof {
                    reveal_strlit("@");
                    reveal_strlit(".");
                }
                if character.y == h && character.x == w {
                    res.append("@");
                    assert(res@ =~= so_far.push(CHARACTER_MARK));
                } else if self.point(w, h) > 0 {
                    let value: usize = self.point(w, h);
                    assert(value <= MAX_POINT);
                    push_decimal(&mut res, value);
                    assert(decimal(value as nat) =~= seq![digit(value as int)]);
                    assert(res@ =~= so_far.push(digit(value as int)));
                } else {
                    res.append(".");
                    assert(res@ =~= so_far.push(EMPTY_MARK));
                }
                assert(res@ == so_far.push(cell_char(self@, w as int, h as int)));
                assert(res@ =~= before + cells_below(self@, h as int, w + 1));
            }
            proof {
                reveal_strlit("\n");
            }
            res.append("\n");
            assert(res@ =~= before + row_line(self@, h as int));
            assert(res@ =~= header(self@) + rows_below(self@, h + 1));
        }
        res
    }
}

/// The number of times that `c` occurs in `text`.
pub open spec fn occurrences(text: Seq<char>, c: char) -> nat
    decreases text.len(),
{
    if text.len() == 0 {
        0
    } else {
        occurrences(text.drop_last(), c) + (if text.last() == c {
            1nat
        } else {
            0nat
        })
    }
}

/// Where the character for the cell `(x, y)` stands in the text of `m`.
pub open spec fn cell_index(m: Maze, x: int, y: int) -> int {
    header(m).len() + y * (W + 1) + x
}

/// Occurrences in a text of two parts are those in the one and in the other.
proof fn lemma_occurrences_add(a: Seq<char>, b: Seq<char>, c: char)
    ensures
        occurrences(a + b, c) == occurrences(a, c) + occurrences(b, c),
    decreases b.len(),
{
    if b.len() == 0 {
        assert(a + b =~= a);
    } else {
        assert((a + b).drop_last() =~= a + b.drop_last());
        lemma_occurrences_add(a, b.drop_last(), c);
    }
}

/// A character that stands nowhere in a text occurs in it no times.
proof fn lemma_occurrences_none(text: Seq<char>, c: char)
    requires
        forall|i: int| 0 <= i < text.len() ==> text[i] != c,
    ensures
        occurrences(text, c) == 0,
    decreases text.len(),
{
    if text.len() > 0 {
        lemma_occurrences_none(text.drop_last(), c);
    }
}

/// A number in decimal is made of digits.
proof fn lemma_decimal_digits(n: nat)
    ensures
        decimal(n).len() > 0,
        forall|i: int| 0 <= i < decimal(n).len() ==> '0' <= #[trigger] decimal(n)[i] <= '9',
    decreases n,
{
    if n >= 10 {
        lemma_decimal_digits(n / 10);
    }
}

/// The header has two line ends, one of them at its end, and no mark of the
/// character.
proof fn lemma_header_shape(m: Maze)
    ensures
        occurrences(header(m), '\n') == 2,
        occurrences(header(m), CHARACTER_MARK) == 0,
        header(m).len() > 0,
        header(m).last() == '\n',
{
    let first = decimal(m.turn).push('\n');
    let second = decimal(m.score).push('\n');
    lemma_decimal_digits(m.turn);
    lemma_decimal_digits(m.score);
    lemma_occurrences_none(turn_label(), '\n');
    lemma_occurrences_none(turn_label(), CHARACTER_MARK);
    lemma_occurrences_none(score_label(), '\n');
    lemma_occurrences_none(score_label(), CHARACTER_MARK);
    lemma_occurrences_none(decimal(m.turn), '\n');
    lemma_occurrences_none(decimal(m.turn), CHARACTER_MARK);
    lemma_occurrences_none(decimal(m.score), '\n');
    lemma_occurrences_none(decimal(m.score), CHARACTER_MARK);
    assert(first.drop_last() =~= decimal(m.turn));
    assert(second.drop_last() =~= decimal(m.score));
    lemma_occurrences_add(turn_label(), first, '\n');
    lemma_occurrences_add(turn_label() + first, score_label(), '\n');
    lemma_occurrences_add(turn_label() + first + score_label(), second, '\n');
    lemma_occurrences_add(turn_label(), first, CHARACTER_MARK);
    lemma_occurrences_add(turn_label() + first, score_label(), CHARACTER_MARK);
    lemma_occurrences_add(turn_label() + first + score_label(), second, CHARACTER_MARK);
}

/// The first cells of a row as text: one character for each cell, no line end,
/// and the mark of the character where it stands among them.
proof fn lemma_cells_shape(m: Maze, y: int, bound: int)
    requires
        m.wf(),
        0 <= bound <= W,
    ensures
        cells_below(m, y, bound).len() == bound,
        forall|x: int| 0 <= x < bound ==> #[trigger] cells_below(m, y, bound)[x] == cell_char(m, x, y),
        occurrences(cells_below(m, y, bound), '\n') == 0,
        occurrences(cells_below(m, y, bound), CHARACTER_MARK) == (if m.y == y && m.x < bound {
            1nat
        } else {
            0nat
        }),
    decreases bound,
{
    if bound > 0 {
        lemma_cells_shape(m, y, bound - 1);
        assert(cells_below(m, y, bound).drop_last() =~= cells_below(m, y, bound - 1));
    }
}

/// The first rows of the board as text: a line end after every `W` characters,
/// the character for each cell in its place, and the mark of the character once
/// where its row is among them.
proof fn lemma_rows_shape(m: Maze, bound: int)
    requires
        m.wf(),
        0 <= bound <= H,
    ensures
        rows_below(m, bound).len() == bound * (W + 1),
        forall|x: int, y: int|
            0 <= x < W && 0 <= y < bound ==> rows_below(m, bound)[y * (W + 1) + x] == #[trigger] cell_char(
                m,
                x,
                y,
            ),
        bound > 0 ==> rows_below(m, bound).last() == '\n',
        occurrences(rows_below(m, bound), '\n') == bound,
        occurrences(rows_below(m, bound), CHARACTER_MARK) == (if m.y < bound {
            1nat
        } else {
            0nat
        }),
    decreases bound,
{
    if bound > 0 {
        let above = rows_below(m, bound - 1);
        let cells = cells_below(m, bound - 1, W as int);
        let line = row_line(m, bound - 1);
        lemma_rows_shape(m, bound - 1);
        lemma_cells_shape(m, bound - 1, W as int);
        assert(line.drop_last() =~= cells);
        lemma_occurrences_add(above, line, '\n');
        lemma_occurrences_add(above, line, CHARACTER_MARK);
        assert forall|x: int, y: int| 0 <= x < W && 0 <= y < bound implies rows_below(m, bound)[y * (W
            + 1) + x] == #[trigger] cell_char(m, x, y) by {
            if y < bound - 1 {
                assert(above[y * (W + 1) + x] == cell_char(m, x, y));
            } else {
                assert(line[x] == cells[x]);
            }
        }
    }
}

/// The text of a game has `H + 2` lines, each closed by a line end. The mark of
/// the character occurs in it once, where the character stands. Every other
/// cell shows the mark of an empty cell if and only if it is empty.
pub proof fn lemma_render_shape(m: Maze)
    requires
        m.wf(),
    ensures
        occurrences(render(m), '\n') == H + 2,
        render(m).last() == '\n',
        occurrences(render(m), CHARACTER_MARK) == 1,
        forall|x: int, y: int|
            0 <= x < W && 0 <= y < H ==> render(m)[cell_index(m, x, y)] == #[trigger] cell_char(m, x, y),
        render(m)[cell_index(m, m.x, m.y)] == CHARACTER_MARK,
        forall|x: int, y: int|
            0 <= x < W && 0 <= y < H && !(x == m.x && y == m.y) ==> (#[trigger] render(m)[cell_index(
                m,
                x,
                y,
            )] == EMPTY_MARK <==> m.cells[y][x] == 0),
{
    lemma_header_shape(m);
    lemma_rows_shape(m, H as int);
    lemma_occurrences_add(header(m), rows_below(m, H as int), '\n');
    lemma_occurrences_add(header(m), rows_below(m, H as int), CHARACTER_MARK);
    assert forall|x: int, y: int| 0 <= x < W && 0 <= y < H implies render(m)[cell_index(m, x, y)]
        == #[trigger] cell_char(m, x, y) by {
        assert(rows_below(m, H as int)[y * (W + 1) + x] == cell_char(m, x, y));
    }
    assert forall|x: int, y: int| 0 <= x < W && 0 <= y < H && !(x == m.x && y == m.y) implies (
    #[trigger] render(m)[cell_index(m, x, y)] == EMPTY_MARK <==> m.cells[y][x] == 0) by {
        assert(render(m)[cell_index(m, x, y)] == cell_char(m, x, y));
        assert(m.cells[y][x] <= MAX_POINT);
    }
    assert(cell_char(m, m.x, m.y) == CHARACTER_MARK);
}

} // verus!
