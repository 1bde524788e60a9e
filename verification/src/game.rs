//! A solving session: the grid with its numbers and clues, the cursor, the
//! mode, and the transitions between them.

use crate::charset::{char_uppercase_head, lemma_latin1_char, uppercase_head};
use crate::clock::{clock_new, clock_seconds, clock_start, clock_stop};
use crate::encode::lemma_decode_then_encode;
use crate::grid::{layout_of_cells, layout_of_text, lemma_index_in_range, Cell, Layout};
use crate::keys::{command_for, command_of, letter_of_key, typed_letter, Command, KeyEvent};
use crate::puzfile::{decode, DecodeError, PuzFile, PuzView};
use stopwatch::Stopwatch;
use vstd::prelude::*;
use vstd::string::{is_ascii_spec_bytes, StringSliceAdditionalSpecFns};
use vstd::utf8::is_ascii_chars;

verus! {

/// What the keys currently do.
#[derive(Debug, Clone, Copy, PartialEq, Eq, Structural)]
pub enum Mode {
    /// Letters go into the grid and the cursor follows the across entry.
    EditAcross,
    /// Letters go into the grid and the cursor follows the down entry.
    EditDown,
    /// The puzzle is solved; the session only waits to be closed.
    GameOver,
    /// The cursor moves freely over the grid.
    Select,
    /// The clock is stopped and the grid is hidden.
    Pause,
}

/// A direction on the grid.
#[derive(Debug, Clone, Copy, PartialEq, Eq, Structural)]
pub enum Direction {
    Down,
    Left,
    Right,
    Up,
}

/// How far the solver has come.
#[derive(Debug, Clone, Copy, PartialEq, Eq, Structural)]
pub struct GameStatus {
    /// The number of playable squares.
    pub cells: u16,
    /// The number of squares that hold a guess.
    pub guesses: u16,
    /// The number of playable squares whose guess differs from the solution.
    pub errors: u16,
}

/// A solving session.
pub struct Game {
    width: u16,
    height: u16,
    grid: Vec<Cell>,
    cursor_x: u16,
    cursor_y: u16,
    clues_scroll: u16,
    mode: Mode,
    last_edit_mode: Mode,
    stopwatch: Stopwatch,
    clock_running: bool,
    banked_secs: u64,
    hint_num_errors: bool,
    title: String,
    author: String,
}

/// The state of a session. Of its clock it holds whether the session has
/// set it running, and the reading that the session took when it last
/// stopped it.
pub struct GameView {
    pub width: u16,
    pub height: u16,
    pub cells: Seq<Cell>,
    pub cursor_x: u16,
    pub cursor_y: u16,
    pub clues_scroll: u16,
    pub mode: Mode,
    pub last_edit_mode: Mode,
    pub clock_running: bool,
    /// The whole seconds that the clock showed when the session last stopped
    /// it; 0 as long as it was never stopped.
    pub banked_secs: u64,
    pub hint_num_errors: bool,
    pub title: Seq<char>,
    pub author: Seq<char>,
}

impl View for Game {
    type V = GameView;

    closed spec fn view(&self) -> GameView {
        GameView {
            width: self.width,
            height: self.height,
            cells: self.grid@,
            cursor_x: self.cursor_x,
            cursor_y: self.cursor_y,
            clues_scroll: self.clues_scroll,
            mode: self.mode,
            last_edit_mode: self.last_edit_mode,
            clock_running: self.clock_running,
            banked_secs: self.banked_secs,
            hint_num_errors: self.hint_num_errors,
            title: self.title@,
            author: self.author@,
        }
    }
}

/// A square as it is before the entries are numbered: the solution letter of
/// the text, or a block for `'.'`, and nothing else.
pub open spec fn blank_cell(puzzle: Seq<char>, i: int) -> Cell {
    Cell {
        truth: if puzzle[i] == '.' {
            None
        } else {
            Some(puzzle[i])
        },
        guess: None,
        clue_number: None,
        clue_across: None,
        clue_down: None,
    }
}

/// A square of a freshly loaded grid: its number, and its clues taken from
/// the clue list in the order in which the entries start.
pub open spec fn fresh_cell(layout: Layout, puzzle: Seq<char>, clues: Seq<String>, i: int) -> Cell {
    Cell {
        truth: blank_cell(puzzle, i).truth,
        guess: None,
        clue_number: layout.number_at(i),
        clue_across: if layout.across_at(i) {
            Some(clues[layout.across_clue_index(i)])
        } else {
            None
        },
        clue_down: if layout.down_at(i) {
            Some(clues[layout.down_clue_index(i)])
        } else {
            None
        },
    }
}

/// The layout that a puzzle file describes.
pub open spec fn layout_of_file(p: PuzFile) -> Layout {
    layout_of_text(p.puzzle@, p.width as int, p.height as int)
}

/// Why no session can be made of a puzzle file, if anything stands against
/// it. The first of these that holds decides: a side of the grid is 0; the
/// solution text is not 7-bit text with one character per square; the clue
/// list has not the declared length, or not the length that the entries of
/// the grid use up.
pub open spec fn load_error(p: PuzFile) -> Option<DecodeError> {
    if p.width == 0 || p.height == 0 {
        Some(DecodeError::MalformedHeader)
    } else if !is_ascii_chars(p.puzzle@) || p.puzzle@.len() != p.width * p.height {
        Some(DecodeError::InvalidCharacterGrid)
    } else if p.clues@.len() != p.num_clues || layout_of_file(p).clues_needed()
        != p.clues@.len() {
        Some(DecodeError::ClueCountMismatch)
    } else {
        None
    }
}

/// The session that starts on a puzzle file: every square without a guess,
/// the cursor in the first square, in `Select` mode, the clock not yet
/// running and nothing measured.
pub open spec fn loaded(p: PuzFile) -> GameView {
    GameView {
        width: p.width as u16,
        height: p.height as u16,
        cells: Seq::new(
            p.puzzle@.len(),
            |i: int| fresh_cell(layout_of_file(p), p.puzzle@, p.clues@, i),
        ),
        cursor_x: 0,
        cursor_y: 0,
        clues_scroll: 0,
        mode: Mode::Select,
        last_edit_mode: Mode::EditAcross,
        clock_running: false,
        banked_secs: 0,
        hint_num_errors: false,
        title: p.title@,
        author: p.author@,
    }
}

impl GameView {
    /// Which squares are playable.
    pub open spec fn layout(self) -> Layout {
        layout_of_cells(self.cells, self.width as int, self.height as int)
    }

    /// The index of the square at `(x, y)`.
    pub open spec fn index(self, x: int, y: int) -> int {
        y * self.width + x
    }

    /// The square at `(x, y)`.
    pub open spec fn cell(self, x: int, y: int) -> Cell {
        self.cells[self.index(x, y)]
    }

    /// The index of the square under the cursor.
    pub open spec fn cursor_index(self) -> int {
        self.index(self.cursor_x as int, self.cursor_y as int)
    }

    /// The square under the cursor.
    pub open spec fn cursor_cell(self) -> Cell {
        self.cells[self.cursor_index()]
    }

    /// Square `i` is as the grid's layout wants it: a block holds no guess,
    /// the square carries its number, and it has a clue for exactly the
    /// entries that start in it.
    pub open spec fn cell_ok(self, i: int) -> bool {
        let c = self.cells[i];
        &&& c.truth is None ==> c.guess is None
        &&& c.clue_number == self.layout().number_at(i)
        &&& c.clue_across is Some <==> self.layout().across_at(i)
        &&& c.clue_down is Some <==> self.layout().down_at(i)
    }

    /// The session is well formed: the grid has its size, the cursor is on
    /// it, the remembered edit mode is an edit mode, and every square is as
    /// the layout wants it.
    pub open spec fn wf(self) -> bool {
        &&& self.layout().wf()
        &&& self.cursor_x < self.width
        &&& self.cursor_y < self.height
        &&& (self.last_edit_mode == Mode::EditAcross || self.last_edit_mode == Mode::EditDown)
        &&& forall|i: int| 0 <= i < self.cells.len() ==> #[trigger] self.cell_ok(i)
    }
}

/// The index of the square at `(x, y)` of a grid.
fn square_index(width: u16, height: u16, x: u16, y: u16) -> (i: usize)
    requires
        1 <= width <= 255,
        1 <= height <= 255,
        x < width,
        y < height,
    ensures
        i == y * width + x,
        i < width * height,
{
    proof {
        lemma_index_in_range(width as int, height as int, x as int, y as int);
        assert((height - 1) * width <= 254 * 255) by (nonlinear_arith)
            requires
                1 <= width <= 255,
                1 <= height <= 255,
        ;
        assert(0 <= y * width <= (height - 1) * width) by (nonlinear_arith)
            requires
                0 <= y < height,
                1 <= width,
        ;
    }
    y as usize * width as usize + x as usize
}

/// Whether the square at `(x, y)` of a grid is playable.
fn square_is_open(grid: &Vec<Cell>, width: u16, height: u16, x: u16, y: u16) -> (open: bool)
    requires
        layout_of_cells(grid@, width as int, height as int).wf(),
        x < width,
        y < height,
    ensures
        open == layout_of_cells(grid@, width as int, height as int).is_open(x as int, y as int),
{
    let i = square_index(width, height, x, y);
    grid[i].truth.is_some()
}

/// Whether an across entry starts at `(x, y)` of a grid.
fn square_starts_across(grid: &Vec<Cell>, width: u16, height: u16, x: u16, y: u16) -> (starts:
    bool)
    requires
        layout_of_cells(grid@, width as int, height as int).wf(),
        x < width,
        y < height,
    ensures
        starts == layout_of_cells(grid@, width as int, height as int).starts_across(
            x as int,
            y as int,
        ),
{
    if !square_is_open(grid, width, height, x, y) {
        return false;
    }
    (x == 0 || !square_is_open(grid, width, height, x - 1, y)) && x < width - 1 && square_is_open(
        grid,
        width,
        height,
        x + 1,
        y,
    )
}

/// Whether a down entry starts at `(x, y)` of a grid.
fn square_starts_down(grid: &Vec<Cell>, width: u16, height: u16, x: u16, y: u16) -> (starts: bool)
    requires
        layout_of_cells(grid@, width as int, height as int).wf(),
        x < width,
        y < height,
    ensures
        starts == layout_of_cells(grid@, width as int, height as int).starts_down(
            x as int,
            y as int,
        ),
{
    if !square_is_open(grid, width, height, x, y) {
        return false;
    }
    (y == 0 || !square_is_open(grid, width, height, x, y - 1)) && y < height - 1 && square_is_open(
        grid,
        width,
        height,
        x,
        y + 1,
    )
}

/// The blank squares that a solution text describes, in row-major order.
fn blank_grid(text: &str) -> (grid: Vec<Cell>)
    requires
        is_ascii_chars(text@),
    ensures
        grid@.len() == text@.len(),
        forall|j: int| 0 <= j < grid@.len() ==> #[trigger] grid@[j] == blank_cell(text@, j),
{
    proof {
        is_ascii_spec_bytes(text);
        assert(vstd::string::is_ascii(text));
        assert(text.spec_bytes().len() == text@.len());
    }
    let bytes = text.as_bytes();
    let n = bytes.len();
    let mut grid: Vec<Cell> = Vec::new();
    let mut i: usize = 0;
    while i < n
        invariant
            is_ascii_chars(text@),
            n == text@.len(),
            bytes@.len() == n,
            forall|j: int| 0 <= j < n ==> bytes@[j] == #[trigger] text@[j] as u8,
            i <= n,
            grid@.len() == i,
            forall|j: int| 0 <= j < i ==> #[trigger] grid@[j] == blank_cell(text@, j),
        decreases n - i,
    {
        let b = bytes[i];
        let c = b as char;
        proof {
            let t = text@[i as int];
            assert('\0' <= t <= '\u{7f}');
            lemma_latin1_char(t);
        }
        let truth = if c == '.' {
            None
        } else {
            Some(c)
        };
        grid.push(Cell { truth, guess: None, clue_number: None, clue_across: None, clue_down: None });
        i += 1;
    }
    grid
}

impl Game {
    /// Starts a session on a decoded puzzle: builds the grid from the
    /// solution text, numbers the entries in row-major order and hands each
    /// its clue. Fails as `load_error` says.
    pub fn new(p: &PuzFile) -> (r: Result<Game, DecodeError>)
        ensures
            match r {
                Ok(g) => load_error(*p) is None && g@ == loaded(*p) && g@.wf(),
                Err(e) => load_error(*p) == Some(e),
            },
    {
        if p.width == 0 || p.height == 0 {
            return Err(DecodeError::MalformedHeader);
        }
        let width = p.width as u16;
        let height = p.height as u16;
        let text = p.puzzle.as_str();
        if !text.is_ascii() {
            return Err(DecodeError::InvalidCharacterGrid);
        }
        proof {
            is_ascii_spec_bytes(text);
            assert(vstd::string::is_ascii(text));
            assert(text.spec_bytes().len() == text@.len());
            assert(width * height <= 255 * 255) by (nonlinear_arith)
                requires
                    1 <= width <= 255,
                    1 <= height <= 255,
            ;
        }
        let n = text.as_bytes().len();
        if n != width as usize * height as usize {
            return Err(DecodeError::InvalidCharacterGrid);
        }
        if p.clues.len() != p.num_clues as usize {
            return Err(DecodeError::ClueCountMismatch);
        }
        let mut grid = blank_grid(text);
        let ghost layout = layout_of_file(*p);
        let ghost puzzle = p.puzzle@;
        let ghost clues = p.clues@;
        assert(layout_of_cells(grid@, width as int, height as int).open =~= layout.open);
        let mut clue_number: u16 = 1;
        let mut clue_index: usize = 0;
        let mut i: usize = 0;
        let mut x: u16 = 0;
        let mut y: u16 = 0;
        while i < n
            invariant
                layout == layout_of_file(*p),
                puzzle == p.puzzle@,
                clues == p.clues@,
                layout.wf(),
                is_ascii_chars(puzzle),
                clues.len() == p.num_clues,
                width == p.width,
                height == p.height,
                n == width * height,
                n <= 255 * 255,
                n == puzzle.len(),
                grid@.len() == n,
                layout_of_cells(grid@, width as int, height as int) == layout,
                i <= n,
                i == y * width + x,
                x < width,
                i < n ==> y < height,
                clue_number == layout.numbers_before(i as int) + 1,
                clue_index == layout.clues_before(i as int),
                clue_index <= clues.len(),
                forall|j: int| 0 <= j < i ==> #[trigger] grid@[j] == fresh_cell(layout, puzzle, clues, j),
                forall|j: int| i <= j < n ==> #[trigger] grid@[j] == blank_cell(puzzle, j),
            decreases n - i,
        {
            proof {
                lemma_index_in_range(width as int, height as int, x as int, y as int);
                layout.lemma_counts_bounded(i as int);
                layout.lemma_counts_monotone(i as int + 1, n as int);
            }
            let across = square_starts_across(&grid, width, height, x, y);
            let down = square_starts_down(&grid, width, height, x, y);
            assert(across == layout.across_at(i as int));
            assert(down == layout.down_at(i as int));
            let ghost before = grid@;
            if across {
                if clue_index >= p.clues.len() {
                    assert(layout.clues_before(i as int + 1) > clues.len());
                    return Err(DecodeError::ClueCountMismatch);
                }
                grid[i].clue_across = Some(p.clues[clue_index].clone());
                clue_index += 1;
            }
            if down {
                if clue_index >= p.clues.len() {
                    assert(layout.clues_before(i as int + 1) > clues.len());
                    return Err(DecodeError::ClueCountMismatch);
                }
                grid[i].clue_down = Some(p.clues[clue_index].clone());
                clue_index += 1;
            }
            if across || down {
                grid[i].clue_number = Some(clue_number);
                clue_number += 1;
            }
            proof {
                assert(grid@[i as int] == fresh_cell(layout, puzzle, clues, i as int));
                assert forall|j: int| 0 <= j < n implies grid@[j].truth == before[j].truth by {}
                assert(layout_of_cells(grid@, width as int, height as int).open =~= layout.open);
            }
            i += 1;
            x += 1;
            if x == width {
                x = 0;
                y += 1;
            }
            proof {
                assert((y - 1) * width + width == y * width) by (nonlinear_arith);
                if i < n && y >= height {
                    assert(y * width >= height * width) by (nonlinear_arith)
                        requires
                            y >= height,
                            width >= 1,
                    ;
                }
            }
        }
        if clue_index != p.clues.len() {
            return Err(DecodeError::ClueCountMismatch);
        }
        let g = Game {
            width,
            height,
            grid,
            cursor_x: 0,
            cursor_y: 0,
            clues_scroll: 0,
            mode: Mode::Select,
            last_edit_mode: Mode::EditAcross,
            stopwatch: clock_new(),
            clock_running: false,
            banked_secs: 0,
            hint_num_errors: false,
            title: p.title.clone(),
            author: p.author.clone(),
        };
        proof {
            assert(g@.cells =~= loaded(*p).cells);
            assert forall|j: int| 0 <= j < g@.cells.len() implies #[trigger] g@.cell_ok(j) by {
                assert(g@.cells[j] == fresh_cell(layout, puzzle, clues, j));
            }
        }
        Ok(g)
    }
}

/// The square is playable.
pub open spec fn is_playable(c: Cell) -> bool {
    c.truth is Some
}

/// The square holds a guess.
pub open spec fn has_guess(c: Cell) -> bool {
    c.guess is Some
}

/// The square is playable and holds a guess that is not its solution.
pub open spec fn is_wrong(c: Cell) -> bool {
    c.truth is Some && c.guess is Some && c.truth != c.guess
}

/// How many of the squares satisfy `f`.
pub open spec fn count_cells(cells: Seq<Cell>, f: spec_fn(Cell) -> bool) -> nat
    decreases cells.len(),
{
    if cells.len() == 0 {
        0
    } else {
        count_cells(cells.drop_last(), f) + if f(cells.last()) {
            1nat
        } else {
            0nat
        }
    }
}

/// A count is at most the number of squares.
pub proof fn lemma_count_bounded(cells: Seq<Cell>, f: spec_fn(Cell) -> bool)
    ensures
        count_cells(cells, f) <= cells.len(),
    decreases cells.len(),
{
    if cells.len() > 0 {
        lemma_count_bounded(cells.drop_last(), f);
    }
}

/// Counting one square further adds that square.
pub proof fn lemma_count_step(cells: Seq<Cell>, f: spec_fn(Cell) -> bool, i: int)
    requires
        0 <= i < cells.len(),
    ensures
        count_cells(cells.take(i + 1), f) == count_cells(cells.take(i), f) + if f(cells[i]) {
            1nat
        } else {
            0nat
        },
{
    assert(cells.take(i + 1).drop_last() =~= cells.take(i));
}

/// Where `f` holds of no square the count is 0, and where it holds of all,
/// the count is the number of squares.
pub proof fn lemma_count_all_or_none(cells: Seq<Cell>, f: spec_fn(Cell) -> bool)
    ensures
        (forall|i: int| 0 <= i < cells.len() ==> !f(#[trigger] cells[i])) ==> count_cells(cells, f)
            == 0,
        (forall|i: int| 0 <= i < cells.len() ==> f(#[trigger] cells[i])) ==> count_cells(cells, f)
            == cells.len(),
    decreases cells.len(),
{
    if cells.len() > 0 {
        let rest = cells.drop_last();
        lemma_count_all_or_none(rest, f);
        assert forall|i: int| 0 <= i < rest.len() implies rest[i] == cells[i] by {}
        if forall|i: int| 0 <= i < cells.len() ==> !f(#[trigger] cells[i]) {
            assert forall|i: int| 0 <= i < rest.len() implies !f(#[trigger] rest[i]) by {
                assert(rest[i] == cells[i]);
            }
        }
        if forall|i: int| 0 <= i < cells.len() ==> f(#[trigger] cells[i]) {
            assert forall|i: int| 0 <= i < rest.len() implies f(#[trigger] rest[i]) by {
                assert(rest[i] == cells[i]);
            }
        }
    }
}

/// Two conditions that agree on every square have the same count.
pub proof fn lemma_count_agree(
    cells: Seq<Cell>,
    f: spec_fn(Cell) -> bool,
    g: spec_fn(Cell) -> bool,
)
    requires
        forall|i: int| 0 <= i < cells.len() ==> f(#[trigger] cells[i]) == g(cells[i]),
    ensures
        count_cells(cells, f) == count_cells(cells, g),
    decreases cells.len(),
{
    if cells.len() > 0 {
        let rest = cells.drop_last();
        assert forall|i: int| 0 <= i < rest.len() implies f(#[trigger] rest[i]) == g(rest[i]) by {
            assert(rest[i] == cells[i]);
        }
        lemma_count_agree(rest, f, g);
    }
}

impl GameView {
    /// The column to the left of `x`, wrapping to the last column.
    pub open spec fn left(self, x: u16) -> u16 {
        if x == 0 {
            (self.width - 1) as u16
        } else {
            (x - 1) as u16
        }
    }

    /// The column to the right of `x`, wrapping to column 0.
    pub open spec fn right(self, x: u16) -> u16 {
        if x + 1 == self.width {
            0
        } else {
            (x + 1) as u16
        }
    }

    /// The row above `y`, wrapping to the last row.
    pub open spec fn up(self, y: u16) -> u16 {
        if y == 0 {
            (self.height - 1) as u16
        } else {
            (y - 1) as u16
        }
    }

    /// The row below `y`, wrapping to row 0.
    pub open spec fn down(self, y: u16) -> u16 {
        if y + 1 == self.height {
            0
        } else {
            (y + 1) as u16
        }
    }

    /// The column to the left of `(x, y)` if a playable square lies there,
    /// else `x`.
    pub open spec fn edit_left(self, x: u16, y: u16) -> u16 {
        if self.layout().is_open(x - 1, y as int) {
            (x - 1) as u16
        } else {
            x
        }
    }

    /// The column to the right of `(x, y)` if a playable square lies there,
    /// else `x`.
    pub open spec fn edit_right(self, x: u16, y: u16) -> u16 {
        if self.layout().is_open(x + 1, y as int) {
            (x + 1) as u16
        } else {
            x
        }
    }

    /// The row above `(x, y)` if a playable square lies there, else `y`.
    pub open spec fn edit_up(self, x: u16, y: u16) -> u16 {
        if self.layout().is_open(x as int, y - 1) {
            (y - 1) as u16
        } else {
            y
        }
    }

    /// The row below `(x, y)` if a playable square lies there, else `y`.
    pub open spec fn edit_down(self, x: u16, y: u16) -> u16 {
        if self.layout().is_open(x as int, y + 1) {
            (y + 1) as u16
        } else {
            y
        }
    }

    /// The cursor moves one square and wraps at the edges; blocks are
    /// visited like any square.
    pub open spec fn select_move(self, direction: Direction) -> GameView {
        match direction {
            Direction::Up => GameView { cursor_y: self.up(self.cursor_y), ..self },
            Direction::Down => GameView { cursor_y: self.down(self.cursor_y), ..self },
            Direction::Left => GameView { cursor_x: self.left(self.cursor_x), ..self },
            Direction::Right => GameView { cursor_x: self.right(self.cursor_x), ..self },
        }
    }

    /// The cursor moves one square unless that leads off the grid or onto a
    /// block.
    pub open spec fn edit_move(self, direction: Direction) -> GameView {
        match direction {
            Direction::Up => GameView {
                cursor_y: self.edit_up(self.cursor_x, self.cursor_y),
                ..self
            },
            Direction::Down => GameView {
                cursor_y: self.edit_down(self.cursor_x, self.cursor_y),
                ..self
            },
            Direction::Left => GameView {
                cursor_x: self.edit_left(self.cursor_x, self.cursor_y),
                ..self
            },
            Direction::Right => GameView {
                cursor_x: self.edit_right(self.cursor_x, self.cursor_y),
                ..self
            },
        }
    }

    /// The edit mode that suits the square under the cursor: the direction
    /// of its only clue, or the remembered one where it has both or none.
    pub open spec fn edit_mode_here(self) -> Mode {
        let c = self.cursor_cell();
        if c.clue_across is Some && c.clue_down is None {
            Mode::EditAcross
        } else if c.clue_across is None && c.clue_down is Some {
            Mode::EditDown
        } else {
            self.last_edit_mode
        }
    }

    /// Editing starts at the cursor, unless a block lies there.
    pub open spec fn edit_mode(self) -> GameView {
        if self.cursor_cell().truth is None {
            self
        } else {
            GameView { mode: self.edit_mode_here(), last_edit_mode: self.edit_mode_here(), ..self }
        }
    }

    /// The edit direction swaps, whatever clues the square has.
    pub open spec fn edit_direction(self) -> GameView {
        let mode = if self.mode == Mode::EditDown {
            Mode::EditAcross
        } else {
            Mode::EditDown
        };
        GameView { mode, last_edit_mode: mode, ..self }
    }

    /// Editing stops.
    pub open spec fn select_mode(self) -> GameView {
        GameView { mode: Mode::Select, ..self }
    }

    /// The clock is stopped. If it was running, the session keeps what the
    /// clock shows now, `reading`; a clock that stood already leaves the
    /// kept reading as it is.
    pub open spec fn stop_clock(self, reading: u64) -> GameView {
        GameView {
            clock_running: false,
            banked_secs: if self.clock_running {
                reading
            } else {
                self.banked_secs
            },
            ..self
        }
    }

    /// The session is over and its clock stopped at `reading`.
    pub open spec fn game_over_mode(self, reading: u64) -> GameView {
        GameView { mode: Mode::GameOver, ..self.stop_clock(reading) }
    }

    /// The session is paused and its clock stopped at `reading`.
    pub open spec fn pause(self, reading: u64) -> GameView {
        GameView { mode: Mode::Pause, ..self.stop_clock(reading) }
    }

    /// The session goes on after a pause, and so does its clock.
    pub open spec fn unpause(self) -> GameView {
        GameView { mode: Mode::Select, clock_running: true, ..self }
    }

    /// The clock of the session is set running.
    pub open spec fn start(self) -> GameView {
        GameView { clock_running: true, ..self }
    }

    /// The cursor steps on in the edit direction.
    pub open spec fn edit_next(self) -> GameView {
        match self.mode {
            Mode::EditAcross => self.edit_move(Direction::Right),
            Mode::EditDown => self.edit_move(Direction::Down),
            _ => self,
        }
    }

    /// The cursor steps back against the edit direction.
    pub open spec fn edit_prev(self) -> GameView {
        match self.mode {
            Mode::EditAcross => self.edit_move(Direction::Left),
            Mode::EditDown => self.edit_move(Direction::Up),
            _ => self,
        }
    }

    /// The grid with the guess of the square under the cursor replaced.
    pub open spec fn with_guess(self, guess: Option<char>) -> GameView {
        GameView {
            cells: self.cells.update(
                self.cursor_index(),
                Cell { guess, ..self.cursor_cell() },
            ),
            ..self
        }
    }

    /// A letter goes into the square under the cursor and the cursor steps
    /// on; on a block nothing changes.
    pub open spec fn guess(self, letter: char) -> GameView {
        if self.cursor_cell().truth is None {
            self
        } else {
            self.with_guess(Some(letter)).edit_next()
        }
    }

    /// The guess under the cursor is removed; the cursor stays.
    pub open spec fn unguess(self) -> GameView {
        self.with_guess(None)
    }

    /// The clue list scrolls up by five lines, not past its top.
    pub open spec fn clues_scroll_up(self) -> GameView {
        GameView {
            clues_scroll: if self.clues_scroll <= 5 {
                0
            } else {
                (self.clues_scroll - 5) as u16
            },
            ..self
        }
    }

    /// The clue list scrolls down by five lines, as far as the counter goes.
    pub open spec fn clues_scroll_down(self) -> GameView {
        GameView {
            clues_scroll: if self.clues_scroll + 5 > u16::MAX {
                u16::MAX
            } else {
                (self.clues_scroll + 5) as u16
            },
            ..self
        }
    }

    /// The count of errors is shown or hidden.
    pub open spec fn toggle_hint_num_errors(self) -> GameView {
        GameView { hint_num_errors: !self.hint_num_errors, ..self }
    }

    /// The progress counts of the grid.
    pub open spec fn status(self) -> GameStatus {
        GameStatus {
            cells: count_cells(self.cells, |c: Cell| is_playable(c)) as u16,
            guesses: count_cells(self.cells, |c: Cell| has_guess(c)) as u16,
            errors: count_cells(self.cells, |c: Cell| is_wrong(c)) as u16,
        }
    }

    /// The puzzle is solved: no guess is wrong and every playable square
    /// holds one.
    pub open spec fn is_solved(self) -> bool {
        self.status().errors == 0 && self.status().cells == self.status().guesses
    }

    /// A solved puzzle ends the session; `reading` is what the clock shows
    /// if that stops it.
    pub open spec fn settle(self, reading: u64) -> GameView {
        if self.mode != Mode::GameOver && self.is_solved() {
            self.game_over_mode(reading)
        } else {
            self
        }
    }

    /// What a command does to the session, before it is settled; `reading`
    /// is what the clock shows if the command stops it.
    pub open spec fn obey(self, cmd: Command, reading: u64) -> GameView {
        match cmd {
            Command::Ignore | Command::Quit => self,
            Command::Pause => self.pause(reading),
            Command::Unpause => self.unpause(),
            Command::CluesScrollUp => self.clues_scroll_up(),
            Command::CluesScrollDown => self.clues_scroll_down(),
            Command::SelectMove(d) => self.select_move(d),
            Command::ToggleHintNumErrors => self.toggle_hint_num_errors(),
            Command::EditMode => self.edit_mode(),
            Command::Unguess => self.unguess(),
            Command::EditPrev => self.edit_prev(),
            Command::EditMove(d) => self.edit_move(d),
            Command::SelectMode => self.select_mode(),
            Command::EditDirection => self.edit_direction(),
            Command::Guess(letter) => self.guess(letter),
        }
    }

    /// The session after a command: `Quit` leaves it as it is, every other
    /// command is obeyed and the session then settled. `reading` is what
    /// the clock shows if the step stops it.
    pub open spec fn apply(self, cmd: Command, reading: u64) -> GameView {
        if cmd == Command::Quit {
            self
        } else {
            self.obey(cmd, reading).settle(reading)
        }
    }

    /// The session after a key press; `reading` is what the clock shows if
    /// the key stops it.
    pub open spec fn update(self, key: KeyEvent, reading: u64) -> GameView {
        self.apply(command_of(self.mode, key, letter_of_key(key)), reading)
    }

    /// A change of the cursor, the mode or the display settings keeps a
    /// session well formed as long as the cursor stays on the grid and the
    /// remembered edit mode stays one.
    pub proof fn lemma_same_grid_wf(self, next: GameView)
        requires
            self.wf(),
            next.cells == self.cells,
            next.width == self.width,
            next.height == self.height,
            next.cursor_x < self.width,
            next.cursor_y < self.height,
            next.last_edit_mode == Mode::EditAcross || next.last_edit_mode == Mode::EditDown,
        ensures
            next.wf(),
    {
        assert forall|i: int| 0 <= i < next.cells.len() implies #[trigger] next.cell_ok(i) by {
            assert(self.cell_ok(i));
        }
    }

    /// Replacing the guess of a playable square, or removing any guess,
    /// keeps a session well formed.
    pub proof fn lemma_with_guess_wf(self, guess: Option<char>)
        requires
            self.wf(),
            guess is Some ==> self.cursor_cell().truth is Some,
        ensures
            self.with_guess(guess).wf(),
            self.with_guess(guess).layout() == self.layout(),
    {
        let next = self.with_guess(guess);
        lemma_index_in_range(
            self.width as int,
            self.height as int,
            self.cursor_x as int,
            self.cursor_y as int,
        );
        assert(next.layout().open =~= self.layout().open);
        assert forall|i: int| 0 <= i < next.cells.len() implies #[trigger] next.cell_ok(i) by {
            assert(self.cell_ok(i));
        }
    }
}

impl Game {
    /// The square at `(x, y)`.
    pub fn get(&self, x: u16, y: u16) -> (c: &Cell)
        requires
            self@.wf(),
            x < self@.width,
            y < self@.height,
        ensures
            *c == self@.cell(x as int, y as int),
    {
        let i = square_index(self.width, self.height, x, y);
        &self.grid[i]
    }

    /// Whether an across entry starts at `(x, y)`.
    pub fn has_clue_across(&self, x: u16, y: u16) -> (b: bool)
        requires
            self@.wf(),
            x < self@.width,
            y < self@.height,
        ensures
            b == self@.layout().starts_across(x as int, y as int),
    {
        square_starts_across(&self.grid, self.width, self.height, x, y)
    }

    /// Whether a down entry starts at `(x, y)`.
    pub fn has_clue_down(&self, x: u16, y: u16) -> (b: bool)
        requires
            self@.wf(),
            x < self@.width,
            y < self@.height,
        ensures
            b == self@.layout().starts_down(x as int, y as int),
    {
        square_starts_down(&self.grid, self.width, self.height, x, y)
    }

    /// Counts the playable squares, the guesses and the wrong guesses.
    pub fn get_status(&self) -> (s: GameStatus)
        requires
            self@.wf(),
        ensures
            s == self@.status(),
            s.cells == count_cells(self@.cells, |c: Cell| is_playable(c)),
            s.guesses == count_cells(self@.cells, |c: Cell| has_guess(c)),
            s.errors == count_cells(self@.cells, |c: Cell| is_wrong(c)),
            s.errors <= s.guesses <= s.cells,
    {
        let ghost playable = |c: Cell| is_playable(c);
        let ghost guessed = |c: Cell| has_guess(c);
        let ghost wrong = |c: Cell| is_wrong(c);
        let mut s = GameStatus { cells: 0, guesses: 0, errors: 0 };
        let n = self.grid.len();
        proof {
            assert(self.width * self.height <= 255 * 255) by (nonlinear_arith)
                requires
                    1 <= self.width <= 255,
                    1 <= self.height <= 255,
            ;
        }
        let mut i: usize = 0;
        while i < n
            invariant
                self@.wf(),
                n == self.grid@.len(),
                n <= 255 * 255,
                i <= n,
                playable == (|c: Cell| is_playable(c)),
                guessed == (|c: Cell| has_guess(c)),
                wrong == (|c: Cell| is_wrong(c)),
                s.cells == count_cells(self.grid@.take(i as int), playable),
                s.guesses == count_cells(self.grid@.take(i as int), guessed),
                s.errors == count_cells(self.grid@.take(i as int), wrong),
                s.errors <= s.guesses <= s.cells <= i,
            decreases n - i,
        {
            proof {
                lemma_count_step(self.grid@, playable, i as int);
                lemma_count_step(self.grid@, guessed, i as int);
                lemma_count_step(self.grid@, wrong, i as int);
                assert(self@.cell_ok(i as int));
            }
            let cell = &self.grid[i];
            if cell.truth.is_some() {
                s.cells += 1;
            }
            if cell.guess.is_some() {
                s.guesses += 1;
            }
            match (cell.truth, cell.guess) {
                (Some(t), Some(g)) => {
                    if t != g {
                        s.errors += 1;
                    }
                },
                _ => {},
            }
            i += 1;
        }
        proof {
            assert(self.grid@.take(n as int) =~= self.grid@);
        }
        s
    }

    /// Whether the puzzle is solved.
    pub fn is_game_over(&self) -> (b: bool)
        requires
            self@.wf(),
        ensures
            b == self@.is_solved(),
    {
        let status = self.get_status();
        status.errors == 0 && status.cells == status.guesses
    }
}

impl Game {
    /// The column to the left of `x`; from column 0 this is the last column.
    pub fn left(&self, x: u16) -> (r: u16)
        requires
            self@.wf(),
        ensures
            r == self@.left(x),
            x < self@.width ==> r < self@.width,
    {
        if x == 0 {
            self.width - 1
        } else {
            x - 1
        }
    }

    /// The column to the right of `x`; from the last column this is column 0.
    pub fn right(&self, x: u16) -> (r: u16)
        requires
            self@.wf(),
            x < u16::MAX,
        ensures
            r == self@.right(x),
            x < self@.width ==> r < self@.width,
    {
        if x + 1 == self.width {
            0
        } else {
            x + 1
        }
    }

    /// The row above `y`; from row 0 this is the last row.
    pub fn up(&self, y: u16) -> (r: u16)
        requires
            self@.wf(),
        ensures
            r == self@.up(y),
            y < self@.height ==> r < self@.height,
    {
        if y == 0 {
            self.height - 1
        } else {
            y - 1
        }
    }

    /// The row below `y`; from the last row this is row 0.
    pub fn down(&self, y: u16) -> (r: u16)
        requires
            self@.wf(),
            y < u16::MAX,
        ensures
            r == self@.down(y),
            y < self@.height ==> r < self@.height,
    {
        if y + 1 == self.height {
            0
        } else {
            y + 1
        }
    }

    /// The column left of `(x, y)` where the cursor may go while editing:
    /// it stays at the left edge and before a block.
    pub fn edit_left(&self, x: u16, y: u16) -> (r: u16)
        requires
            self@.wf(),
            x < self@.width,
            y < self@.height,
        ensures
            r == self@.edit_left(x, y),
            r < self@.width,
            r != x ==> self@.layout().is_open(r as int, y as int),
    {
        if x == 0 {
            return x;
        }
        if square_is_open(&self.grid, self.width, self.height, x - 1, y) {
            x - 1
        } else {
            x
        }
    }

    /// The column right of `(x, y)` where the cursor may go while editing:
    /// it stays at the right edge and before a block.
    pub fn edit_right(&self, x: u16, y: u16) -> (r: u16)
        requires
            self@.wf(),
            x < self@.width,
            y < self@.height,
        ensures
            r == self@.edit_right(x, y),
            r < self@.width,
            r != x ==> self@.layout().is_open(r as int, y as int),
    {
        if x + 1 == self.width {
            return x;
        }
        if square_is_open(&self.grid, self.width, self.height, x + 1, y) {
            x + 1
        } else {
            x
        }
    }

    /// The row above `(x, y)` where the cursor may go while editing: it
    /// stays at the top edge and below a block.
    pub fn edit_up(&self, x: u16, y: u16) -> (r: u16)
        requires
            self@.wf(),
            x < self@.width,
            y < self@.height,
        ensures
            r == self@.edit_up(x, y),
            r < self@.height,
            r != y ==> self@.layout().is_open(x as int, r as int),
    {
        if y == 0 {
            return y;
        }
        if square_is_open(&self.grid, self.width, self.height, x, y - 1) {
            y - 1
        } else {
            y
        }
    }

    /// The row below `(x, y)` where the cursor may go while editing: it
    /// stays at the bottom edge and above a block.
    pub fn edit_down(&self, x: u16, y: u16) -> (r: u16)
        requires
            self@.wf(),
            x < self@.width,
            y < self@.height,
        ensures
            r == self@.edit_down(x, y),
            r < self@.height,
            r != y ==> self@.layout().is_open(x as int, r as int),
    {
        if y + 1 == self.height {
            return y;
        }
        if square_is_open(&self.grid, self.width, self.height, x, y + 1) {
            y + 1
        } else {
            y
        }
    }

    /// Moves the cursor one square, wrapping at the edges of the grid.
    pub fn select_move(&mut self, direction: Direction)
        requires
            old(self)@.wf(),
        ensures
            final(self)@ == old(self)@.select_move(direction),
            final(self)@.wf(),
    {
        match direction {
            Direction::Up => {
                self.cursor_y = self.up(self.cursor_y);
            },
            Direction::Down => {
                self.cursor_y = self.down(self.cursor_y);
            },
            Direction::Left => {
                self.cursor_x = self.left(self.cursor_x);
            },
            Direction::Right => {
                self.cursor_x = self.right(self.cursor_x);
            },
        }
        proof {
            old(self)@.lemma_same_grid_wf(self@);
        }
    }

    /// Moves the cursor one square while editing: it stays where it is at
    /// the edge of the grid and before a block.
    pub fn edit_move(&mut self, direction: Direction)
        requires
            old(self)@.wf(),
        ensures
            final(self)@ == old(self)@.edit_move(direction),
            final(self)@.wf(),
    {
        match direction {
            Direction::Up => {
                self.cursor_y = self.edit_up(self.cursor_x, self.cursor_y);
            },
            Direction::Down => {
                self.cursor_y = self.edit_down(self.cursor_x, self.cursor_y);
            },
            Direction::Left => {
                self.cursor_x = self.edit_left(self.cursor_x, self.cursor_y);
            },
            Direction::Right => {
                self.cursor_x = self.edit_right(self.cursor_x, self.cursor_y);
            },
        }
        proof {
            old(self)@.lemma_same_grid_wf(self@);
        }
    }

    /// Enters the edit mode that suits the square under the cursor. On a
    /// block nothing happens.
    pub fn edit_mode(&mut self)
        requires
            old(self)@.wf(),
        ensures
            final(self)@ == old(self)@.edit_mode(),
            final(self)@.wf(),
    {
        let i = square_index(self.width, self.height, self.cursor_x, self.cursor_y);
        if self.grid[i].truth.is_none() {
            return ;
        }
        self.mode =
        match (self.grid[i].clue_across.is_some(), self.grid[i].clue_down.is_some()) {
            (true, false) => Mode::EditAcross,
            (false, true) => Mode::EditDown,
            _ => self.last_edit_mode,
        };
        self.last_edit_mode = self.mode;
        proof {
            old(self)@.lemma_same_grid_wf(self@);
        }
    }

    /// Swaps the edit direction between across and down.
    pub fn edit_direction(&mut self)
        requires
            old(self)@.wf(),
        ensures
            final(self)@ == old(self)@.edit_direction(),
            final(self)@.wf(),
    {
        self.mode =
        match self.mode {
            Mode::EditDown => Mode::EditAcross,
            _ => Mode::EditDown,
        };
        self.last_edit_mode = self.mode;
        proof {
            old(self)@.lemma_same_grid_wf(self@);
        }
    }

    /// Leaves the edit modes.
    pub fn select_mode(&mut self)
        requires
            old(self)@.wf(),
        ensures
            final(self)@ == old(self)@.select_mode(),
            final(self)@.wf(),
    {
        self.mode = Mode::Select;
        proof {
            old(self)@.lemma_same_grid_wf(self@);
        }
    }

    /// Stops the clock. If it was running, the session keeps the reading
    /// that the clock shows once it stands.
    fn stop_clock(&mut self)
        requires
            old(self)@.wf(),
        ensures
            final(self)@ == old(self)@.stop_clock(final(self)@.banked_secs),
            final(self)@.wf(),
    {
        clock_stop(&mut self.stopwatch);
        if self.clock_running {
            self.banked_secs = clock_seconds(&self.stopwatch);
            self.clock_running = false;
        }
        proof {
            old(self)@.lemma_same_grid_wf(self@);
        }
    }

    /// Ends the session and stops the clock for good: from now on
    /// `elapsed_secs` gives the reading that the session has kept.
    pub fn game_over_mode(&mut self)
        requires
            old(self)@.wf(),
        ensures
            final(self)@ == old(self)@.game_over_mode(final(self)@.banked_secs),
            final(self)@.wf(),
    {
        self.stop_clock();
        self.mode = Mode::GameOver;
        proof {
            old(self)@.lemma_same_grid_wf(self@);
        }
    }

    /// Enters a letter, as it stands, into the square under the cursor and
    /// steps on in the edit direction. On a block nothing happens.
    pub fn guess(&mut self, letter: char)
        requires
            old(self)@.wf(),
        ensures
            final(self)@ == old(self)@.guess(letter),
            final(self)@.wf(),
    {
        let i = square_index(self.width, self.height, self.cursor_x, self.cursor_y);
        if self.grid[i].truth.is_none() {
            return ;
        }
        self.grid[i].guess = Some(letter);
        proof {
            old(self)@.lemma_with_guess_wf(Some(letter));
            assert(self@.cells =~= old(self)@.with_guess(Some(letter)).cells);
            assert(self@ == old(self)@.with_guess(Some(letter)));
        }
        self.edit_next();
    }

    /// Enters the uppercase form of a typed character into the square under
    /// the cursor and steps on in the edit direction. Of an uppercase form
    /// of several characters only the first is kept.
    pub fn input(&mut self, c: char)
        requires
            old(self)@.wf(),
        ensures
            final(self)@ == old(self)@.guess(uppercase_head(c)),
            final(self)@.wf(),
    {
        let upper = char_uppercase_head(c);
        self.guess(upper);
    }

    /// Removes the guess of the square under the cursor.
    pub fn unguess(&mut self)
        requires
            old(self)@.wf(),
        ensures
            final(self)@ == old(self)@.unguess(),
            final(self)@.wf(),
    {
        let i = square_index(self.width, self.height, self.cursor_x, self.cursor_y);
        self.grid[i].guess = None;
        proof {
            old(self)@.lemma_with_guess_wf(None);
            assert(self@.cells =~= old(self)@.with_guess(None).cells);
        }
    }

    /// Moves the cursor to the next square of the entry being edited.
    pub fn edit_next(&mut self)
        requires
            old(self)@.wf(),
        ensures
            final(self)@ == old(self)@.edit_next(),
            final(self)@.wf(),
    {
        match self.mode {
            Mode::EditAcross => self.edit_move(Direction::Right),
            Mode::EditDown => self.edit_move(Direction::Down),
            _ => {},
        }
    }

    /// Moves the cursor to the previous square of the entry being edited.
    pub fn edit_prev(&mut self)
        requires
            old(self)@.wf(),
        ensures
            final(self)@ == old(self)@.edit_prev(),
            final(self)@.wf(),
    {
        match self.mode {
            Mode::EditAcross => self.edit_move(Direction::Left),
            Mode::EditDown => self.edit_move(Direction::Up),
            _ => {},
        }
    }

    /// Scrolls the clue list up by five lines, not past its top.
    pub fn clues_scroll_up(&mut self)
        requires
            old(self)@.wf(),
        ensures
            final(self)@ == old(self)@.clues_scroll_up(),
            final(self)@.wf(),
    {
        if self.clues_scroll <= 5 {
            self.clues_scroll = 0;
        } else {
            self.clues_scroll -= 5;
        }
        proof {
            old(self)@.lemma_same_grid_wf(self@);
        }
    }

    /// Scrolls the clue list down by five lines. Past the end of the list
    /// nothing is left to show; the counter stops at its largest value.
    pub fn clues_scroll_down(&mut self)
        requires
            old(self)@.wf(),
        ensures
            final(self)@ == old(self)@.clues_scroll_down(),
            final(self)@.wf(),
    {
        self.clues_scroll = self.clues_scroll.saturating_add(5);
        proof {
            old(self)@.lemma_same_grid_wf(self@);
        }
    }

    /// Pauses the session and stops the clock: until the session goes on,
    /// `elapsed_secs` gives the reading that the session has kept.
    pub fn pause(&mut self)
        requires
            old(self)@.wf(),
        ensures
            final(self)@ == old(self)@.pause(final(self)@.banked_secs),
            final(self)@.wf(),
    {
        self.stop_clock();
        self.mode = Mode::Pause;
        proof {
            old(self)@.lemma_same_grid_wf(self@);
        }
    }

    /// Goes on after a pause and lets the clock run again.
    pub fn unpause(&mut self)
        requires
            old(self)@.wf(),
        ensures
            final(self)@ == old(self)@.unpause(),
            final(self)@.wf(),
    {
        self.mode = Mode::Select;
        clock_start(&mut self.stopwatch);
        self.clock_running = true;
        proof {
            old(self)@.lemma_same_grid_wf(self@);
        }
    }

    /// Shows or hides the count of errors.
    pub fn toggle_hint_num_errors(&mut self)
        requires
            old(self)@.wf(),
        ensures
            final(self)@ == old(self)@.toggle_hint_num_errors(),
            final(self)@.wf(),
    {
        self.hint_num_errors = !self.hint_num_errors;
        proof {
            old(self)@.lemma_same_grid_wf(self@);
        }
    }

    /// Lets the clock run: the session begins.
    pub fn start(&mut self)
        ensures
            final(self)@ == old(self)@.start(),
            old(self)@.wf() ==> final(self)@.wf(),
    {
        clock_start(&mut self.stopwatch);
        self.clock_running = true;
        proof {
            if old(self)@.wf() {
                old(self)@.lemma_same_grid_wf(self@);
            }
        }
    }

    /// Ends the session if the puzzle is solved.
    pub fn settle(&mut self)
        requires
            old(self)@.wf(),
        ensures
            final(self)@ == old(self)@.settle(final(self)@.banked_secs),
            final(self)@.wf(),
    {
        match self.mode {
            Mode::GameOver => {},
            _ => {
                if self.is_game_over() {
                    self.game_over_mode();
                }
            },
        }
    }

    /// Carries out a command and then ends the session if the puzzle is
    /// solved. Returns whether the session goes on: `false` for `Quit`,
    /// which changes nothing.
    pub fn apply(&mut self, cmd: Command) -> (go_on: bool)
        requires
            old(self)@.wf(),
        ensures
            final(self)@ == old(self)@.apply(cmd, final(self)@.banked_secs),
            go_on == (cmd != Command::Quit),
            final(self)@.wf(),
    {
        match cmd {
            Command::Quit => {
                return false;
            },
            Command::Ignore => {},
            Command::Pause => self.pause(),
            Command::Unpause => self.unpause(),
            Command::CluesScrollUp => self.clues_scroll_up(),
            Command::CluesScrollDown => self.clues_scroll_down(),
            Command::SelectMove(d) => self.select_move(d),
            Command::ToggleHintNumErrors => self.toggle_hint_num_errors(),
            Command::EditMode => self.edit_mode(),
            Command::Unguess => self.unguess(),
            Command::EditPrev => self.edit_prev(),
            Command::EditMove(d) => self.edit_move(d),
            Command::SelectMode => self.select_mode(),
            Command::EditDirection => self.edit_direction(),
            Command::Guess(letter) => self.guess(letter),
        }
        self.settle();
        true
    }

    /// Handles one key press: finds the command that the key stands for in
    /// the current mode and applies it. Returns whether the session goes on.
    pub fn update(&mut self, key: KeyEvent) -> (go_on: bool)
        requires
            old(self)@.wf(),
        ensures
            final(self)@ == old(self)@.update(key, final(self)@.banked_secs),
            go_on == (command_of(old(self)@.mode, key, letter_of_key(key)) != Command::Quit),
            final(self)@.wf(),
    {
        let letter = match key {
            KeyEvent::Char(c) => typed_letter(c),
            _ => None,
        };
        let cmd = command_for(self.mode, key, letter);
        self.apply(cmd)
    }

    /// The squares of the grid in row-major order.
    pub fn cells(&self) -> (cells: &Vec<Cell>)
        ensures
            cells@ == self@.cells,
    {
        &self.grid
    }

    /// The number of columns.
    pub fn width(&self) -> (w: u16)
        ensures
            w == self@.width,
    {
        self.width
    }

    /// The number of rows.
    pub fn height(&self) -> (h: u16)
        ensures
            h == self@.height,
    {
        self.height
    }

    /// The column of the cursor.
    pub fn cursor_x(&self) -> (x: u16)
        ensures
            x == self@.cursor_x,
    {
        self.cursor_x
    }

    /// The row of the cursor.
    pub fn cursor_y(&self) -> (y: u16)
        ensures
            y == self@.cursor_y,
    {
        self.cursor_y
    }

    /// The current mode.
    pub fn mode(&self) -> (m: Mode)
        ensures
            m == self@.mode,
    {
        self.mode
    }

    /// The edit mode that was used last.
    pub fn last_edit_mode(&self) -> (m: Mode)
        ensures
            m == self@.last_edit_mode,
    {
        self.last_edit_mode
    }

    /// How many lines the clue list is scrolled down.
    pub fn clues_scroll(&self) -> (n: u16)
        ensures
            n == self@.clues_scroll,
    {
        self.clues_scroll
    }

    /// Whether the session has set its clock running.
    pub fn clock_running(&self) -> (b: bool)
        ensures
            b == self@.clock_running,
    {
        self.clock_running
    }

    /// Whether the count of errors is shown.
    pub fn hint_num_errors(&self) -> (b: bool)
        ensures
            b == self@.hint_num_errors,
    {
        self.hint_num_errors
    }

    /// The title of the puzzle.
    pub fn title(&self) -> (t: &String)
        ensures
            t@ == self@.title,
    {
        &self.title
    }

    /// The author of the puzzle.
    pub fn author(&self) -> (a: &String)
        ensures
            a@ == self@.author,
    {
        &self.author
    }

    /// The whole seconds that the clock has measured so far: the time during
    /// which the session was neither paused nor over. While the clock
    /// stands this is the reading that the session kept when it stopped the
    /// clock, and 0 before the clock first ran; while the clock runs it is
    /// what the clock shows at the time of the call.
    pub fn elapsed_secs(&self) -> (secs: u64)
        ensures
            !self@.clock_running ==> secs == self@.banked_secs,
    {
        if self.clock_running {
            clock_seconds(&self.stopwatch)
        } else {
            self.banked_secs
        }
    }
}

/// Loading hands out every clue of the file exactly once and in file order:
/// the entries of the grid use up as many clues as the file declares, the
/// across clue of a numbered square is the clue at the position that the
/// squares before it have used up, and its down clue comes right behind.
pub proof fn lemma_loading_uses_every_clue(p: PuzFile, i: int)
    requires
        load_error(p) is None,
        0 <= i < p.width * p.height,
    ensures
        layout_of_file(p).clues_needed() == p.num_clues,
        layout_of_file(p).clues_before(i) <= layout_of_file(p).clues_before(i + 1)
            <= p.num_clues,
        layout_of_file(p).clues_before(i + 1) - layout_of_file(p).clues_before(i) == (if loaded(
            p,
        ).cells[i].clue_across is Some {
            1int
        } else {
            0int
        }) + (if loaded(p).cells[i].clue_down is Some {
            1int
        } else {
            0int
        }),
        loaded(p).cells[i].clue_across is Some ==> loaded(p).cells[i].clue_across == Some(
            p.clues@[layout_of_file(p).clues_before(i) as int],
        ),
        loaded(p).cells[i].clue_down is Some ==> loaded(p).cells[i].clue_down == Some(
            p.clues@[layout_of_file(p).clues_before(i + 1) - 1],
        ),
{
    let layout = layout_of_file(p);
    layout.lemma_counts_monotone(i + 1, p.width * p.height);
}

/// The grid of a decoded file always fits: loading a record that the
/// decoder made fails only where a side of the grid is 0 or where the
/// entries of the grid use up another number of clues than the file brings.
pub proof fn lemma_decoded_grid_fits(b: Seq<u8>, p: PuzFile)
    requires
        decode(b) == Ok::<PuzView, DecodeError>(p@),
    ensures
        load_error(p) is None || load_error(p) == Some(DecodeError::MalformedHeader)
            || load_error(p) == Some(DecodeError::ClueCountMismatch),
        load_error(p) == Some(DecodeError::MalformedHeader) <==> p.width == 0 || p.height == 0,
        p.clues@.len() == p.num_clues,
{
    lemma_decode_then_encode(b, p@);
}

impl GameView {
    /// The counts of a well-formed session fit their type, and no count
    /// exceeds the next: errors, guesses, playable squares.
    pub proof fn lemma_status_bounded(self)
        requires
            self.wf(),
        ensures
            self.status().cells == count_cells(self.cells, |c: Cell| is_playable(c)),
            self.status().guesses == count_cells(self.cells, |c: Cell| has_guess(c)),
            self.status().errors == count_cells(self.cells, |c: Cell| is_wrong(c)),
            self.status().cells <= self.width * self.height,
    {
        let playable = |c: Cell| is_playable(c);
        let guessed = |c: Cell| has_guess(c);
        let wrong = |c: Cell| is_wrong(c);
        lemma_count_bounded(self.cells, playable);
        lemma_count_bounded(self.cells, guessed);
        lemma_count_bounded(self.cells, wrong);
        assert(self.width * self.height <= 255 * 255) by (nonlinear_arith)
            requires
                1 <= self.width <= 255,
                1 <= self.height <= 255,
        ;
    }

    /// Clue numbers strictly increase in row-major order: of two numbered
    /// squares of a session the one that comes first has the smaller number.
    pub proof fn lemma_clue_numbers_increase(self, i: int, j: int)
        requires
            self.wf(),
            0 <= i < j < self.cells.len(),
            self.cells[i].clue_number is Some,
            self.cells[j].clue_number is Some,
        ensures
            1 <= self.cells[i].clue_number->0 < self.cells[j].clue_number->0,
    {
        assert(self.cell_ok(i));
        assert(self.cell_ok(j));
        self.layout().lemma_numbers_increase(i, j);
    }

    /// An entry needs a second square: a square in the last column starts no
    /// across entry and a square in the last row starts no down entry, so a
    /// grid of a single square has neither a number nor a clue.
    pub proof fn lemma_single_square_starts_nothing(self)
        requires
            self.wf(),
            self.width == 1,
            self.height == 1,
        ensures
            !self.layout().starts_across(0, 0),
            !self.layout().starts_down(0, 0),
            self.cells[0].clue_number is None,
            self.cells[0].clue_across is None,
            self.cells[0].clue_down is None,
    {
        assert(self.cell_ok(0));
    }

    /// At the left edge the free cursor wraps to the last column and the
    /// editing cursor stays; the other three edges behave alike.
    pub proof fn lemma_moves_at_the_edges(self)
        requires
            self.wf(),
        ensures
            self.cursor_x == 0 ==> self.select_move(Direction::Left).cursor_x == self.width - 1
                && self.edit_move(Direction::Left).cursor_x == 0,
            self.cursor_x == self.width - 1 ==> self.select_move(Direction::Right).cursor_x == 0
                && self.edit_move(Direction::Right).cursor_x == self.cursor_x,
            self.cursor_y == 0 ==> self.select_move(Direction::Up).cursor_y == self.height - 1
                && self.edit_move(Direction::Up).cursor_y == 0,
            self.cursor_y == self.height - 1 ==> self.select_move(Direction::Down).cursor_y == 0
                && self.edit_move(Direction::Down).cursor_y == self.cursor_y,
            self.select_move(Direction::Left).cursor_y == self.cursor_y,
            self.edit_move(Direction::Left).cursor_y == self.cursor_y,
    {
    }

    /// While editing the cursor never moves onto a block: after a move it
    /// is where it was or on a playable square.
    pub proof fn lemma_edit_move_avoids_blocks(self, direction: Direction)
        requires
            self.wf(),
        ensures
            ({
                let next = self.edit_move(direction);
                next.cursor_x == self.cursor_x && next.cursor_y == self.cursor_y
                    || next.layout().is_open(next.cursor_x as int, next.cursor_y as int)
            }),
    {
    }

    /// A grid in which every playable square holds its solution has no
    /// errors and as many guesses as playable squares: it is solved.
    pub proof fn lemma_correct_grid_is_solved(self)
        requires
            self.wf(),
            forall|i: int|
                0 <= i < self.cells.len() && (#[trigger] self.cells[i]).truth is Some
                    ==> self.cells[i].guess == self.cells[i].truth,
        ensures
            self.status().errors == 0,
            self.status().cells == self.status().guesses,
            self.is_solved(),
    {
        let playable = |c: Cell| is_playable(c);
        let guessed = |c: Cell| has_guess(c);
        let wrong = |c: Cell| is_wrong(c);
        self.lemma_status_bounded();
        lemma_count_all_or_none(self.cells, wrong);
        assert forall|i: int| 0 <= i < self.cells.len() implies playable(#[trigger] self.cells[i])
            == guessed(self.cells[i]) by {
            assert(self.cell_ok(i));
        }
        lemma_count_agree(self.cells, playable, guessed);
    }

    /// Whenever a command leaves the puzzle solved, the session is over
    /// with that very command, whatever the clock shows.
    pub proof fn lemma_solved_ends_session(self, cmd: Command, reading: u64)
        requires
            cmd != Command::Quit,
            self.apply(cmd, reading).is_solved(),
        ensures
            self.apply(cmd, reading).mode == Mode::GameOver,
    {
    }

    /// The same for a key press: the key that turns an unsolved puzzle into
    /// a solved one ends the session.
    pub proof fn lemma_solving_key_ends_session(self, key: KeyEvent, reading: u64)
        requires
            !self.is_solved(),
            self.update(key, reading).is_solved(),
        ensures
            self.update(key, reading).mode == Mode::GameOver,
    {
    }

    /// The clock runs only while the puzzle is worked on: a command leaves
    /// it stopped in a paused or finished session, and no command but
    /// `Unpause` sets a stopped clock running.
    pub proof fn lemma_clock_follows_mode(self, cmd: Command, reading: u64)
        requires
            self.wf(),
        ensures
            self.apply(cmd, reading).mode != self.mode && (self.apply(cmd, reading).mode
                == Mode::Pause || self.apply(cmd, reading).mode == Mode::GameOver)
                ==> !self.apply(cmd, reading).clock_running,
            self.apply(cmd, reading).clock_running && !self.clock_running ==> cmd
                == Command::Unpause,
            cmd == Command::Unpause ==> self.apply(cmd, reading).clock_running || self.apply(
                cmd,
                reading,
            ).mode == Mode::GameOver,
    {
        if cmd != Command::Quit {
            let obeyed = self.obey(cmd, reading);
            assert(obeyed.mode == Mode::Pause ==> cmd == Command::Pause || obeyed.mode
                == self.mode);
            assert(obeyed.mode == Mode::GameOver ==> obeyed.mode == self.mode);
            assert(self.apply(cmd, reading) == obeyed.settle(reading));
        }
    }

    /// A clock that stands keeps its reading: as long as no command sets
    /// the clock running, what the session has kept of the elapsed time
    /// changes with no command, whatever the clock shows. It changes only
    /// where a command stops a running clock, and then to what the clock
    /// shows.
    pub proof fn lemma_stopped_clock_keeps_its_reading(self, cmd: Command, reading: u64)
        requires
            self.wf(),
        ensures
            !self.clock_running && cmd != Command::Unpause ==> self.apply(cmd, reading).banked_secs
                == self.banked_secs && !self.apply(cmd, reading).clock_running,
            self.apply(cmd, reading).banked_secs == self.banked_secs || self.apply(
                cmd,
                reading,
            ).banked_secs == reading,
            self.clock_running && !self.apply(cmd, reading).clock_running ==> self.apply(
                cmd,
                reading,
            ).banked_secs == reading,
    {
        if cmd != Command::Quit {
            let obeyed = self.obey(cmd, reading);
            assert(self.apply(cmd, reading) == obeyed.settle(reading));
            assert(cmd != Command::Pause && cmd != Command::Unpause ==> obeyed.clock_running
                == self.clock_running && obeyed.banked_secs == self.banked_secs);
        }
    }

    /// A finished session takes no more input: every key asks to close it
    /// and changes nothing.
    pub proof fn lemma_game_over_is_final(self, key: KeyEvent, reading: u64)
        requires
            self.mode == Mode::GameOver,
        ensures
            command_of(self.mode, key, letter_of_key(key)) == Command::Quit,
            self.update(key, reading) == self,
    {
    }

    /// A paused session only waits: a key leaves it paused, closes it, or
    /// resumes it in `Select` mode, and neither grid nor cursor change.
    pub proof fn lemma_pause_only_resumes(self, key: KeyEvent, reading: u64)
        requires
            self.mode == Mode::Pause,
            !self.is_solved(),
        ensures
            self.update(key, reading) == self || self.update(key, reading) == self.unpause(),
    {
        let cmd = command_of(self.mode, key, letter_of_key(key));
        assert(cmd == Command::Ignore || cmd == Command::Quit || cmd == Command::Unpause);
        assert(self.unpause().cells == self.cells);
        assert(self.unpause().status() == self.status());
    }

    /// Settling changes nothing but the mode and the clock.
    pub proof fn lemma_settle_keeps_the_rest(self, reading: u64)
        ensures
            self.settle(reading) == self || self.settle(reading) == self.game_over_mode(reading),
            self.settle(reading).cells == self.cells,
            self.settle(reading).width == self.width,
            self.settle(reading).height == self.height,
            self.settle(reading).cursor_x == self.cursor_x,
            self.settle(reading).cursor_y == self.cursor_y,
    {
    }

    /// Moving the cursor and changing the mode never touch the grid: only
    /// `Guess` and `Unguess` change a square, and only the one under the
    /// cursor, and only its guess.
    pub proof fn lemma_commands_keep_the_grid(self, cmd: Command, reading: u64, i: int)
        requires
            self.wf(),
            0 <= i < self.cells.len(),
        ensures
            self.apply(cmd, reading).cells.len() == self.cells.len(),
            self.apply(cmd, reading).width == self.width,
            self.apply(cmd, reading).height == self.height,
            self.apply(cmd, reading).cells[i].truth == self.cells[i].truth,
            self.apply(cmd, reading).cells[i].clue_number == self.cells[i].clue_number,
            self.apply(cmd, reading).cells[i].clue_across == self.cells[i].clue_across,
            self.apply(cmd, reading).cells[i].clue_down == self.cells[i].clue_down,
            self.apply(cmd, reading).cells[i].guess != self.cells[i].guess ==> i
                == self.cursor_index() && (cmd is Guess || cmd == Command::Unguess),
    {
        lemma_index_in_range(
            self.width as int,
            self.height as int,
            self.cursor_x as int,
            self.cursor_y as int,
        );
        let obeyed = self.obey(cmd, reading);
        obeyed.lemma_settle_keeps_the_rest(reading);
        match cmd {
            Command::Guess(letter) => {
                let stored = self.with_guess(Some(letter));
                assert(stored.edit_next().cells == stored.cells);
                assert(obeyed.cells == self.cells || obeyed.cells == stored.cells);
            },
            Command::Unguess => {
                assert(obeyed.cells == self.with_guess(None).cells);
            },
            _ => {
                assert(obeyed.cells == self.cells);
            },
        }
    }

    /// A guess on a block is refused: nothing changes. On a playable square
    /// the letter is stored as it is given.
    pub proof fn lemma_guess_on_block(self, letter: char)
        requires
            self.wf(),
        ensures
            self.cursor_cell().truth is None ==> self.guess(letter) == self,
            self.cursor_cell().truth is Some ==> self.guess(letter).cells[self.cursor_index()].guess
                == Some(letter),
    {
        lemma_index_in_range(
            self.width as int,
            self.height as int,
            self.cursor_x as int,
            self.cursor_y as int,
        );
    }
}

} // verus!
