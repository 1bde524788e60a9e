//! What a display needs to draw a session: the face of each square and the
//! lines of the clue list.

use crate::game::{Game, GameView, Mode};
use crate::grid::Cell;
use vstd::prelude::*;

verus! {

/// What a display shows of one square.
#[derive(Debug, Clone, Copy, PartialEq, Eq, Structural)]
pub struct CellFace {
    /// The square is a block.
    pub block: bool,
    /// The number printed in the square.
    pub number: Option<u16>,
    /// The letter that the solver has entered.
    pub guess: Option<char>,
    /// The square is being edited across: its right border shows an arrow.
    pub arrow_right: bool,
    /// The square is being edited down: its lower border shows an arrow.
    pub arrow_down: bool,
    /// The square lies in the last column.
    pub last_column: bool,
    /// The square lies in the last row.
    pub last_row: bool,
}

/// One line of the clue list.
#[derive(Debug)]
pub enum ClueLine {
    /// The heading of the across clues.
    AcrossHeading,
    /// The heading of the down clues.
    DownHeading,
    /// An empty line.
    Blank,
    /// A clue with its number; `current` marks the clues of the square
    /// under the cursor.
    Clue { number: u16, text: String, current: bool },
}

/// What a display has to draw again after a step of the session.
#[derive(Debug, Clone, Copy, PartialEq, Eq, Structural)]
pub enum Repaint {
    /// Nothing: the display shows a notice, and it still applies.
    Nothing,
    /// The notice that the session is paused, in place of the board.
    PauseNotice,
    /// The notice that the session is over, in place of the board.
    GameOverNotice,
    /// The board on an emptied display: a notice was shown before.
    ClearedBoard,
    /// The board, drawn over itself.
    Board,
}

/// What has to be drawn again when the mode was `before` and is `after`.
pub open spec fn repaint_of(before: Mode, after: Mode) -> Repaint {
    if after == Mode::Pause {
        if before == Mode::Pause {
            Repaint::Nothing
        } else {
            Repaint::PauseNotice
        }
    } else if after == Mode::GameOver {
        if before == Mode::GameOver {
            Repaint::Nothing
        } else {
            Repaint::GameOverNotice
        }
    } else if before == Mode::Pause || before == Mode::GameOver {
        Repaint::ClearedBoard
    } else {
        Repaint::Board
    }
}

/// Decides what a display has to draw again after a step that began in the
/// mode `before` and ended in the mode `after`.
pub fn repaint_for(before: Mode, after: Mode) -> (r: Repaint)
    ensures
        r == repaint_of(before, after),
{
    match (before, after) {
        (Mode::Pause, Mode::Pause) | (Mode::GameOver, Mode::GameOver) => Repaint::Nothing,
        (_, Mode::Pause) => Repaint::PauseNotice,
        (_, Mode::GameOver) => Repaint::GameOverNotice,
        (Mode::Pause, _) | (Mode::GameOver, _) => Repaint::ClearedBoard,
        _ => Repaint::Board,
    }
}

/// The clue of a square in one direction.
pub open spec fn clue_of(c: Cell, across: bool) -> Option<String> {
    if across {
        c.clue_across
    } else {
        c.clue_down
    }
}

/// The number of a square, 0 where it has none.
pub open spec fn number_of(c: Cell) -> u16 {
    match c.clue_number {
        Some(n) => n,
        None => 0,
    }
}

impl GameView {
    /// The face of the square at `(x, y)`. An arrow marks the square under
    /// the cursor while it is edited, unless it is a block.
    pub open spec fn cell_face(self, x: int, y: int) -> CellFace {
        let c = self.cell(x, y);
        let here = self.cursor_x == x && self.cursor_y == y && c.truth is Some;
        CellFace {
            block: c.truth is None,
            number: c.clue_number,
            guess: c.guess,
            arrow_right: here && self.mode == Mode::EditAcross,
            arrow_down: here && self.mode == Mode::EditDown,
            last_column: x == self.width - 1,
            last_row: y == self.height - 1,
        }
    }

    /// The line of the clue list for a clue of square `c`.
    pub open spec fn clue_line(self, c: Cell, text: String) -> ClueLine {
        ClueLine::Clue {
            number: number_of(c),
            text,
            current: c.clue_number is Some && self.cursor_cell().clue_number == c.clue_number,
        }
    }

    /// The clues of one direction that start in the squares with an index
    /// below `upto`, in row-major order.
    pub open spec fn clue_entries(self, across: bool, upto: int) -> Seq<ClueLine>
        decreases upto,
    {
        if upto <= 0 {
            Seq::empty()
        } else {
            let before = self.clue_entries(across, upto - 1);
            let c = self.cells[upto - 1];
            match clue_of(c, across) {
                Some(text) => before.push(self.clue_line(c, text)),
                None => before,
            }
        }
    }

    /// The whole clue list: the across clues under their heading, then the
    /// down clues under theirs.
    pub open spec fn clue_lines(self) -> Seq<ClueLine> {
        seq![ClueLine::AcrossHeading, ClueLine::Blank] + self.clue_entries(
            true,
            self.cells.len() as int,
        ) + seq![ClueLine::Blank, ClueLine::DownHeading, ClueLine::Blank] + self.clue_entries(
            false,
            self.cells.len() as int,
        )
    }

    /// The first line of the clue list that is shown: as many lines are
    /// skipped as the list is scrolled, but no more than it has.
    pub open spec fn first_visible_line(self) -> int {
        if self.clues_scroll <= self.clue_lines().len() {
            self.clues_scroll as int
        } else {
            self.clue_lines().len() as int
        }
    }

    /// The line behind the last that is shown in `rows` rows.
    pub open spec fn end_of_visible_lines(self, rows: int) -> int {
        if self.first_visible_line() + rows <= self.clue_lines().len() {
            self.first_visible_line() + rows
        } else {
            self.clue_lines().len() as int
        }
    }

    /// The lines of the clue list that are shown in `rows` rows. Scrolled
    /// past its end the list shows nothing.
    pub open spec fn visible_clue_lines(self, rows: int) -> Seq<ClueLine> {
        self.clue_lines().subrange(self.first_visible_line(), self.end_of_visible_lines(rows))
    }
}

impl Game {
    /// What a display shows of the square at `(x, y)`.
    pub fn cell_face(&self, x: u16, y: u16) -> (face: CellFace)
        requires
            self@.wf(),
            x < self@.width,
            y < self@.height,
        ensures
            face == self@.cell_face(x as int, y as int),
    {
        let c = self.get(x, y);
        let here = self.cursor_x() == x && self.cursor_y() == y && c.truth.is_some();
        let mode = self.mode();
        CellFace {
            block: c.truth.is_none(),
            number: c.clue_number,
            guess: c.guess,
            arrow_right: here && mode == Mode::EditAcross,
            arrow_down: here && mode == Mode::EditDown,
            last_column: x == self.width() - 1,
            last_row: y == self.height() - 1,
        }
    }

    /// Appends to `lines` the clues of one direction in row-major order.
    fn push_clue_entries(&self, lines: &mut Vec<ClueLine>, across: bool)
        requires
            self@.wf(),
        ensures
            final(lines)@ == old(lines)@ + self@.clue_entries(across, self@.cells.len() as int),
    {
        let cells = self.cells();
        let cursor_number = self.get(self.cursor_x(), self.cursor_y()).clue_number;
        let n = cells.len();
        let mut i: usize = 0;
        assert(self@.clue_entries(across, 0) =~= Seq::empty());
        while i < n
            invariant
                self@.wf(),
                cells@ == self@.cells,
                n == cells@.len(),
                i <= n,
                cursor_number == self@.cursor_cell().clue_number,
                lines@ == old(lines)@ + self@.clue_entries(across, i as int),
            decreases n - i,
        {
            let cell = &cells[i];
            let clue = if across {
                &cell.clue_across
            } else {
                &cell.clue_down
            };
            match clue {
                Some(text) => {
                    let (number, current) = match cell.clue_number {
                        Some(m) => (
                            m,
                            match cursor_number {
                                Some(c) => c == m,
                                None => false,
                            },
                        ),
                        None => (0, false),
                    };
                    lines.push(ClueLine::Clue { number, text: text.clone(), current });
                },
                None => {},
            }
            assert(lines@ =~= old(lines)@ + self@.clue_entries(across, i + 1));
            i += 1;
        }
    }

    /// The whole clue list: the across clues under their heading, then the
    /// down clues under theirs, each clue with its number. The clues of the
    /// square under the cursor are marked.
    pub fn clue_lines(&self) -> (lines: Vec<ClueLine>)
        requires
            self@.wf(),
        ensures
            lines@ == self@.clue_lines(),
    {
        let mut lines: Vec<ClueLine> = Vec::new();
        lines.push(ClueLine::AcrossHeading);
        lines.push(ClueLine::Blank);
        self.push_clue_entries(&mut lines, true);
        lines.push(ClueLine::Blank);
        lines.push(ClueLine::DownHeading);
        lines.push(ClueLine::Blank);
        self.push_clue_entries(&mut lines, false);
        assert(lines@ =~= self@.clue_lines());
        lines
    }

    /// The lines of the clue list that a display of `rows` rows shows: the
    /// list from the line on to which it is scrolled.
    pub fn visible_clue_lines(&self, rows: u16) -> (lines: Vec<ClueLine>)
        requires
            self@.wf(),
        ensures
            lines@ == self@.visible_clue_lines(rows as int),
            lines@.len() <= rows,
    {
        let mut lines = self.clue_lines();
        let total = lines.len();
        let scroll = self.clues_scroll() as usize;
        let first = if scroll <= total {
            scroll
        } else {
            total
        };
        let end = if total - first >= rows as usize {
            first + rows as usize
        } else {
            total
        };
        lines.truncate(end);
        let shown = lines.split_off(first);
        assert(shown@ =~= self@.visible_clue_lines(rows as int));
        shown
    }
}

} // verus!
