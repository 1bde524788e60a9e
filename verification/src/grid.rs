//! The crossword grid: its cells, which of them start an entry, and the
//! numbers and clues that the entries get.

use vstd::prelude::*;

verus! {

/// One square of the grid.
#[derive(Debug)]
pub struct Cell {
    /// The solution letter; `None` for a block.
    pub truth: Option<char>,
    /// What the solver has entered; `None` while the square is empty.
    pub guess: Option<char>,
    /// The number printed in the square, if an entry starts here.
    pub clue_number: Option<u16>,
    /// The clue of the across entry that starts here.
    pub clue_across: Option<String>,
    /// The clue of the down entry that starts here.
    pub clue_down: Option<String>,
}

/// Which squares of a grid are playable. Squares lie in rows, and the square
/// in column `x` of row `y` has the index `y * width + x`.
pub struct Layout {
    pub width: int,
    pub height: int,
    pub open: Seq<bool>,
}

impl Layout {
    /// Both sides are between 1 and 255 and there is one flag per square.
    pub open spec fn wf(self) -> bool {
        &&& 1 <= self.width <= 255
        &&& 1 <= self.height <= 255
        &&& self.open.len() == self.width * self.height
    }

    /// The square at `(x, y)` lies on the grid and is no block.
    pub open spec fn is_open(self, x: int, y: int) -> bool {
        0 <= x < self.width && 0 <= y < self.height && self.open[y * self.width + x]
    }

    /// An across entry starts at `(x, y)`: the square is playable, nothing
    /// playable lies to its left, and the square to its right is playable.
    pub open spec fn starts_across(self, x: int, y: int) -> bool {
        self.is_open(x, y) && !self.is_open(x - 1, y) && self.is_open(x + 1, y)
    }

    /// A down entry starts at `(x, y)`: the square is playable, nothing
    /// playable lies above it, and the square below it is playable.
    pub open spec fn starts_down(self, x: int, y: int) -> bool {
        self.is_open(x, y) && !self.is_open(x, y - 1) && self.is_open(x, y + 1)
    }

    /// An across entry starts at the square with index `i`.
    pub open spec fn across_at(self, i: int) -> bool {
        self.starts_across(i % self.width, i / self.width)
    }

    /// A down entry starts at the square with index `i`.
    pub open spec fn down_at(self, i: int) -> bool {
        self.starts_down(i % self.width, i / self.width)
    }

    /// The square with index `i` carries a number.
    pub open spec fn numbered_at(self, i: int) -> bool {
        self.across_at(i) || self.down_at(i)
    }

    /// How many squares with an index below `i` carry a number.
    pub open spec fn numbers_before(self, i: int) -> nat
        decreases i,
    {
        if i <= 0 {
            0
        } else {
            self.numbers_before(i - 1) + if self.numbered_at(i - 1) {
                1nat
            } else {
                0nat
            }
        }
    }

    /// How many clues the squares with an index below `i` use up: one for
    /// each across entry and one for each down entry that starts there.
    pub open spec fn clues_before(self, i: int) -> nat
        decreases i,
    {
        if i <= 0 {
            0
        } else {
            self.clues_before(i - 1) + if self.across_at(i - 1) {
                1nat
            } else {
                0nat
            } + if self.down_at(i - 1) {
                1nat
            } else {
                0nat
            }
        }
    }

    /// How many clues the whole grid uses up.
    pub open spec fn clues_needed(self) -> nat {
        self.clues_before(self.width * self.height)
    }

    /// The number of the square with index `i`: numbers count up from 1 in
    /// row-major order over the squares that start an entry.
    pub open spec fn number_at(self, i: int) -> Option<u16> {
        if self.numbered_at(i) {
            Some((self.numbers_before(i) + 1) as u16)
        } else {
            None
        }
    }

    /// Where in the clue list the across clue of square `i` stands.
    pub open spec fn across_clue_index(self, i: int) -> int {
        self.clues_before(i) as int
    }

    /// Where in the clue list the down clue of square `i` stands: behind the
    /// across clue of the same square, if it has one.
    pub open spec fn down_clue_index(self, i: int) -> int {
        self.clues_before(i) + if self.across_at(i) {
            1int
        } else {
            0int
        }
    }
}

/// The layout that a row-major solution text describes: `'.'` is a block.
pub open spec fn layout_of_text(puzzle: Seq<char>, width: int, height: int) -> Layout {
    Layout { width, height, open: Seq::new(puzzle.len(), |i: int| puzzle[i] != '.') }
}

/// The layout of a sequence of cells.
pub open spec fn layout_of_cells(cells: Seq<Cell>, width: int, height: int) -> Layout {
    Layout { width, height, open: Seq::new(cells.len(), |i: int| cells[i].truth is Some) }
}

/// The index of a square on the grid is below the number of squares.
pub proof fn lemma_index_in_range(width: int, height: int, x: int, y: int)
    requires
        0 <= x < width,
        0 <= y < height,
    ensures
        0 <= y * width + x < width * height,
        y * width + x <= (height - 1) * width + (width - 1),
        (y * width + x) % width == x,
        (y * width + x) / width == y,
{
    assert(0 <= y * width) by (nonlinear_arith)
        requires
            0 <= y,
            0 <= width,
    ;
    assert((y + 1) * width <= height * width) by (nonlinear_arith)
        requires
            y + 1 <= height,
            0 <= width,
    ;
    assert((y + 1) * width == y * width + width) by (nonlinear_arith);
    assert(height * width == width * height) by (nonlinear_arith);
    assert((height - 1) * width == height * width - width) by (nonlinear_arith);
    vstd::arithmetic::div_mod::lemma_fundamental_div_mod_converse(y * width + x, width, y, x);
}

impl Layout {
    /// Squares up to `i` carry at most `i` numbers and use at most `2 * i`
    /// clues.
    pub proof fn lemma_counts_bounded(self, i: int)
        requires
            0 <= i,
        ensures
            self.numbers_before(i) <= i,
            self.clues_before(i) <= 2 * i,
            self.numbers_before(i) <= self.clues_before(i),
        decreases i,
    {
        if i > 0 {
            self.lemma_counts_bounded(i - 1);
        }
    }

    /// Both counts grow with the index.
    pub proof fn lemma_counts_monotone(self, i: int, j: int)
        requires
            0 <= i <= j,
        ensures
            self.numbers_before(i) <= self.numbers_before(j),
            self.clues_before(i) <= self.clues_before(j),
        decreases j - i,
    {
        if i < j {
            self.lemma_counts_monotone(i, j - 1);
        }
    }

    /// Clue numbers strictly increase in row-major order: of two numbered
    /// squares the one with the smaller index has the smaller number, and
    /// the first number is at least 1.
    pub proof fn lemma_numbers_increase(self, i: int, j: int)
        requires
            self.wf(),
            0 <= i < j < self.width * self.height,
            self.numbered_at(i),
            self.numbered_at(j),
        ensures
            1 <= self.number_at(i)->0 < self.number_at(j)->0,
    {
        self.lemma_counts_monotone(i + 1, j);
        self.lemma_counts_bounded(i);
        self.lemma_counts_bounded(j);
        assert(self.width * self.height <= 255 * 255) by (nonlinear_arith)
            requires
                1 <= self.width <= 255,
                1 <= self.height <= 255,
        ;
        assert(self.numbers_before(i + 1) == self.numbers_before(i) + 1);
    }

    /// An entry needs a second square: no across entry starts in the last
    /// column and no down entry starts in the last row. On a grid of one
    /// square nothing starts at all.
    pub proof fn lemma_entry_needs_neighbour(self, x: int, y: int)
        ensures
            self.starts_across(x, y) ==> x + 1 < self.width && self.is_open(x + 1, y),
            self.starts_down(x, y) ==> y + 1 < self.height && self.is_open(x, y + 1),
            self.width == 1 ==> !self.starts_across(x, y),
            self.height == 1 ==> !self.starts_down(x, y),
    {
    }
}

} // verus!
