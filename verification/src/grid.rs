//! The grid of cells.

use vstd::prelude::*;

use crate::index::{Column, Line, Point, Pos};

verus! {

/// What a cell is marked as.
#[derive(Clone, Copy, Debug, PartialEq, Eq, Structural)]
pub struct Flags {
    /// The cell holds a character that is two columns wide.
    pub wide_char: bool,
    /// The cell is the second column of a character that is two columns wide.
    pub wide_char_spacer: bool,
}

/// One cell of the grid.
#[derive(Clone, Copy, Debug, PartialEq, Eq, Structural)]
pub struct Cell {
    pub c: char,
    pub flags: Flags,
}

impl Default for Cell {
    /// A cell with a space and no marks.
    fn default() -> (cell: Cell)
        ensures
            cell == (Cell {
                c: ' ',
                flags: Flags { wide_char: false, wide_char_spacer: false },
            }),
    {
        Cell { c: ' ', flags: Flags { wide_char: false, wide_char_spacer: false } }
    }
}

/// A rectangle of cells. Its lines are counted from the bottom.
pub struct Grid {
    cols: Column,
    rows: Vec<Vec<Cell>>,
}

impl Grid {
    /// The number of lines.
    pub closed spec fn lines(self) -> int {
        self.rows@.len() as int
    }

    /// The number of columns.
    pub closed spec fn cols(self) -> int {
        self.cols.0 as int
    }

    /// The cell at a place.
    pub closed spec fn cell_at(self, pos: Pos) -> Cell {
        self.rows@[pos.line]@[pos.col]
    }

    /// Whether a place lies in the grid.
    pub open spec fn contains(self, pos: Pos) -> bool {
        0 <= pos.line < self.lines() && 0 <= pos.col < self.cols()
    }

    /// All rows have as many cells as there are columns, and lines and cells can be counted.
    pub closed spec fn wf(self) -> bool {
        &&& self.rows@.len() <= isize::MAX
        &&& self.rows@.len() * self.cols.0 <= usize::MAX
        &&& forall|line: int|
            0 <= line < self.rows@.len() ==> (#[trigger] self.rows@[line])@.len() == self.cols.0
    }

    /// How many cells there are.
    pub open spec fn size(self) -> int {
        self.lines() * self.cols()
    }

    /// How many cells precede a place in reading order.
    pub open spec fn offset(self, pos: Pos) -> int {
        (self.lines() - 1 - pos.line) * self.cols() + pos.col
    }

    /// The place that a number of cells precede in reading order.
    pub open spec fn pos_at(self, offset: int) -> Pos {
        Pos { line: self.lines() - 1 - offset / self.cols(), col: offset % self.cols() }
    }

    /// A place in the grid has an offset below the number of cells, which stands for it alone.
    pub proof fn lemma_offset(self, pos: Pos)
        requires
            self.contains(pos),
        ensures
            0 <= self.offset(pos) < self.size(),
            self.pos_at(self.offset(pos)) == pos,
    {
        let up = self.lines() - 1 - pos.line;
        let cols = self.cols();
        assert(0 <= up * cols && (up + 1) * cols == up * cols + cols && (up + 1) * cols
            <= self.lines() * cols) by (nonlinear_arith)
            requires
                0 <= up < self.lines(),
                0 <= cols,
        ;
        vstd::arithmetic::div_mod::lemma_fundamental_div_mod_converse(
            up * cols + pos.col,
            cols,
            up,
            pos.col,
        );
    }

    /// An offset below the number of cells has a place in the grid.
    pub proof fn lemma_pos_at(self, offset: int)
        requires
            0 <= offset < self.size(),
        ensures
            self.contains(self.pos_at(offset)),
            self.offset(self.pos_at(offset)) == offset,
    {
        let cols = self.cols();
        let up = offset / cols;
        assert(0 < cols) by (nonlinear_arith)
            requires
                0 < self.lines() * cols,
                0 <= cols,
        ;
        vstd::arithmetic::div_mod::lemma_fundamental_div_mod(offset, cols);
        assert(0 <= up < self.lines()) by (nonlinear_arith)
            requires
                0 <= offset < self.lines() * cols,
                offset == cols * up + offset % cols,
                0 <= offset % cols < cols,
        ;
        assert(cols * up == up * cols) by (nonlinear_arith);
    }

    /// Offsets grow in reading order. The first place may lie to the right of its line.
    pub proof fn lemma_reading_order(self, a: Pos, b: Pos)
        requires
            0 <= a.col <= self.cols(),
            0 <= b.col < self.cols(),
        ensures
            a.reads_no_later(b) <==> self.offset(a) <= self.offset(b),
    {
        let lines = self.lines();
        let cols = self.cols();
        if a.line > b.line {
            assert((lines - 1 - a.line) * cols + cols <= (lines - 1 - b.line) * cols)
                by (nonlinear_arith)
                requires
                    a.line > b.line,
                    cols > 0,
            ;
        } else if a.line < b.line {
            assert((lines - 1 - b.line) * cols + cols <= (lines - 1 - a.line) * cols)
                by (nonlinear_arith)
                requires
                    a.line < b.line,
                    cols > 0,
            ;
        }
    }

    /// The cells can be counted.
    pub proof fn lemma_size(self)
        requires
            self.wf(),
        ensures
            0 <= self.lines() <= isize::MAX,
            0 <= self.cols() <= usize::MAX,
            self.size() <= usize::MAX,
    {
    }

    /// A grid in which every cell is `template`.
    pub fn new(lines: Line, cols: Column, template: Cell) -> (grid: Grid)
        requires
            lines.0 <= isize::MAX,
            lines.0 * cols.0 <= usize::MAX,
        ensures
            grid.wf(),
            grid.lines() == lines.0,
            grid.cols() == cols.0,
            forall|pos: Pos| grid.contains(pos) ==> #[trigger] grid.cell_at(pos) == template,
    {
        let mut rows: Vec<Vec<Cell>> = Vec::new();
        let mut line: usize = 0;
        while line < lines.0
            invariant
                line <= lines.0,
                rows@.len() == line,
                forall|i: int|
                    0 <= i < line ==> (#[trigger] rows@[i])@ == Seq::new(
                        cols.0 as nat,
                        |j: int| template,
                    ),
            decreases lines.0 - line,
        {
            let mut row: Vec<Cell> = Vec::new();
            let mut col: usize = 0;
            while col < cols.0
                invariant
                    col <= cols.0,
                    row@ == Seq::new(col as nat, |j: int| template),
                decreases cols.0 - col,
            {
                row.push(template);
                col += 1;
            }
            rows.push(row);
            line += 1;
        }
        Grid { cols, rows }
    }

    /// The number of lines.
    pub fn num_lines(&self) -> (lines: Line)
        ensures
            lines.0 == self.lines(),
    {
        Line(self.rows.len())
    }

    /// The number of columns.
    pub fn num_cols(&self) -> (cols: Column)
        ensures
            cols.0 == self.cols(),
    {
        self.cols
    }

    /// The cell at a place.
    pub fn cell(&self, point: Point<usize>) -> (cell: Cell)
        requires
            self.wf(),
            self.contains(point@),
        ensures
            cell == self.cell_at(point@),
    {
        self.rows[point.line][point.col.0]
    }

    /// The cell at a place, to be changed.
    pub fn cell_mut(&mut self, point: Point<usize>) -> (cell: &mut Cell)
        requires
            old(self).wf(),
            old(self).contains(point@),
        ensures
            *cell == old(self).cell_at(point@),
            final(self).wf(),
            final(self).lines() == old(self).lines(),
            final(self).cols() == old(self).cols(),
            final(self).cell_at(point@) == *final(cell),
            forall|pos: Pos|
                pos != point@ && old(self).contains(pos) ==> #[trigger] final(self).cell_at(pos)
                    == old(self).cell_at(pos),
    {
        &mut self.rows[point.line][point.col.0]
    }

    /// The place after `point` in reading order, if there is one.
    pub(crate) fn next(&self, point: Point<usize>) -> (next: Option<Point<usize>>)
        requires
            self.wf(),
            self.contains(point@),
        ensures
            next is Some <==> self.offset(point@) + 1 < self.size(),
            next matches Some(next) ==> {
                &&& self.contains(next@)
                &&& self.offset(next@) == self.offset(point@) + 1
            },
    {
        proof {
            self.lemma_offset(point@);
        }
        if point.col.0 + 1 < self.cols.0 {
            proof {
                self.lemma_offset(Pos { line: point.line as int, col: point.col.0 + 1 });
            }
            Some(Point { line: point.line, col: Column(point.col.0 + 1) })
        } else if point.line > 0 {
            proof {
                self.lemma_offset(Pos { line: point.line - 1, col: 0 });
                assert((self.lines() - 1 - (point.line - 1)) * self.cols() == (self.lines() - 1
                    - point.line) * self.cols() + self.cols()) by (nonlinear_arith);
            }
            Some(Point { line: point.line - 1, col: Column(0) })
        } else {
            assert((self.lines() - 1) * self.cols() + self.cols() == self.size())
                by (nonlinear_arith)
                requires
                    self.size() == self.lines() * self.cols(),
            ;
            None
        }
    }

    /// The place before `point` in reading order, if there is one.
    pub(crate) fn prev(&self, point: Point<usize>) -> (prev: Option<Point<usize>>)
        requires
            self.wf(),
            self.contains(point@),
        ensures
            prev is Some <==> self.offset(point@) > 0,
            prev matches Some(prev) ==> {
                &&& self.contains(prev@)
                &&& self.offset(prev@) == self.offset(point@) - 1
            },
    {
        proof {
            self.lemma_offset(point@);
        }
        if point.col.0 > 0 {
            proof {
                self.lemma_offset(Pos { line: point.line as int, col: point.col.0 - 1 });
            }
            Some(Point { line: point.line, col: Column(point.col.0 - 1) })
        } else if point.line + 1 < self.rows.len() {
            proof {
                self.lemma_offset(Pos { line: point.line + 1, col: self.cols() - 1 });
                assert((self.lines() - 1 - (point.line + 1)) * self.cols() == (self.lines() - 1
                    - point.line) * self.cols() - self.cols()) by (nonlinear_arith);
            }
            Some(Point { line: point.line + 1, col: Column(self.cols.0 - 1) })
        } else {
            assert(0 * self.cols() == 0);
            None
        }
    }
}

} // verus!
