//! Coordinates in the grid.
//!
//! Lines of the scrollback buffer are counted from the bottom: line zero is the last line, and a
//! greater number lies further up. Columns are counted from the left.

use vstd::prelude::*;

verus! {

/// The half of a cell that a point falls into.
#[derive(Clone, Copy, Debug, PartialEq, Eq, Structural)]
pub enum Side {
    Left,
    Right,
}

/// A number of lines.
#[derive(Clone, Copy, Debug, PartialEq, Eq, Structural)]
pub struct Line(pub usize);

/// A column, or a number of columns.
#[derive(Clone, Copy, Debug, PartialEq, Eq, Structural)]
pub struct Column(pub usize);

/// A place in the grid, with lines of type `L`.
#[derive(Clone, Copy, Debug, PartialEq, Eq, Structural)]
pub struct Point<L = Line> {
    pub line: L,
    pub col: Column,
}

impl<L> Point<L> {
    /// The place on `line` and in `col`.
    pub fn new(line: L, col: Column) -> (point: Point<L>)
        ensures
            point.line == line,
            point.col == col,
    {
        Point { line, col }
    }
}

/// A place in the grid without bounds on its coordinates: what a [`Point`] stands for.
pub struct Pos {
    pub line: int,
    pub col: int,
}

impl View for Point<usize> {
    type V = Pos;

    open spec fn view(&self) -> Pos {
        Pos { line: self.line as int, col: self.col.0 as int }
    }
}

impl View for Point<isize> {
    type V = Pos;

    open spec fn view(&self) -> Pos {
        Pos { line: self.line as int, col: self.col.0 as int }
    }
}

/// The signed line that an unsigned one becomes: itself where it fits, else wrapped round.
pub open spec fn signed_line(line: usize) -> int {
    if line <= isize::MAX {
        line as int
    } else {
        line - usize::MAX - 1
    }
}

/// The unsigned line that a signed one becomes: itself where it is not negative, else wrapped
/// round.
pub open spec fn unsigned_line(line: isize) -> int {
    if line >= 0 {
        line as int
    } else {
        line + usize::MAX + 1
    }
}

impl Pos {
    /// Whether `self` comes no later than `other` in reading order: on a line further up, or on
    /// the same line and no further to the right.
    pub open spec fn reads_no_later(self, other: Pos) -> bool {
        self.line > other.line || self.line == other.line && self.col <= other.col
    }

    /// The place that many lines further up.
    pub open spec fn up(self, lines: int) -> Pos {
        Pos { line: self.line + lines, col: self.col }
    }

    /// The place that a point with an unsigned line becomes as one with a signed line.
    pub open spec fn signed(point: Point<usize>) -> Pos {
        Pos { line: signed_line(point.line), col: point.col.0 as int }
    }
}

proof fn lemma_signed_line(line: usize)
    ensures
        line as isize == signed_line(line),
{
    if usize::BITS == 64 {
        assert(line > 0x7fff_ffff_ffff_ffff ==> line as isize == line - 0x1_0000_0000_0000_0000)
            by (bit_vector)
            requires
                usize::BITS == 64,
        ;
    } else {
        assert(line > 0x7fff_ffff ==> line as isize == line - 0x1_0000_0000) by (bit_vector)
            requires
                usize::BITS == 32,
        ;
    }
}

proof fn lemma_unsigned_line(line: isize)
    ensures
        line as usize == unsigned_line(line),
{
    if usize::BITS == 64 {
        assert(line < 0 ==> line as usize == line + 0x1_0000_0000_0000_0000) by (bit_vector)
            requires
                usize::BITS == 64,
        ;
    } else {
        assert(line < 0 ==> line as usize == line + 0x1_0000_0000) by (bit_vector)
            requires
                usize::BITS == 32,
        ;
    }
}

impl From<Point<usize>> for Point<isize> {
    fn from(point: Point<usize>) -> (signed: Point<isize>) {
        proof {
            lemma_signed_line(point.line);
        }
        Point { line: point.line as isize, col: point.col }
    }
}

impl vstd::std_specs::convert::FromSpecImpl<Point<usize>> for Point<isize> {
    open spec fn obeys_from_spec() -> bool {
        true
    }

    open spec fn from_spec(point: Point<usize>) -> Point<isize> {
        Point { line: signed_line(point.line) as isize, col: point.col }
    }
}

impl From<Point<isize>> for Point<usize> {
    fn from(point: Point<isize>) -> (unsigned: Point<usize>) {
        proof {
            lemma_unsigned_line(point.line);
        }
        Point { line: point.line as usize, col: point.col }
    }
}

impl vstd::std_specs::convert::FromSpecImpl<Point<isize>> for Point<usize> {
    open spec fn obeys_from_spec() -> bool {
        true
    }

    open spec fn from_spec(point: Point<isize>) -> Point<usize> {
        Point { line: unsigned_line(point.line) as usize, col: point.col }
    }
}

} // verus!
