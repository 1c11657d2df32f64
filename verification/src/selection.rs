//! State management for a selection in the grid.
//!
//! A selection should start when the mouse is clicked, and it should be finalized when the button
//! is released. The selection should be cleared when text is added/removed/scrolled on the
//! screen. The selection should also be cleared if the user clicks off of the selection.

use std::ops::Range;

use vstd::prelude::*;

use crate::grid::Grid;
use crate::index::{Column, Point, Pos, Side};
use crate::term::{Search, Term};

verus! {

/// Describes a region of a 2-dimensional area.
///
/// Used to track a text selection. There are three supported modes, each with its own constructor:
/// [`simple`], [`semantic`], and [`lines`]. The [`simple`] mode precisely tracks which cells are
/// selected without any expansion. [`semantic`] mode expands the initial selection to the nearest
/// semantic escape char in either direction. [`lines`] will always select entire lines.
///
/// Calls to [`update`] operate different based on the selection kind. The [`simple`] mode does
/// nothing special, simply tracks points and sides. [`semantic`] will continue to expand out to
/// semantic boundaries as the selection point changes. Similarly, [`lines`] will always expand the
/// new point to encompass entire lines.
///
/// [`simple`]: Selection::simple
/// [`semantic`]: Selection::semantic
/// [`lines`]: Selection::lines
/// [`update`]: Selection::update
#[derive(Debug, PartialEq)]
pub enum Selection {
    Simple {
        /// The region representing start and end of cursor movement.
        region: Range<Anchor>,
    },
    Semantic {
        /// The region representing start and end of cursor movement.
        region: Range<Point<isize>>,
    },
    Lines {
        /// The region representing start and end of cursor movement.
        region: Range<Point<isize>>,
        /// The line under the initial point. This is always selected regardless of which way the
        /// cursor is moved.
        initial_line: isize,
    },
}

/// A point and the side within that point.
#[derive(Debug, PartialEq, Eq, Structural)]
pub struct Anchor {
    pub point: Point<isize>,
    pub side: Side,
}

impl Clone for Selection {
    fn clone(&self) -> (copy: Selection)
        ensures
            copy == *self,
    {
        match self {
            Selection::Simple { region } => Selection::Simple {
                region: Range { start: region.start.clone(), end: region.end.clone() },
            },
            Selection::Semantic { region } => Selection::Semantic {
                region: Range { start: region.start, end: region.end },
            },
            Selection::Lines { region, initial_line } => Selection::Lines {
                region: Range { start: region.start, end: region.end },
                initial_line: *initial_line,
            },
        }
    }
}

impl Clone for Anchor {
    fn clone(&self) -> (copy: Anchor)
        ensures
            copy == *self,
    {
        Anchor { point: self.point, side: self.side }
    }
}

impl Anchor {
    /// The given side of the cell at `point`.
    pub fn new(point: Point<isize>, side: Side) -> (anchor: Anchor)
        ensures
            anchor.point == point,
            anchor.side == side,
    {
        Anchor { point, side }
    }
}

/// A type that has 2-dimensional boundaries.
pub trait Dimensions {
    /// The size of the area.
    spec fn size(&self) -> Point;

    /// Get the size of the area.
    fn dimensions(&self) -> (size: Point)
        ensures
            size == self.size(),
    ;
}

/// Represents a span of selected cells.
#[derive(Debug, PartialEq, Eq, Structural)]
pub struct Span {
    /// Start point from bottom of buffer.
    pub start: Point<usize>,
    /// End point towards top of buffer.
    pub end: Point<usize>,
}

/// An edge of a cell: what an [`Anchor`] stands for.
pub struct Edge {
    pub pos: Pos,
    pub side: Side,
}

/// What a [`Span`] stands for.
pub struct Stretch {
    pub start: Pos,
    pub end: Pos,
}

/// What a [`Selection`] stands for.
pub enum Region {
    Simple { start: Edge, end: Edge },
    Semantic { start: Pos, end: Pos },
    Lines { start: Pos, end: Pos, initial_line: int },
}

impl View for Anchor {
    type V = Edge;

    open spec fn view(&self) -> Edge {
        Edge { pos: self.point@, side: self.side }
    }
}

impl View for Span {
    type V = Stretch;

    open spec fn view(&self) -> Stretch {
        Stretch { start: self.start@, end: self.end@ }
    }
}

impl View for Selection {
    type V = Region;

    open spec fn view(&self) -> Region {
        match *self {
            Selection::Simple { region } => Region::Simple {
                start: region.start@,
                end: region.end@,
            },
            Selection::Semantic { region } => Region::Semantic {
                start: region.start@,
                end: region.end@,
            },
            Selection::Lines { region, initial_line } => Region::Lines {
                start: region.start@,
                end: region.end@,
                initial_line: initial_line as int,
            },
        }
    }
}

impl Edge {
    /// The edge that many lines further up.
    pub open spec fn up(self, lines: int) -> Edge {
        Edge { pos: self.pos.up(lines), side: self.side }
    }

    /// The last cell that lies before this edge in reading order, with `cols` cells on a line.
    pub open spec fn cell_before(self, cols: int) -> Pos {
        if self.side == Side::Right {
            self.pos
        } else if self.pos.col == 0 {
            Pos { line: self.pos.line + 1, col: cols - 1 }
        } else {
            Pos { line: self.pos.line, col: self.pos.col - 1 }
        }
    }

    /// The first cell that lies after this edge in reading order. After the last cell of a line
    /// this is the place to its right, and not yet the next line.
    pub open spec fn cell_after(self) -> Pos {
        if self.side == Side::Left {
            self.pos
        } else {
            Pos { line: self.pos.line, col: self.pos.col + 1 }
        }
    }
}

impl Region {
    /// Where the cursor movement started.
    pub open spec fn start(self) -> Pos {
        match self {
            Region::Simple { start, .. } => start.pos,
            Region::Semantic { start, .. } => start,
            Region::Lines { start, .. } => start,
        }
    }

    /// Where the cursor movement ended.
    pub open spec fn end(self) -> Pos {
        match self {
            Region::Simple { end, .. } => end.pos,
            Region::Semantic { end, .. } => end,
            Region::Lines { end, .. } => end,
        }
    }

    /// The initial line of a selection of lines is the one that it started on.
    pub open spec fn wf(self) -> bool {
        self matches Region::Lines { start, initial_line, .. } ==> start.line == initial_line
    }

    /// The selection after the text moved up by a number of lines.
    pub open spec fn rotated(self, offset: int) -> Region {
        match self {
            Region::Simple { start, end } => Region::Simple {
                start: start.up(offset),
                end: end.up(offset),
            },
            Region::Semantic { start, end } => Region::Semantic {
                start: start.up(offset),
                end: end.up(offset),
            },
            Region::Lines { start, end, initial_line } => Region::Lines {
                start: start.up(offset),
                end: end.up(offset),
                initial_line: initial_line + offset,
            },
        }
    }

    /// The selection after the cursor moved to an edge.
    pub open spec fn updated(self, edge: Edge) -> Region {
        match self {
            Region::Simple { start, .. } => Region::Simple { start, end: edge },
            Region::Semantic { start, .. } => Region::Semantic { start, end: edge.pos },
            Region::Lines { start, initial_line, .. } => Region::Lines {
                start,
                end: edge.pos,
                initial_line,
            },
        }
    }

    /// Whether the movement went on in reading order, or not at all.
    pub open spec fn forwards(self) -> bool {
        self.start().reads_no_later(self.end())
    }

    /// The end of the movement that comes last in reading order.
    pub open spec fn last(self) -> Pos {
        if self.forwards() {
            self.end()
        } else {
            self.start()
        }
    }

    /// The end of the movement that comes first in reading order.
    pub open spec fn first(self) -> Pos {
        if self.forwards() {
            self.start()
        } else {
            self.end()
        }
    }

    /// The side of the last end.
    pub open spec fn last_side(self) -> Side
        recommends
            self is Simple,
    {
        match self {
            Region::Simple { start, end } => if self.forwards() {
                end.side
            } else {
                start.side
            },
            _ => Side::Right,
        }
    }

    /// The side of the first end.
    pub open spec fn first_side(self) -> Side
        recommends
            self is Simple,
    {
        match self {
            Region::Simple { start, end } => if self.forwards() {
                start.side
            } else {
                end.side
            },
            _ => Side::Left,
        }
    }

    /// The side of the last end in view. Where that end lies below the view, the selection goes on
    /// to the right of the last cell.
    pub open spec fn shown_last_side(self) -> Side {
        if self.last().line < 0 {
            Side::Right
        } else {
            self.last_side()
        }
    }

    /// The side of the first end in a view of `lines` lines. Where that end lies above the view,
    /// the selection comes from the left of the first cell.
    pub open spec fn shown_first_side(self, lines: int) -> Side {
        if self.first().line >= lines {
            Side::Left
        } else {
            self.first_side()
        }
    }

    /// The selected cells of a terminal, before double-width characters are completed.
    pub open spec fn stretch(self, term: Term) -> Option<Stretch> {
        let lines = term.screen().lines();
        let cols = term.screen().cols();
        match Stretch::clamp(self.last(), self.first(), lines, cols) {
            None => None,
            Some((last, first)) => match self {
                Region::Simple { .. } => Stretch::simple(
                    Edge { pos: last, side: self.shown_last_side() },
                    Edge { pos: first, side: self.shown_first_side(lines) },
                    cols,
                ),
                Region::Semantic { .. } => Some(Stretch::semantic(&term, last, first).ordered()),
                Region::Lines { .. } => Some(Stretch::lines(last, first, cols)),
            },
        }
    }

    /// The selected cells of a terminal.
    pub open spec fn span(self, term: Term) -> Option<Stretch> {
        match self.stretch(term) {
            None => None,
            Some(stretch) => Some(stretch.widened(term.screen())),
        }
    }

    /// Whether the selected cells of a terminal can be told: no column is needed that does not
    /// exist or cannot be counted.
    pub open spec fn spannable(self, term: Term) -> bool {
        let lines = term.screen().lines();
        let cols = term.screen().cols();
        match Stretch::clamp(self.last(), self.first(), lines, cols) {
            None => true,
            Some((last, first)) => {
                &&& self.last().line < 0 ==> cols > 0
                &&& match self {
                    Region::Simple { .. } => Stretch::simple_defined(
                        Edge { pos: last, side: self.shown_last_side() },
                        Edge { pos: first, side: self.shown_first_side(lines) },
                        cols,
                    ),
                    Region::Semantic { .. } => term.searchable(last) && term.searchable(first),
                    Region::Lines { .. } => cols > 0,
                }
            },
        }
    }
}

impl Stretch {
    /// The ends of a region, brought into an area of `lines` by `cols` cells. There are none where
    /// both lie above the area, where both lie below it, or where the area has no line in between.
    pub open spec fn clamp(last: Pos, first: Pos, lines: int, cols: int) -> Option<(Pos, Pos)> {
        if last.line >= lines && first.line >= lines {
            None
        } else if last.line < 0 && (first.line < 0 || lines <= 0) {
            None
        } else {
            Some(
                (
                    if last.line < 0 {
                        Pos { line: 0, col: cols - 1 }
                    } else {
                        last
                    },
                    if first.line >= lines {
                        Pos { line: lines - 1, col: 0 }
                    } else {
                        first
                    },
                ),
            )
        }
    }

    /// The cells from the edge `first` to the edge `last`. There are none where nothing lies between
    /// the two: where they are the same, or where one is the right of a cell and the other the left
    /// of the next cell, on the same line or across a line break.
    pub open spec fn simple(last: Edge, first: Edge, cols: int) -> Option<Stretch> {
        if last.pos == first.pos {
            if last.side == first.side {
                None
            } else {
                Some(Stretch { start: last.pos, end: first.pos })
            }
        } else if last.side == Side::Left && first.side == Side::Right && last.cell_before(cols)
            == first.pos {
            None
        } else {
            Some(Stretch { start: last.cell_before(cols), end: first.cell_after() })
        }
    }

    /// Whether the columns that [`Stretch::simple`] needs exist and can be counted.
    pub open spec fn simple_defined(last: Edge, first: Edge, cols: int) -> bool {
        &&& last.pos != first.pos && last.side == Side::Left && last.pos.col == 0 ==> cols > 0
        &&& last != first && first.side == Side::Right ==> first.pos.col < usize::MAX
    }

    /// The places of the semantic boundaries around a region, or of a bracket and the one that
    /// matches it, which may stand further on.
    pub open spec fn semantic<T: Search>(term: &T, last: Pos, first: Pos) -> Stretch {
        if last == first && term.bracket_match(last) is Some {
            Stretch { start: last, end: term.bracket_match(last).unwrap() }
        } else {
            Stretch { start: term.semantic_right(last), end: term.semantic_left(first) }
        }
    }

    /// All cells of the lines of a region.
    pub open spec fn lines(last: Pos, first: Pos, cols: int) -> Stretch {
        Stretch {
            start: Pos { line: last.line, col: cols - 1 },
            end: Pos { line: first.line, col: 0 },
        }
    }

    /// The same ends, with the one that comes last in reading order as the start.
    pub open spec fn ordered(self) -> Stretch {
        if self.end.reads_no_later(self.start) {
            self
        } else {
            Stretch { start: self.end, end: self.start }
        }
    }

    /// The same cells, with the other half of a double-width character at either end.
    pub open spec fn widened(self, grid: Grid) -> Stretch {
        Stretch {
            start: if self.start.col < grid.cols() - 1 && grid.cell_at(self.start).flags.wide_char {
                Pos { line: self.start.line, col: self.start.col + 1 }
            } else {
                self.start
            },
            end: if 0 < self.end.col < grid.cols() && grid.cell_at(
                self.end,
            ).flags.wide_char_spacer {
                Pos { line: self.end.line, col: self.end.col - 1 }
            } else {
                self.end
            },
        }
    }
}

impl Selection {
    /// A selection that starts and ends at one edge of the cell at `location`.
    pub fn simple(location: Point<usize>, side: Side) -> (selection: Selection)
        ensures
            selection@ == (Region::Simple {
                start: Edge { pos: Pos::signed(location), side },
                end: Edge { pos: Pos::signed(location), side },
            }),
    {
        Selection::Simple {
            region: Range {
                start: Anchor::new(location.into(), side),
                end: Anchor::new(location.into(), side),
            },
        }
    }

    /// Move the selection along with text that moves up by `offset` lines.
    pub fn rotate(&mut self, offset: isize)
        requires
            isize::MIN <= old(self)@.start().line + offset <= isize::MAX,
            isize::MIN <= old(self)@.end().line + offset <= isize::MAX,
            old(self)@ matches Region::Lines { initial_line, .. } ==> isize::MIN <= initial_line
                + offset <= isize::MAX,
        ensures
            final(self)@ == old(self)@.rotated(offset as int),
            old(self)@.wf() ==> final(self)@.wf(),
    {
        match self {
            Selection::Simple { region } => {
                region.start.point.line += offset;
                region.end.point.line += offset;
            },
            Selection::Semantic { region } => {
                region.start.line += offset;
                region.end.line += offset;
            },
            Selection::Lines { region, initial_line } => {
                region.start.line += offset;
                region.end.line += offset;
                *initial_line += offset;
            },
        }
    }

    /// A selection of the text around `point` up to the semantic boundaries.
    pub fn semantic(point: Point<usize>) -> (selection: Selection)
        ensures
            selection@ == (Region::Semantic { start: Pos::signed(point), end: Pos::signed(point) }),
    {
        Selection::Semantic { region: Range { start: point.into(), end: point.into() } }
    }

    /// A selection of the line of `point`.
    pub fn lines(point: Point<usize>) -> (selection: Selection)
        ensures
            selection@ == (Region::Lines {
                start: Pos::signed(point),
                end: Pos::signed(point),
                initial_line: Pos::signed(point).line,
            }),
            selection@.wf(),
    {
        let start: Point<isize> = point.into();
        Selection::Lines {
            region: Range { start, end: point.into() },
            initial_line: start.line,
        }
    }

    /// Move the end of the selection to one edge of the cell at `location`.
    pub fn update(&mut self, location: Point<usize>, side: Side)
        ensures
            final(self)@ == old(self)@.updated(Edge { pos: Pos::signed(location), side }),
            old(self)@.wf() ==> final(self)@.wf(),
    {
        // Always update the `end`; can normalize later during span generation.
        match self {
            Selection::Simple { region } => {
                region.end = Anchor::new(location.into(), side);
            },
            Selection::Semantic { region } => {
                region.end = location.into();
            },
            Selection::Lines { region, .. } => {
                region.end = location.into();
            },
        }
    }

    /// Whether a simple selection starts and ends at the same edge. The other kinds are never empty.
    pub fn is_empty(&self) -> (empty: bool)
        ensures
            empty == (self@ matches Region::Simple { start, end } && start == end),
    {
        match self {
            Selection::Simple { region } => {
                region.start == region.end && region.start.side == region.end.side
            },
            Selection::Semantic { .. } | Selection::Lines { .. } => false,
        }
    }

    /// The cells of `term` that are selected, if there are any.
    pub fn to_span(&self, term: &Term) -> (span: Option<Span>)
        requires
            term.screen().wf(),
            self@.spannable(*term),
        ensures
            match span {
                Some(span) => self@.span(*term) == Some(span@),
                None => self@.span(*term) is None,
            },
    {
        // Get both sides of the selection
        let (mut start, mut end) = match self {
            Selection::Simple { region } => (region.start.point, region.end.point),
            Selection::Semantic { region } => (region.start, region.end),
            Selection::Lines { region, .. } => (region.start, region.end),
        };

        // Order the start/end
        let needs_swap = Selection::points_need_swap(start, end);
        if needs_swap {
            std::mem::swap(&mut start, &mut end);
        }

        // Clamp to visible region in grid/normal
        proof {
            term.screen().lemma_size();
        }
        let cols = term.dimensions().col;
        let lines = term.dimensions().line.0 as isize;
        let starts_below = start.line < 0;
        let ends_above = end.line >= lines;
        let (start, end) = match Selection::grid_clamp(start, end, lines, cols) {
            None => {
                return None;
            },
            Some(clamped) => clamped,
        };
        assert(Stretch::clamp(
            self@.last(),
            self@.first(),
            term.screen().lines(),
            term.screen().cols(),
        ) == Some((start@, end@)));
        assert(0 <= start.line <= end.line < lines);

        let span = match self {
            Selection::Simple { region } => {
                let (start_side, end_side) = if needs_swap {
                    (region.end.side, region.start.side)
                } else {
                    (region.start.side, region.end.side)
                };

                // Cells at the border of the visible region are covered by what lies beyond it
                let start_side = if starts_below {
                    Side::Right
                } else {
                    start_side
                };
                let end_side = if ends_above {
                    Side::Left
                } else {
                    end_side
                };
                Selection::span_simple(term, start, end, start_side, end_side)
            },
            Selection::Semantic { .. } => {
                proof {
                    term.lemma_search(start@);
                    term.lemma_search(end@);
                }
                match Selection::span_semantic(term, start, end) {
                    None => None,
                    Some(span) => Some(Selection::order_span(span)),
                }
            },
            Selection::Lines { .. } => Selection::span_lines(term, start, end),
        };

        assert(match span {
            Some(span) => self@.stretch(*term) == Some(span@),
            None => self@.stretch(*term) is None,
        });

        // Expand selection across double-width cells
        match span {
            None => None,
            Some(span) => Some(Selection::span_wide(term, span)),
        }
    }

    // Complete the double-width cells at the ends
    fn span_wide(term: &Term, mut span: Span) -> (wide: Span)
        requires
            term.screen().wf(),
            span.end.col.0 < term.screen().cols() ==> span.end.line < term.screen().lines(),
            span.start.col.0 < term.screen().cols() - 1 ==> span.start.line < term.screen().lines(),
        ensures
            wide@ == span@.widened(term.screen()),
    {
        let grid = term.grid();
        let cols = grid.num_cols();

        if span.end.col.0 < cols.0 && grid.cell(span.end).flags.wide_char_spacer {
            span.end.col = Column(span.end.col.0.saturating_sub(1));
        }
        if span.start.col.0 < cols.0.saturating_sub(1) && grid.cell(span.start).flags.wide_char {
            span.start.col = Column(span.start.col.0 + 1);
        }
        span
    }

    // Expand the ends to the semantic boundaries, or a bracket to the one that matches it
    pub(crate) fn span_semantic<T>(term: &T, start: Point<isize>, end: Point<isize>) -> (span: Option<Span>)
        where T: Search + Dimensions
        requires
            start.line >= 0,
            end.line >= 0,
            term.searchable(start@),
            term.searchable(end@),
        ensures
            span matches Some(span) && span@ == Stretch::semantic(term, start@, end@),
    {
        let (start, end) = if start == end {
            if let Some(end) = term.bracket_search(start.into()) {
                (start.into(), end)
            } else {
                (term.semantic_search_right(start.into()), term.semantic_search_left(end.into()))
            }
        } else {
            (term.semantic_search_right(start.into()), term.semantic_search_left(end.into()))
        };

        Some(Span { start, end })
    }

    // Expand the ends to entire lines
    pub(crate) fn span_lines<T>(term: &T, mut start: Point<isize>, mut end: Point<isize>) -> (span: Option<
        Span,
    >) where T: Dimensions
        requires
            start.line >= 0,
            end.line >= 0,
            term.size().col.0 > 0,
        ensures
            span matches Some(span) && span@ == Stretch::lines(
                start@,
                end@,
                term.size().col.0 as int,
            ),
    {
        start.col = Column(term.dimensions().col.0 - 1);
        end.col = Column(0);

        Some(Span { start: start.into(), end: end.into() })
    }

    // Drop the cells at the ends that are not covered
    pub(crate) fn span_simple<T>(
        term: &T,
        mut start: Point<isize>,
        mut end: Point<isize>,
        start_side: Side,
        end_side: Side,
    ) -> (span: Option<Span>) where T: Dimensions
        requires
            start.line >= 0,
            start.line == isize::MAX ==> start@ == end@ || start_side == Side::Right || start.col.0
                > 0,
            end.line >= 0,
            Stretch::simple_defined(
                Edge { pos: start@, side: start_side },
                Edge { pos: end@, side: end_side },
                term.size().col.0 as int,
            ),
        ensures
            ({
                let stretch = Stretch::simple(
                    Edge { pos: start@, side: start_side },
                    Edge { pos: end@, side: end_side },
                    term.size().col.0 as int,
                );
                match span {
                    Some(span) => stretch == Some(span@),
                    None => stretch is None,
                }
            }),
    {
        let single_cell = start == end;

        // No selection for single cell with identical sides
        if single_cell && start_side == end_side {
            return None;
        }

        // Remove last cell if selection ends to the left of a cell
        if start_side == Side::Left && !single_cell {
            // Special case when selection starts to left of first cell
            if start.col == Column(0) {
                start.col = Column(term.dimensions().col.0 - 1);
                start.line += 1;
            } else {
                start.col = Column(start.col.0 - 1);
            }

            // No selection for two cells with right+left sides, also across a line break
            if end_side == Side::Right && start == end {
                return None;
            }
        }

        // Remove first cell if selection starts at the right of a cell
        if end_side == Side::Right && !single_cell {
            end.col = Column(end.col.0 + 1);
        }

        // Return the selection with all cells inclusive
        Some(Span { start: start.into(), end: end.into() })
    }

    // Bring start and end points in the correct order
    pub(crate) fn points_need_swap(start: Point<isize>, end: Point<isize>) -> (swap: bool)
        ensures
            swap == start@.reads_no_later(end@),
    {
        start.line > end.line || start.line == end.line && start.col.0 <= end.col.0
    }

    // Bring the ends of a span in the correct order, with the end towards the top of the buffer
    fn order_span(span: Span) -> (ordered: Span)
        ensures
            ordered@ == span@.ordered(),
    {
        if span.end.line > span.start.line || span.end.line == span.start.line && span.end.col.0
            <= span.start.col.0 {
            span
        } else {
            Span { start: span.end, end: span.start }
        }
    }

    // Clamp selection inside the grid to prevent out of bounds errors
    pub(crate) fn grid_clamp(
        mut start: Point<isize>,
        mut end: Point<isize>,
        lines: isize,
        cols: Column,
    ) -> (clamped: Option<(Point<isize>, Point<isize>)>)
        requires
            start.line < 0 && Stretch::clamp(start@, end@, lines as int, cols.0 as int) is Some
                ==> cols.0 > 0,
        ensures
            ({
                let places = Stretch::clamp(start@, end@, lines as int, cols.0 as int);
                match clamped {
                    Some((last, first)) => places == Some((last@, first@)),
                    None => places is None,
                }
            }),
    {
        if end.line >= lines {
            // Don't show selection above visible region
            if start.line >= lines {
                return None;
            }

            // Clamp selection above viewport to visible region
            end.line = lines - 1;
            end.col = Column(0);
        }

        if start.line < 0 {
            // Don't show selection below visible region
            if end.line < 0 {
                return None;
            }

            // Clamp selection below viewport to visible region
            start.line = 0;
            start.col = Column(cols.0 - 1);
        }

        Some((start, end))
    }
}

} // verus!
