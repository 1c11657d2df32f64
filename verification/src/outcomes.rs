//! What comes of each operation, said of what goes in and what comes out.

use vstd::prelude::*;
use vstd::std_specs::convert::FromSpec;

use crate::grid::Grid;
use crate::index::{Point, Pos, Side};
use crate::laws::{balances, depth_counts_brackets, is_pair, left_of, right_of};
use crate::selection::{Anchor, Dimensions, Edge, Region, Selection, Span, Stretch};
use crate::term::{Search, Term};

verus! {

// Points and conversions

/// A point stands for its own line and column.
pub proof fn points_stand_for_themselves(buffer: Point<usize>, signed: Point<isize>)
    ensures
        buffer@.line == buffer.line,
        buffer@.col == buffer.col.0,
        signed@.line == signed.line,
        signed@.col == signed.col.0,
{
}

/// A selection starts and ends at the column that was given, and at the line that was given where
/// that fits; a line that does not fit ends up one whole turn lower.
pub proof fn signed_points_keep_their_place(point: Point<usize>)
    ensures
        point.line <= isize::MAX ==> Pos::signed(point) == point@,
        Pos::signed(point).col == point.col.0,
        isize::MIN <= Pos::signed(point).line <= isize::MAX,
        Pos::signed(point).line == point.line || Pos::signed(point).line == point.line - usize::MAX
            - 1,
        <Point<isize> as FromSpec<Point<usize>>>::obeys_from_spec(),
        <Point<isize> as FromSpec<Point<usize>>>::from_spec(point)@ == Pos::signed(point),
{
}

/// A point with a signed line keeps its column, and its line where that is not negative; a negative
/// line ends up one whole turn higher.
pub proof fn unsigned_points_keep_their_place(point: Point<isize>)
    ensures
        <Point<usize> as FromSpec<Point<isize>>>::obeys_from_spec(),
        ({
            let unsigned = <Point<usize> as FromSpec<Point<isize>>>::from_spec(point);
            &&& unsigned.col == point.col
            &&& point.line >= 0 ==> unsigned@ == point@
            &&& unsigned.line == point.line || unsigned.line == point.line + usize::MAX + 1
        }),
{
}

/// Making a line signed and unsigned again gives back the point.
pub proof fn conversions_undo_each_other(point: Point<usize>)
    ensures
        <Point<usize> as FromSpec<Point<isize>>>::from_spec(
            <Point<isize> as FromSpec<Point<usize>>>::from_spec(point),
        ) == point,
{
}

/// A place that many lines further up is in the same column.
pub proof fn up_keeps_the_column(pos: Pos, lines: int)
    ensures
        pos.up(lines).line == pos.line + lines,
        pos.up(lines).col == pos.col,
{
}

/// A line is read before the one below it, and a line from the left to the right.
pub proof fn text_is_read_downwards_and_rightwards(a: Pos, b: Pos)
    ensures
        a.line > b.line ==> a.reads_no_later(b) && !b.reads_no_later(a),
        a.line == b.line && a.col < b.col ==> a.reads_no_later(b) && !b.reads_no_later(a),
        a.reads_no_later(a),
{
}

// The grid and what it shows

/// A grid has all cells of its lines and columns, and no others.
pub proof fn grid_has_all_cells(grid: Grid, pos: Pos)
    ensures
        grid.contains(pos) <==> 0 <= pos.line && pos.line < grid.lines() && 0 <= pos.col && pos.col
            < grid.cols(),
        grid.size() == grid.lines() * grid.cols(),
{
}

/// Offsets count the cells one by one: from zero at the top left, along each line, and on from the
/// end of a line to the beginning of the line below.
pub proof fn offsets_count_the_cells(grid: Grid, pos: Pos)
    ensures
        grid.offset(Pos { line: grid.lines() - 1, col: 0 }) == 0,
        grid.offset(right_of(pos)) == grid.offset(pos) + 1,
        grid.offset(Pos { line: pos.line - 1, col: 0 }) == grid.offset(
            Pos { line: pos.line, col: grid.cols() - 1 },
        ) + 1,
{
    let lines = grid.lines();
    let cols = grid.cols();
    assert((lines - 1 - (lines - 1)) * cols == 0) by (nonlinear_arith);
    assert((lines - 1 - (pos.line - 1)) * cols == (lines - 1 - pos.line) * cols + cols)
        by (nonlinear_arith);
}

/// The text of a terminal has the character of every cell, at the offset of that cell.
pub proof fn text_shows_every_cell(term: Term, pos: Pos)
    ensures
        term.screen().size() >= 0 ==> term.text().len() == term.screen().size(),
        term.screen().contains(pos) ==> {
            &&& 0 <= term.screen().offset(pos) < term.text().len()
            &&& term.text()[term.screen().offset(pos)] == term.screen().cell_at(pos).c
        },
{
    if term.screen().contains(pos) {
        term.screen().lemma_offset(pos);
    }
}

/// The dimensions of a terminal are those of its grid.
pub proof fn dimensions_are_those_of_the_grid(term: Term)
    requires
        term.screen().wf(),
    ensures
        term.size().line.0 == term.screen().lines(),
        term.size().col.0 == term.screen().cols(),
{
    term.screen().lemma_size();
}

// Searching

/// A search can begin at every cell, and nowhere else.
pub proof fn every_cell_can_be_searched_from(term: Term, pos: Pos)
    requires
        term.screen().wf(),
    ensures
        term.searchable(pos) <==> term.screen().contains(pos),
{
}

/// A search to the right from any cell passes no escape character, and ends right before one or at
/// the last cell.
pub proof fn search_right_ends_before_an_escape_char(term: Term, pos: Pos)
    requires
        term.screen().contains(pos),
    ensures
        ({
            let grid = term.screen();
            let stops = term.escape_chars();
            let found = term.semantic_right(pos);
            &&& grid.contains(found)
            &&& pos.reads_no_later(found)
            &&& forall|q: Pos|
                #![trigger grid.cell_at(q)]
                grid.contains(q) && q != pos && pos.reads_no_later(q) && q.reads_no_later(found)
                    ==> !stops.contains(grid.cell_at(q).c)
            &&& forall|q: Pos|
                #![trigger grid.cell_at(q)]
                grid.contains(q) && grid.offset(q) == grid.offset(found) + 1 ==> stops.contains(
                    grid.cell_at(q).c,
                )
        }),
{
    let grid = term.screen();
    let text = term.text();
    let stops = term.escape_chars();
    let found = term.semantic_right(pos);
    term.lemma_search(pos);
    grid.lemma_offset(pos);
    crate::term::lemma_scan_right(text, stops, grid.offset(pos));
    grid.lemma_pos_at(crate::term::scan_right(text, stops, grid.offset(pos)));
    assert forall|q: Pos| #![trigger grid.cell_at(q)] grid.contains(q) implies {
        &&& q != pos && pos.reads_no_later(q) && q.reads_no_later(found) ==> !stops.contains(
            grid.cell_at(q).c,
        )
        &&& grid.offset(q) == grid.offset(found) + 1 ==> stops.contains(grid.cell_at(q).c)
    } by {
        grid.lemma_offset(q);
        grid.lemma_reading_order(pos, q);
        grid.lemma_reading_order(q, pos);
        grid.lemma_reading_order(q, found);
        assert(text[grid.offset(q)] == grid.cell_at(q).c);
    }
}

/// A search to the left from any cell passes no escape character, and ends right after one or at
/// the first cell.
pub proof fn search_left_ends_after_an_escape_char(term: Term, pos: Pos)
    requires
        term.screen().contains(pos),
    ensures
        ({
            let grid = term.screen();
            let stops = term.escape_chars();
            let found = term.semantic_left(pos);
            &&& grid.contains(found)
            &&& found.reads_no_later(pos)
            &&& forall|q: Pos|
                #![trigger grid.cell_at(q)]
                grid.contains(q) && q != pos && found.reads_no_later(q) && q.reads_no_later(pos)
                    ==> !stops.contains(grid.cell_at(q).c)
            &&& forall|q: Pos|
                #![trigger grid.cell_at(q)]
                grid.contains(q) && grid.offset(q) + 1 == grid.offset(found) ==> stops.contains(
                    grid.cell_at(q).c,
                )
        }),
{
    let grid = term.screen();
    let text = term.text();
    let stops = term.escape_chars();
    let found = term.semantic_left(pos);
    term.lemma_search(pos);
    grid.lemma_offset(pos);
    crate::term::lemma_scan_left(text, stops, grid.offset(pos));
    grid.lemma_pos_at(crate::term::scan_left(text, stops, grid.offset(pos)));
    assert forall|q: Pos| #![trigger grid.cell_at(q)] grid.contains(q) implies {
        &&& q != pos && found.reads_no_later(q) && q.reads_no_later(pos) ==> !stops.contains(
            grid.cell_at(q).c,
        )
        &&& grid.offset(q) + 1 == grid.offset(found) ==> stops.contains(grid.cell_at(q).c)
    } by {
        grid.lemma_offset(q);
        grid.lemma_reading_order(pos, q);
        grid.lemma_reading_order(q, pos);
        grid.lemma_reading_order(found, q);
        assert(text[grid.offset(q)] == grid.cell_at(q).c);
    }
}

/// A place matches a bracket exactly where it is in the grid, balances that bracket, and no nearer
/// place does, however far off it is.
pub proof fn bracket_match_is_the_nearest_that_balances(term: Term, pos: Pos, found: Pos)
    requires
        term.screen().contains(pos),
    ensures
        ({
            let grid = term.screen();
            let index = grid.offset(pos);
            term.bracket_match(pos) == Some(found) <==> {
                &&& grid.contains(found)
                &&& balances(term.text(), index, grid.offset(found))
                &&& forall|i: int|
                    index < i < grid.offset(found) || grid.offset(found) < i < index
                        ==> !#[trigger] balances(term.text(), index, i)
            }
        }),
{
    let grid = term.screen();
    let text = term.text();
    let index = grid.offset(pos);
    grid.lemma_offset(pos);
    crate::laws::matching_bracket_is_nearest(text, index);
    if let Some(i) = crate::term::matching_bracket(text, index) {
        assert(balances(text, index, i));
        grid.lemma_pos_at(i);
    }
    if grid.contains(found) {
        grid.lemma_offset(found);
    }
}

/// Only brackets are matched, each by the other one of its kind, on the side where that belongs.
pub proof fn brackets_are_matched_by_their_kind(term: Term, pos: Pos)
    requires
        term.screen().contains(pos),
    ensures
        term.bracket_match(pos) matches Some(found) ==> {
            let here = term.screen().cell_at(pos).c;
            let there = term.screen().cell_at(found).c;
            ||| is_pair(here, there) && pos.reads_no_later(found) && pos != found
            ||| is_pair(there, here) && found.reads_no_later(pos) && pos != found
        },
{
    if let Some(found) = term.bracket_match(pos) {
        let grid = term.screen();
        bracket_match_is_the_nearest_that_balances(term, pos, found);
        text_shows_every_cell(term, pos);
        text_shows_every_cell(term, found);
        grid.lemma_reading_order(pos, found);
        grid.lemma_reading_order(found, pos);
    }
}

proof fn lemma_depth_adds_up(
    text: Seq<char>,
    opening: char,
    closing: char,
    from: int,
    between: int,
    to: int,
)
    requires
        from <= between <= to,
    ensures
        crate::term::depth(text, opening, closing, from, to) == crate::term::depth(
            text,
            opening,
            closing,
            from,
            between,
        ) + crate::term::depth(text, opening, closing, between, to),
    decreases to - between,
{
    if between < to {
        lemma_depth_adds_up(text, opening, closing, from, between, to - 1);
    }
}

/// Where more is closed than opened, there is a bracket that closes more than was opened before.
proof fn lemma_surplus_closes(text: Seq<char>, opening: char, closing: char, from: int, to: int)
    requires
        from <= to,
        crate::term::depth(text, opening, closing, from, to) < 0,
    ensures
        exists|i: int|
            from <= i < to && #[trigger] text[i] == closing && crate::term::depth(
                text,
                opening,
                closing,
                from,
                i,
            ) == 0,
    decreases to - from,
{
    if crate::term::depth(text, opening, closing, from, to - 1) < 0 {
        lemma_surplus_closes(text, opening, closing, from, to - 1);
    } else {
        assert(text[to - 1] == closing);
    }
}

/// Where more is opened than closed, there is a bracket that opens more than is closed after it.
proof fn lemma_surplus_opens(text: Seq<char>, opening: char, closing: char, from: int, to: int)
    requires
        from <= to,
        crate::term::depth(text, opening, closing, from, to) > 0,
    ensures
        exists|i: int|
            from <= i < to && #[trigger] text[i] == opening && crate::term::depth(
                text,
                opening,
                closing,
                i + 1,
                to,
            ) == 0,
    decreases to - from,
{
    lemma_depth_adds_up(text, opening, closing, from, from + 1, to);
    assert(crate::term::depth(text, opening, closing, from, from) == 0);
    if crate::term::depth(text, opening, closing, from + 1, to) > 0 {
        lemma_surplus_opens(text, opening, closing, from + 1, to);
    } else {
        assert(text[from] == opening);
    }
}

/// Where the nearest bracket that balances the one at `index` is at `found`, no bracket between
/// them balances the one at `found`.
proof fn lemma_nearest_is_mutual(text: Seq<char>, index: int, found: int)
    requires
        balances(text, index, found),
        forall|i: int|
            index < i < found || found < i < index ==> !#[trigger] balances(text, index, i),
    ensures
        balances(text, found, index),
        forall|i: int|
            index < i < found || found < i < index ==> !#[trigger] balances(text, found, i),
{
    let (low, high) = if index < found {
        (index, found)
    } else {
        (found, index)
    };
    let o = text[low];
    let c = text[high];
    assert forall|i: int| low < i < high implies !#[trigger] balances(text, found, i) by {
        if balances(text, found, i) {
            depth_counts_brackets(text, o, c, low + 1, high);
            depth_counts_brackets(text, o, c, low + 1, i);
            depth_counts_brackets(text, o, c, i + 1, high);
            lemma_depth_adds_up(text, o, c, low + 1, i, high);
            lemma_depth_adds_up(text, o, c, i, i + 1, high);
            assert(crate::term::depth(text, o, c, i, i) == 0);
            if index < found {
                lemma_surplus_closes(text, o, c, low + 1, i);
                let nearer = choose|k: int|
                    low + 1 <= k < i && #[trigger] text[k] == c && crate::term::depth(
                        text,
                        o,
                        c,
                        low + 1,
                        k,
                    ) == 0;
                depth_counts_brackets(text, o, c, low + 1, nearer);
                assert(balances(text, index, nearer));
            } else {
                lemma_surplus_opens(text, o, c, i + 1, high);
                let nearer = choose|k: int|
                    i + 1 <= k < high && #[trigger] text[k] == o && crate::term::depth(
                        text,
                        o,
                        c,
                        k + 1,
                        high,
                    ) == 0;
                depth_counts_brackets(text, o, c, nearer + 1, high);
                assert(balances(text, index, nearer));
            }
        }
    }
}

/// The bracket that matches another is matched by that one.
pub proof fn bracket_matches_are_mutual(term: Term, pos: Pos, found: Pos)
    requires
        term.screen().contains(pos),
        term.bracket_match(pos) == Some(found),
    ensures
        term.bracket_match(found) == Some(pos),
{
    bracket_match_is_the_nearest_that_balances(term, pos, found);
    lemma_nearest_is_mutual(term.text(), term.screen().offset(pos), term.screen().offset(found));
    bracket_match_is_the_nearest_that_balances(term, found, pos);
}

// Selections and how they move

/// A selection stands for its own points, sides and initial line.
pub proof fn selections_stand_for_themselves(selection: Selection, anchor: Anchor, span: Span)
    ensures
        anchor@.pos == anchor.point@,
        anchor@.side == anchor.side,
        span@.start == span.start@,
        span@.end == span.end@,
        match (selection, selection@) {
            (Selection::Simple { region }, Region::Simple { start, end }) => {
                &&& start == region.start@
                &&& end == region.end@
            },
            (Selection::Semantic { region }, Region::Semantic { start, end }) => {
                &&& start == region.start@
                &&& end == region.end@
            },
            (
                Selection::Lines { region, initial_line },
                Region::Lines { start, end, initial_line: line },
            ) => {
                &&& start == region.start@
                &&& end == region.end@
                &&& line == initial_line
            },
            _ => false,
        },
{
}

/// The ends of a selection are where it was started and where the cursor is.
pub proof fn ends_are_start_and_cursor(region: Region)
    ensures
        match region {
            Region::Simple { start, end } => region.start() == start.pos && region.end() == end.pos,
            Region::Semantic { start, end } => region.start() == start && region.end() == end,
            Region::Lines { start, end, .. } => region.start() == start && region.end() == end,
        },
        region.wf() <==> match region {
            Region::Lines { start, initial_line, .. } => start.line == initial_line,
            _ => true,
        },
{
}

/// Text that moves by some lines takes both ends of a selection, and its initial line, with it by
/// as many lines; columns and sides stay.
pub proof fn rotation_moves_both_ends(region: Region, offset: int)
    ensures
        region.rotated(offset).start().line == region.start().line + offset,
        region.rotated(offset).start().col == region.start().col,
        region.rotated(offset).end().line == region.end().line + offset,
        region.rotated(offset).end().col == region.end().col,
        match (region, region.rotated(offset)) {
            (Region::Simple { start, end }, Region::Simple { start: new_start, end: new_end }) => {
                &&& new_start.pos.line == start.pos.line + offset
                &&& new_start.pos.col == start.pos.col
                &&& new_start.side == start.side
                &&& new_end.pos.line == end.pos.line + offset
                &&& new_end.pos.col == end.pos.col
                &&& new_end.side == end.side
            },
            (
                Region::Semantic { start, end },
                Region::Semantic { start: new_start, end: new_end },
            ) => {
                &&& new_start.line == start.line + offset
                &&& new_start.col == start.col
                &&& new_end.line == end.line + offset
                &&& new_end.col == end.col
            },
            (
                Region::Lines { start, end, initial_line },
                Region::Lines { start: new_start, end: new_end, initial_line: new_initial_line },
            ) => {
                &&& new_start.line == start.line + offset
                &&& new_start.col == start.col
                &&& new_end.line == end.line + offset
                &&& new_end.col == end.col
                &&& new_initial_line == initial_line + offset
            },
            _ => false,
        },
{
}

/// A movement of the cursor puts the end of a selection at the very edge that it moved to, and
/// leaves the start, with its side, and the initial line.
pub proof fn update_puts_the_end_at_the_cursor(region: Region, edge: Edge)
    ensures
        match (region, region.updated(edge)) {
            (Region::Simple { start, .. }, Region::Simple { start: new_start, end }) => {
                &&& new_start == start
                &&& end == edge
            },
            (Region::Semantic { start, .. }, Region::Semantic { start: new_start, end }) => {
                &&& new_start == start
                &&& end == edge.pos
            },
            (
                Region::Lines { start, initial_line, .. },
                Region::Lines { start: new_start, end, initial_line: new_initial_line },
            ) => {
                &&& new_start == start
                &&& end == edge.pos
                &&& new_initial_line == initial_line
            },
            _ => false,
        },
{
}

/// Ordering the ends of a selection loses neither, keeps their sides, and puts the one that is read
/// last where it belongs.
pub proof fn ordering_keeps_the_ends(region: Region)
    ensures
        region.first().reads_no_later(region.last()),
        ({
            ||| region.first() == region.start() && region.last() == region.end()
            ||| region.first() == region.end() && region.last() == region.start()
        }),
        region matches Region::Simple { start, end } ==> {
            let first = Edge { pos: region.first(), side: region.first_side() };
            let last = Edge { pos: region.last(), side: region.last_side() };
            ||| first == start && last == end
            ||| first == end && last == start
        },
{
}

/// Ends are brought into view along with the lines between them: the last one to the bottom right
/// and the first one to the top left where they lie outside. That fails only where none of these
/// lines is in view.
pub proof fn clamping_keeps_the_visible_lines(last: Pos, first: Pos, lines: int, cols: int)
    requires
        last.line <= first.line,
    ensures
        match Stretch::clamp(last, first, lines, cols) {
            Some((shown_last, shown_first)) => {
                &&& last.line < lines && first.line >= 0 && lines > 0
                &&& shown_last == if last.line < 0 {
                    Pos { line: 0, col: cols - 1 }
                } else {
                    last
                }
                &&& shown_first == if first.line >= lines {
                    Pos { line: lines - 1, col: 0 }
                } else {
                    first
                }
            },
            None => last.line >= lines || first.line < 0 || lines <= 0,
        },
{
}

// Spans

impl Region {
    /// Whether a place lies between the ends of a selection, both included.
    pub open spec fn passes(self, pos: Pos) -> bool {
        let (start, end) = match self {
            Region::Simple { start, end } => (start.pos, end.pos),
            Region::Semantic { start, end } => (start, end),
            Region::Lines { start, end, .. } => (start, end),
        };
        ||| start.reads_no_later(pos) && pos.reads_no_later(end)
        ||| end.reads_no_later(pos) && pos.reads_no_later(start)
    }

    /// Whether a cell is the only one of a grid that lies between the ends of a selection.
    pub open spec fn passes_only(self, grid: Grid, pos: Pos) -> bool {
        &&& grid.contains(pos)
        &&& self.passes(pos)
        &&& forall|other: Pos| grid.contains(other) && #[trigger] self.passes(other) ==> other == pos
    }
}

/// The span of a selection is its stretch, with the second half of a double-width character that
/// stands at its start and the first half of one that stands at its end. Nothing of the stretch is
/// lost.
pub proof fn span_completes_the_stretch(region: Region, term: Term)
    ensures
        match (region.stretch(term), region.span(term)) {
            (None, None) => true,
            (Some(stretch), Some(span)) => {
                let grid = term.screen();
                &&& span.start == stretch.start || span.start == right_of(stretch.start)
                &&& span.start == right_of(stretch.start) <==> stretch.start.col + 1 < grid.cols()
                    && grid.cell_at(stretch.start).flags.wide_char
                &&& span.end == stretch.end || span.end == left_of(stretch.end)
                &&& span.end == left_of(stretch.end) <==> 0 < stretch.end.col < grid.cols()
                    && grid.cell_at(stretch.end).flags.wide_char_spacer
                &&& forall|pos: Pos| stretch.contains(pos) ==> #[trigger] span.contains(pos)
            },
            _ => false,
        },
{
}

/// A simple selection of different cells begins and ends with the cells next to its edges: the cell
/// of the edge itself where the edge lies on its far side, else the cell beside it, and a corner of
/// the grid where the edge is out of view. It has no cells exactly where it is out of view, or
/// where nothing in view lies between its edges.
pub proof fn simple_stretch_goes_from_edge_to_edge(
    region: Region,
    last: Edge,
    first: Edge,
    term: Term,
)
    requires
        region == (Region::Simple { start: last, end: first }) || region == (Region::Simple {
            start: first,
            end: last,
        }),
        first.pos.reads_no_later(last.pos),
        first.pos != last.pos,
    ensures
        ({
            let lines = term.screen().lines();
            let cols = term.screen().cols();
            &&& region.stretch(term) matches Some(stretch) ==> {
                &&& if last.pos.line < 0 {
                    stretch.start == (Pos { line: 0, col: cols - 1 })
                } else if last.side == Side::Right {
                    stretch.start == last.pos
                } else if last.pos.col != 0 {
                    right_of(stretch.start) == last.pos
                } else {
                    stretch.start == (Pos { line: last.pos.line + 1, col: cols - 1 })
                }
                &&& if first.pos.line >= lines {
                    stretch.end == (Pos { line: lines - 1, col: 0 })
                } else if first.side == Side::Left {
                    stretch.end == first.pos
                } else {
                    left_of(stretch.end) == first.pos
                }
            }
            &&& region.stretch(term) is None <==> {
                ||| lines <= 0 || last.pos.line >= lines || first.pos.line < 0
                ||| last.pos.line < 0 && first == (Edge {
                    pos: Pos { line: 0, col: cols - 1 },
                    side: Side::Right,
                })
                ||| first.pos.line >= lines && last == (Edge {
                    pos: Pos { line: lines - 1, col: 0 },
                    side: Side::Left,
                })
                ||| {
                    &&& last.pos.line >= 0 && first.pos.line < lines
                    &&& last.side == Side::Left && first.side == Side::Right
                    &&& if last.pos.col != 0 {
                        right_of(first.pos) == last.pos
                    } else {
                        first.pos == (Pos { line: last.pos.line + 1, col: cols - 1 })
                    }
                }
            }
        }),
{
}

/// A simple selection that does not leave its cell selects that cell where it goes from one side to
/// the other in view, and nothing else.
pub proof fn simple_stretch_within_a_cell(pos: Pos, from: Side, to: Side, term: Term)
    ensures
        (Region::Simple { start: Edge { pos, side: from }, end: Edge { pos, side: to } }).stretch(
            term,
        ) == if from != to && 0 <= pos.line < term.screen().lines() {
            Some(Stretch { start: pos, end: pos })
        } else {
            None
        },
{
}

/// The span of a selection of lines goes from the last column of its lowest line in view to the
/// first column of its highest line in view.
pub proof fn lines_span_goes_from_end_to_beginning(
    start: Pos,
    end: Pos,
    initial_line: int,
    term: Term,
)
    ensures
        ({
            let lines = term.screen().lines();
            let low = vstd::math::min(start.line, end.line);
            let high = vstd::math::max(start.line, end.line);
            (Region::Lines { start, end, initial_line }).span(term) == if lines > 0 && low < lines
                && high >= 0 {
                Some(
                    Stretch {
                        start: Pos {
                            line: vstd::math::max(low, 0),
                            col: term.screen().cols() - 1,
                        },
                        end: Pos { line: vstd::math::min(high, lines - 1), col: 0 },
                    },
                )
            } else {
                None
            }
        }),
{
}

/// What a semantic selection shows in view is what lies between its ends.
proof fn lemma_shown_semantic(region: Region, term: Term, pos: Pos)
    requires
        region is Semantic,
        region.spannable(term),
        term.screen().contains(pos),
    ensures
        match Stretch::clamp(
            region.last(),
            region.first(),
            term.screen().lines(),
            term.screen().cols(),
        ) {
            Some((last, first)) => {
                &&& term.screen().contains(last) && region.passes(last)
                &&& term.screen().contains(first) && region.passes(first)
                &&& region.passes(pos) <==> first.reads_no_later(pos) && pos.reads_no_later(last)
            },
            None => !region.passes(pos),
        },
{
}

/// A semantic selection has a span exactly where a cell lies between its ends. Unless that is a
/// single bracket with a match, the span has every cell between the ends. What the stretch has
/// besides is no escape character, and on either side of it there is one, or nothing at all.
pub proof fn semantic_span_has_all_that_was_passed(region: Region, term: Term)
    requires
        region is Semantic,
        region.spannable(term),
        forall|pos: Pos|
            #[trigger] region.passes_only(term.screen(), pos) ==> term.bracket_match(pos) is None,
    ensures
        region.span(term) is Some <==> exists|pos: Pos|
            term.screen().contains(pos) && #[trigger] region.passes(pos),
        region.span(term) matches Some(span) ==> forall|pos: Pos|
            term.screen().contains(pos) && #[trigger] region.passes(pos) ==> span.contains(pos),
        region.stretch(term) matches Some(stretch) ==> {
            let grid = term.screen();
            let stops = term.escape_chars();
            &&& grid.contains(stretch.start)
            &&& grid.contains(stretch.end)
            &&& forall|pos: Pos|
                grid.contains(pos) && #[trigger] region.passes(pos) ==> stretch.contains(pos)
            &&& forall|pos: Pos|
                #![trigger grid.cell_at(pos)]
                grid.contains(pos) && stretch.contains(pos) && !region.passes(pos)
                    ==> !stops.contains(grid.cell_at(pos).c)
            &&& forall|pos: Pos|
                #![trigger grid.cell_at(pos)]
                grid.contains(pos) && (grid.offset(pos) == grid.offset(stretch.start) + 1
                    || grid.offset(pos) + 1 == grid.offset(stretch.end)) ==> stops.contains(
                    grid.cell_at(pos).c,
                )
        },
{
    let grid = term.screen();
    assert forall|pos: Pos| grid.contains(pos) && #[trigger] region.passes(pos) implies Stretch::clamp(
        region.last(),
        region.first(),
        grid.lines(),
        grid.cols(),
    ) is Some by {
        lemma_shown_semantic(region, term, pos);
    }
    if let Some((last, first)) = Stretch::clamp(
        region.last(),
        region.first(),
        grid.lines(),
        grid.cols(),
    ) {
        lemma_shown_semantic(region, term, last);
        assert(grid.contains(last) && region.passes(last));
        if last == first {
            assert forall|other: Pos|
                grid.contains(other) && #[trigger] region.passes(other) implies other == last by {
                lemma_shown_semantic(region, term, other);
            }
            assert(region.passes_only(grid, last));
        }
        search_right_ends_before_an_escape_char(term, last);
        search_left_ends_after_an_escape_char(term, first);
        let stretch = region.stretch(term)->0;
        assert forall|pos: Pos| grid.contains(pos) && #[trigger] region.passes(pos) implies stretch.contains(
            pos,
        ) by {
            lemma_shown_semantic(region, term, pos);
        }
        assert forall|pos: Pos|
            #![trigger grid.cell_at(pos)]
            grid.contains(pos) && stretch.contains(pos) && !region.passes(pos) implies
            !term.escape_chars().contains(grid.cell_at(pos).c) by {
            lemma_shown_semantic(region, term, pos);
        }
        span_completes_the_stretch(region, term);
    }
}

/// A semantic selection of a single bracket that has a match goes from the one to the other, the
/// one further up being its end.
pub proof fn semantic_stretch_joins_brackets(region: Region, term: Term, pos: Pos, found: Pos)
    requires
        region is Semantic,
        region.spannable(term),
        region.passes_only(term.screen(), pos),
        term.bracket_match(pos) == Some(found),
    ensures
        region.stretch(term) matches Some(stretch) && stretch.end.reads_no_later(stretch.start) && {
            ||| stretch.start == pos && stretch.end == found
            ||| stretch.start == found && stretch.end == pos
        },
{
    lemma_shown_semantic(region, term, pos);
}

/// The span of a selection can be told wherever the columns that exist in view suffice: always for
/// a selection of lines, for a simple selection unless a column is the greatest number there is,
/// and for a semantic selection where the columns of those ends exist that are in view.
pub proof fn spans_can_be_told(region: Region, term: Term)
    requires
        term.screen().wf(),
        term.screen().cols() > 0,
    ensures
        region.has_columns(term.screen().cols()) ==> region.spannable(term),
        region is Lines ==> region.spannable(term),
        region matches Region::Simple { start, end } ==> (start.pos.col < usize::MAX && end.pos.col
            < usize::MAX ==> region.spannable(term)),
        region matches Region::Semantic { start, end } ==> ((0 <= start.line < term.screen().lines()
            ==> term.screen().contains(start)) && (0 <= end.line < term.screen().lines()
            ==> term.screen().contains(end)) ==> region.spannable(term)),
{
    term.screen().lemma_size();
}

} // verus!
