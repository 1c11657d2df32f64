//! What holds of selections as a whole.

use vstd::prelude::*;

use crate::grid::Grid;
use crate::index::{Pos, Side};
use crate::selection::{Edge, Region, Stretch};
use crate::term::{Search, Term};

verus! {

impl Edge {
    /// How many cells precede the edge in reading order.
    pub open spec fn offset(self, grid: Grid) -> int {
        grid.offset(self.pos) + if self.side == Side::Right {
            1int
        } else {
            0
        }
    }
}

impl Stretch {
    /// The stretch that many lines further up.
    pub open spec fn up(self, lines: int) -> Stretch {
        Stretch { start: self.start.up(lines), end: self.end.up(lines) }
    }

    /// Whether a place belongs to the stretch.
    pub open spec fn contains(self, pos: Pos) -> bool {
        self.end.reads_no_later(pos) && pos.reads_no_later(self.start)
    }
}

impl Region {
    /// Whether both columns exist.
    pub open spec fn has_columns(self, cols: int) -> bool {
        match self {
            Region::Simple { start, end } => 0 <= start.pos.col < cols && 0 <= end.pos.col < cols,
            Region::Semantic { start, end } => 0 <= start.col < cols && 0 <= end.col < cols,
            Region::Lines { start, end, .. } => 0 <= start.col < cols && 0 <= end.col < cols,
        }
    }

    /// Whether the columns that a selection needs in view exist.
    pub open spec fn fits(self, grid: Grid) -> bool {
        match Stretch::clamp(self.last(), self.first(), grid.lines(), grid.cols()) {
            None => true,
            Some((last, first)) => if self is Lines {
                grid.cols() > 0
            } else {
                grid.contains(last) && grid.contains(first)
            },
        }
    }

    /// The movement in the opposite direction.
    pub open spec fn reversed(self) -> Region {
        match self {
            Region::Simple { start, end } => Region::Simple { start: end, end: start },
            Region::Semantic { start, end } => Region::Semantic { start: end, end: start },
            Region::Lines { start, end, initial_line } => Region::Lines {
                start: end,
                end: start,
                initial_line,
            },
        }
    }

    /// Whether a cell lies completely between the edges of a simple selection.
    pub open spec fn covers(self, grid: Grid, pos: Pos) -> bool {
        match self {
            Region::Simple { start, end } => {
                ||| start.offset(grid) <= grid.offset(pos) && grid.offset(pos) + 1 <= end.offset(
                    grid,
                )
                ||| end.offset(grid) <= grid.offset(pos) && grid.offset(pos) + 1 <= start.offset(
                    grid,
                )
            },
            _ => false,
        }
    }

    /// The edge of a simple selection that comes last in reading order.
    pub open spec fn last_edge(self) -> Edge {
        Edge { pos: self.last(), side: self.last_side() }
    }

    /// The edge of a simple selection that comes first in reading order.
    pub open spec fn first_edge(self) -> Edge {
        Edge { pos: self.first(), side: self.first_side() }
    }
}

/// The place to the right.
pub open spec fn right_of(pos: Pos) -> Pos {
    Pos { line: pos.line, col: pos.col + 1 }
}

/// The place to the left.
pub open spec fn left_of(pos: Pos) -> Pos {
    Pos { line: pos.line, col: pos.col - 1 }
}

/// Whether a cell beside a place says that the other half of its character stands there.
pub open spec fn is_other_half(grid: Grid, pos: Pos) -> bool {
    ||| grid.contains(left_of(pos)) && grid.cell_at(left_of(pos)).flags.wide_char
    ||| grid.contains(right_of(pos)) && grid.cell_at(right_of(pos)).flags.wide_char_spacer
}

/// Moving the text twice is moving it once by the sum.
pub proof fn rotations_add_up(region: Region, a: int, b: int)
    ensures
        region.rotated(a).rotated(b) == region.rotated(a + b),
{
}

/// Moving the text back undoes moving it.
pub proof fn rotation_is_undone(region: Region, offset: int)
    ensures
        region.rotated(offset).rotated(-offset) == region,
{
}

/// Of two movements of the cursor only the last one counts.
pub proof fn last_update_counts(region: Region, a: Edge, b: Edge)
    ensures
        region.updated(a).updated(b) == region.updated(b),
{
}

/// Moving the cursor leaves the start of a selection, and its initial line, where they are.
pub proof fn update_keeps_the_start(region: Region, edge: Edge)
    ensures
        region.updated(edge).start() == region.start(),
        region.updated(edge).end() == edge.pos,
        region.wf() ==> region.updated(edge).wf(),
{
}

/// A movement of the cursor moves along with the text.
pub proof fn rotation_moves_updates(region: Region, edge: Edge, offset: int)
    ensures
        region.updated(edge).rotated(offset) == region.rotated(offset).updated(edge.up(offset)),
{
}

/// Of two different places exactly one comes first in reading order.
pub proof fn reading_order_is_total(a: Pos, b: Pos)
    requires
        a != b,
    ensures
        a.reads_no_later(b) == !b.reads_no_later(a),
{
}

/// Bringing ends into view that already are in view changes nothing.
pub proof fn clamping_leaves_what_is_visible(last: Pos, first: Pos, lines: int, cols: int)
    requires
        0 <= last.line < lines,
        0 <= first.line < lines,
    ensures
        Stretch::clamp(last, first, lines, cols) == Some((last, first)),
{
}

/// Bringing ends into view twice is bringing them into view once.
pub proof fn clamping_twice_is_clamping_once(last: Pos, first: Pos, lines: int, cols: int)
    ensures
        Stretch::clamp(last, first, lines, cols) matches Some((shown_last, shown_first))
            ==> Stretch::clamp(shown_last, shown_first, lines, cols) == Some(
            (shown_last, shown_first),
        ),
{
}

/// Moving both edges by some lines moves the cells between them by as many lines.
pub proof fn simple_stretch_moves_with_its_edges(last: Edge, first: Edge, cols: int, lines: int)
    ensures
        Stretch::simple(last.up(lines), first.up(lines), cols) == match Stretch::simple(
            last,
            first,
            cols,
        ) {
            None => None,
            Some(stretch) => Some(stretch.up(lines)),
        },
{
}

/// The columns of the ends of a selection of lines do not matter.
pub proof fn columns_of_lines_do_not_matter(
    last: Pos,
    first: Pos,
    other_last: Pos,
    other_first: Pos,
    cols: int,
)
    requires
        last.line == other_last.line,
        first.line == other_first.line,
    ensures
        Stretch::lines(last, first, cols) == Stretch::lines(other_last, other_first, cols),
{
}

/// An empty selection has no cells in any terminal.
pub proof fn empty_selection_has_no_span(edge: Edge, term: Term)
    ensures
        (Region::Simple { start: edge, end: edge }).span(term) is None,
{
}

/// It does not matter in which direction the cursor moved.
pub proof fn direction_does_not_matter(region: Region, term: Term)
    ensures
        region.reversed().span(term) == region.span(term),
{
}

/// The span of a selection can be told wherever the columns exist that it needs in view, and
/// columns that exist anyway suffice for that.
pub proof fn existing_columns_suffice(region: Region, term: Term)
    requires
        term.screen().wf(),
    ensures
        region.fits(term.screen()) ==> region.spannable(term),
        region.has_columns(term.screen().cols()) ==> region.fits(term.screen()),
{
    term.screen().lemma_size();
}

/// A selection of lines selects the lines from its start to its end, as far as they exist, and
/// always entirely.
pub proof fn entire_lines_are_selected(region: Region, term: Term, pos: Pos)
    requires
        region is Lines,
        term.screen().contains(pos),
    ensures
        (region.span(term) matches Some(span) && span.contains(pos)) <==> {
            ||| region.start().line <= pos.line <= region.end().line
            ||| region.end().line <= pos.line <= region.start().line
        },
{
}

/// The initial line of a selection of lines is always selected, wherever the cursor is.
pub proof fn initial_line_is_selected(region: Region, term: Term, pos: Pos)
    requires
        region.wf(),
        term.screen().contains(pos),
        region matches Region::Lines { initial_line, .. } && pos.line == initial_line,
    ensures
        region.span(term) matches Some(span) && span.contains(pos),
{
    entire_lines_are_selected(region, term, pos);
}

/// A semantic selection and a selection of lines have a span wherever a part of them is visible,
/// and nowhere else.
pub proof fn visible_selection_has_span(region: Region, term: Term)
    requires
        !(region is Simple),
    ensures
        region.span(term) is Some <==> {
            &&& term.screen().lines() > 0
            &&& region.start().line >= 0 || region.end().line >= 0
            &&& region.start().line < term.screen().lines() || region.end().line
                < term.screen().lines()
        },
{
}

/// A simple selection selects those cells that lie completely between its edges, and no others,
/// however much of it is visible. In its span there may be the other halves of double-width
/// characters besides.
pub proof fn simple_selection_is_precise(region: Region, term: Term, pos: Pos)
    requires
        region is Simple,
        region.has_columns(term.screen().cols()),
        term.screen().contains(pos),
    ensures
        (region.stretch(term) matches Some(stretch) && stretch.contains(pos)) <==> region.covers(
            term.screen(),
            pos,
        ),
        region.covers(term.screen(), pos) ==> (region.span(term) matches Some(span)
            && span.contains(pos)),
        (region.span(term) matches Some(span) && span.contains(pos)) ==> region.covers(
            term.screen(),
            pos,
        ) || is_other_half(term.screen(), pos),
{
    let grid = term.screen();
    let cols = grid.cols();
    let last = region.last_edge();
    let first = region.first_edge();
    grid.lemma_reading_order(region.start(), region.end());
    grid.lemma_reading_order(last.pos, pos);
    grid.lemma_reading_order(pos, last.pos);
    grid.lemma_reading_order(first.pos, pos);
    grid.lemma_reading_order(pos, first.pos);
    grid.lemma_reading_order(first.pos, last.pos);
    grid.lemma_reading_order(last.pos, first.pos);
    grid.lemma_reading_order(pos, last.cell_before(cols));
    grid.lemma_reading_order(first.cell_after(), pos);
    assert((grid.lines() - 1 - (last.pos.line + 1)) * cols == (grid.lines() - 1 - last.pos.line)
        * cols - cols) by (nonlinear_arith);
}

/// A simple selection has no span exactly where it covers no visible cell.
pub proof fn simple_selection_needs_a_covered_cell(region: Region, term: Term)
    requires
        region is Simple,
        region.has_columns(term.screen().cols()),
    ensures
        region.span(term) is None <==> region.stretch(term) is None,
        region.stretch(term) is None <==> forall|pos: Pos|
            term.screen().contains(pos) ==> !#[trigger] region.covers(term.screen(), pos),
{
    let grid = term.screen();
    match region.stretch(term) {
        None => {
            assert forall|pos: Pos| grid.contains(pos) implies !#[trigger] region.covers(
                grid,
                pos,
            ) by {
                simple_selection_is_precise(region, term, pos);
            }
        },
        Some(stretch) => {
            assert(grid.contains(stretch.start) && stretch.contains(stretch.start));
            simple_selection_is_precise(region, term, stretch.start);
        },
    }
}

/// Completing the double-width characters at its ends keeps all cells of a stretch, and adds none
/// but the other half of such a character.
pub proof fn widening_adds_other_halves(stretch: Stretch, grid: Grid, pos: Pos)
    ensures
        stretch.contains(pos) ==> stretch.widened(grid).contains(pos),
        stretch.widened(grid).contains(pos) && !stretch.contains(pos) ==> {
            ||| pos == right_of(stretch.start) && grid.cell_at(stretch.start).flags.wide_char
            ||| pos == left_of(stretch.end) && grid.cell_at(stretch.end).flags.wide_char_spacer
        },
{
}

/// Whether the two halves of every double-width character stand side by side.
pub open spec fn halves_are_paired(grid: Grid) -> bool {
    &&& forall|pos: Pos|
        grid.contains(pos) && (#[trigger] grid.cell_at(pos)).flags.wide_char ==> {
            &&& !grid.cell_at(pos).flags.wide_char_spacer
            &&& grid.contains(right_of(pos))
            &&& grid.cell_at(right_of(pos)).flags.wide_char_spacer
        }
    &&& forall|pos: Pos|
        grid.contains(pos) && (#[trigger] grid.cell_at(pos)).flags.wide_char_spacer ==> {
            &&& !grid.cell_at(pos).flags.wide_char
            &&& pos.col > 0
            &&& grid.cell_at(left_of(pos)).flags.wide_char
        }
}

/// The stretch of a semantic selection has both ends in the grid.
proof fn lemma_semantic_stretch(region: Region, term: Term)
    requires
        region is Semantic ==> region.fits(term.screen()),
    ensures
        region is Semantic ==> (region.stretch(term) matches Some(stretch) ==> {
            &&& term.screen().contains(stretch.start)
            &&& term.screen().contains(stretch.end)
            &&& stretch.end.reads_no_later(stretch.start)
        }),
{
    let grid = term.screen();
    if let Some((last, first)) = Stretch::clamp(
        region.last(),
        region.first(),
        grid.lines(),
        grid.cols(),
    ) {
        if region is Semantic {
            term.lemma_search(last);
            term.lemma_search(first);
        }
    }
}

/// The ends of a span lie in the grid; only its end may be the place to the right of a line.
pub proof fn span_is_in_bounds(region: Region, term: Term)
    requires
        region.fits(term.screen()),
    ensures
        region.span(term) matches Some(span) ==> {
            &&& term.screen().contains(span.start)
            &&& 0 <= span.end.line < term.screen().lines()
            &&& 0 <= span.end.col <= term.screen().cols()
        },
{
    lemma_semantic_stretch(region, term);
}

/// A double-width character is selected with both of its halves or not at all.
pub proof fn wide_chars_are_not_split(region: Region, term: Term, pos: Pos)
    requires
        region.spannable(term),
        region.start().col >= 0,
        region.end().col >= 0,
        halves_are_paired(term.screen()),
        term.screen().contains(pos),
        term.screen().cell_at(pos).flags.wide_char,
    ensures
        region.span(term) matches Some(span) ==> (span.contains(pos) <==> span.contains(
            right_of(pos),
        )),
{
    let grid = term.screen();
    lemma_semantic_stretch(region, term);
    if let Some(stretch) = region.stretch(term) {
        assert(grid.cell_at(pos).flags.wide_char);
        assert(grid.cell_at(right_of(pos)).flags.wide_char_spacer);
        if stretch.end.col < grid.cols() && grid.cell_at(stretch.end).flags.wide_char_spacer {
            assert(grid.contains(stretch.end));
        }
        if stretch.start.col < grid.cols() - 1 && grid.cell_at(stretch.start).flags.wide_char {
            assert(grid.cell_at(right_of(stretch.start)).flags.wide_char_spacer);
        }
    }
}

impl Region {
    /// The bracket that a semantic selection consists of, and the one that matches it.
    pub open spec fn brackets(self, term: Term) -> Option<(Pos, Pos)> {
        match Stretch::clamp(
            self.last(),
            self.first(),
            term.screen().lines(),
            term.screen().cols(),
        ) {
            None => None,
            Some((last, first)) => if self is Semantic && last == first {
                match term.bracket_match(last) {
                    None => None,
                    Some(matching) => Some((last, matching)),
                }
            } else {
                None
            },
        }
    }
}

/// The start of a span is towards the bottom of the buffer and its end towards the top: the end
/// comes no later than the start in reading order.
pub proof fn span_ends_further_up(region: Region, term: Term)
    requires
        region.fits(term.screen()),
    ensures
        region.span(term) matches Some(span) ==> span.end.reads_no_later(span.start),
{
    lemma_semantic_stretch(region, term);
}

/// A semantic selection that is no bracket reaches out to the nearest semantic escape character in
/// either direction, or to the end of the text: it keeps all that was selected, takes in no escape
/// character, and is enclosed by two.
pub proof fn semantic_selection_reaches_out(region: Region, term: Term)
    requires
        region is Semantic,
        region.fits(term.screen()),
        region.brackets(term) is None,
    ensures
        region.stretch(term) matches Some(stretch) ==> {
            let grid = term.screen();
            let text = term.text();
            let stops = term.escape_chars();
            let start = grid.offset(stretch.start);
            let end = grid.offset(stretch.end);
            &&& 0 <= end <= start < text.len()
            &&& forall|pos: Pos|
                grid.contains(pos) && region.first().reads_no_later(pos) && pos.reads_no_later(
                    region.last(),
                ) ==> #[trigger] stretch.contains(pos)
            &&& forall|pos: Pos|
                grid.contains(pos) && #[trigger] stretch.contains(pos) && !(
                region.first().reads_no_later(pos) && pos.reads_no_later(region.last()))
                    ==> !stops.contains(grid.cell_at(pos).c)
            &&& start + 1 < text.len() ==> stops.contains(text[start + 1])
            &&& end > 0 ==> stops.contains(text[end - 1])
        },
{
    let grid = term.screen();
    let text = term.text();
    let stops = term.escape_chars();
    if let Some((last, first)) = Stretch::clamp(
        region.last(),
        region.first(),
        grid.lines(),
        grid.cols(),
    ) {
        let stretch = region.stretch(term)->0;
        term.lemma_search(last);
        term.lemma_search(first);
        grid.lemma_offset(last);
        grid.lemma_offset(first);
        grid.lemma_offset(stretch.start);
        grid.lemma_offset(stretch.end);
        grid.lemma_reading_order(first, last);
        crate::term::lemma_scan_right(text, stops, grid.offset(last));
        crate::term::lemma_scan_left(text, stops, grid.offset(first));
        grid.lemma_pos_at(crate::term::scan_right(text, stops, grid.offset(last)));
        grid.lemma_pos_at(crate::term::scan_left(text, stops, grid.offset(first)));
        assert forall|pos: Pos|
            grid.contains(pos) && #[trigger] stretch.contains(pos) && !(
            region.first().reads_no_later(pos) && pos.reads_no_later(region.last())) implies
            !stops.contains(grid.cell_at(pos).c) by {
            grid.lemma_offset(pos);
            grid.lemma_reading_order(stretch.end, pos);
            grid.lemma_reading_order(pos, stretch.start);
            grid.lemma_reading_order(first, pos);
            grid.lemma_reading_order(pos, last);
            assert(text[grid.offset(pos)] == grid.cell_at(pos).c);
        }
    }
}

/// A semantic selection of a single bracket goes from that bracket to the one that matches it, on
/// whichever side that stands.
pub proof fn semantic_selection_matches_brackets(region: Region, term: Term)
    requires
        region is Semantic,
    ensures
        region.brackets(term) matches Some((bracket, matching)) ==> {
            &&& region.stretch(term) == Some((Stretch { start: bracket, end: matching }).ordered())
            &&& region.stretch(term) matches Some(stretch) && stretch.contains(bracket)
                && stretch.contains(matching)
        },
{
}

/// Whether two characters are an opening bracket and the closing bracket of the same kind.
pub open spec fn is_pair(opening: char, closing: char) -> bool {
    ||| opening == '(' && closing == ')'
    ||| opening == '[' && closing == ']'
    ||| opening == '{' && closing == '}'
    ||| opening == '<' && closing == '>'
}

/// How often a character occurs in a text from one index up to another.
pub open spec fn occurrences(text: Seq<char>, c: char, from: int, to: int) -> nat {
    text.subrange(from, to).to_multiset().count(c)
}

/// Whether the bracket at `index` and the one at `i` are a pair, the opening one first, and between
/// them as many brackets of this kind are opened as are closed.
pub open spec fn balances(text: Seq<char>, index: int, i: int) -> bool {
    ||| {
        &&& 0 <= index < i < text.len()
        &&& is_pair(text[index], text[i])
        &&& occurrences(text, text[index], index + 1, i) == occurrences(text, text[i], index + 1, i)
    }
    ||| {
        &&& 0 <= i < index < text.len()
        &&& is_pair(text[i], text[index])
        &&& occurrences(text, text[index], i + 1, index) == occurrences(text, text[i], i + 1, index)
    }
}

/// The depth of a text is how often a bracket is opened less how often it is closed.
pub proof fn depth_counts_brackets(
    text: Seq<char>,
    opening: char,
    closing: char,
    from: int,
    to: int,
)
    requires
        0 <= from <= to <= text.len(),
        opening != closing,
    ensures
        crate::term::depth(text, opening, closing, from, to) == occurrences(text, opening, from, to)
            - occurrences(text, closing, from, to),
    decreases to - from,
{
    broadcast use vstd::seq_lib::group_to_multiset_ensures;

    if from < to {
        depth_counts_brackets(text, opening, closing, from, to - 1);
        assert(text.subrange(from, to) =~= text.subrange(from, to - 1).push(text[to - 1]));
    } else {
        assert(text.subrange(from, to) =~= Seq::<char>::empty());
    }
}

/// The bracket that matches another is the nearest one that balances it. There is no match only
/// where there is no such bracket.
pub proof fn matching_bracket_is_nearest(text: Seq<char>, index: int)
    requires
        0 <= index < text.len(),
    ensures
        match crate::term::matching_bracket(text, index) {
            Some(found) => {
                &&& balances(text, index, found)
                &&& forall|i: int|
                    index < i < found || found < i < index ==> !#[trigger] balances(text, index, i)
            },
            None => forall|i: int| !#[trigger] balances(text, index, i),
        },
{
    if let Some((bracket, forwards)) = crate::term::counterpart(text[index]) {
        if forwards {
            crate::term::lemma_close_right(text, text[index], bracket, index + 1, 0);
            assert forall|i: int| index < i < text.len() implies #[trigger] balances(text, index, i)
                == (text[i] == bracket && crate::term::depth(
                text,
                text[index],
                bracket,
                index + 1,
                i,
            ) == 0) by {
                depth_counts_brackets(text, text[index], bracket, index + 1, i);
            }
        } else {
            crate::term::lemma_close_left(text, text[index], bracket, index - 1, 0);
            assert forall|i: int| 0 <= i < index implies #[trigger] balances(text, index, i) == (
            text[i] == bracket && crate::term::depth(text, text[index], bracket, i + 1, index)
                == 0) by {
                depth_counts_brackets(text, text[index], bracket, i + 1, index);
            }
        }
    }
}

} // verus!
