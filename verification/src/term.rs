//! The terminal: its grid, and searching in the text that it shows.

use vstd::prelude::*;

use crate::grid::{Cell, Flags, Grid};
use crate::index::{Column, Line, Point, Pos};
use crate::selection::Dimensions;

verus! {

/// Searching for the ends of a word or of a bracketed text.
pub trait Search {
    /// Whether a search can begin at a place.
    spec fn searchable(&self, pos: Pos) -> bool;

    /// The furthest place to the left of `pos` with no semantic escape character up to there.
    spec fn semantic_left(&self, pos: Pos) -> Pos;

    /// The furthest place to the right of `pos` with no semantic escape character up to there.
    spec fn semantic_right(&self, pos: Pos) -> Pos;

    /// The bracket that matches the one at `pos`.
    spec fn bracket_match(&self, pos: Pos) -> Option<Pos>;

    /// Find the nearest semantic boundary to the left of a point.
    fn semantic_search_left(&self, point: Point<usize>) -> (found: Point<usize>)
        requires
            self.searchable(point@),
        ensures
            found@ == self.semantic_left(point@),
    ;

    /// Find the nearest semantic boundary to the right of a point.
    fn semantic_search_right(&self, point: Point<usize>) -> (found: Point<usize>)
        requires
            self.searchable(point@),
        ensures
            found@ == self.semantic_right(point@),
    ;

    /// Find the matching bracket of the one at a point.
    fn bracket_search(&self, point: Point<usize>) -> (found: Option<Point<usize>>)
        requires
            self.searchable(point@),
        ensures
            match found {
                Some(found) => self.bracket_match(point@) == Some(found@),
                None => self.bracket_match(point@) is None,
            },
    ;
}

/// The last index that can be reached from `index` going up over characters that are not in
/// `stops`.
pub open spec fn scan_right(text: Seq<char>, stops: Seq<char>, index: int) -> int
    decreases text.len() - index,
{
    if index + 1 < text.len() && !stops.contains(text[index + 1]) {
        scan_right(text, stops, index + 1)
    } else {
        index
    }
}

/// The last index that can be reached from `index` going down over characters that are not in
/// `stops`.
pub open spec fn scan_left(text: Seq<char>, stops: Seq<char>, index: int) -> int
    decreases index,
{
    if index > 0 && !stops.contains(text[index - 1]) {
        scan_left(text, stops, index - 1)
    } else {
        index
    }
}

/// How many brackets are open after `c`, of which `opening` opens one and `closing` closes one.
pub open spec fn nest(c: char, opening: char, closing: char, open: int) -> int {
    if c == opening {
        open + 1
    } else if c == closing {
        open - 1
    } else {
        open
    }
}

/// The first index from `index` up at which `closing` stands outside the `open` brackets that
/// were left open before and those that are opened on the way.
pub open spec fn close_right(
    text: Seq<char>,
    opening: char,
    closing: char,
    index: int,
    open: int,
) -> Option<int>
    decreases text.len() - index,
{
    if index >= text.len() {
        None
    } else if text[index] == closing && open == 0 {
        Some(index)
    } else {
        close_right(text, opening, closing, index + 1, nest(text[index], opening, closing, open))
    }
}

/// The first index from `index` down at which `closing` stands outside the `open` brackets that
/// were left open before and those that are opened on the way.
pub open spec fn close_left(
    text: Seq<char>,
    opening: char,
    closing: char,
    index: int,
    open: int,
) -> Option<int>
    decreases index + 1,
{
    if index < 0 {
        None
    } else if text[index] == closing && open == 0 {
        Some(index)
    } else {
        close_left(text, opening, closing, index - 1, nest(text[index], opening, closing, open))
    }
}

/// The bracket that belongs to `c`, and whether it stands after `c`.
pub open spec fn counterpart(c: char) -> Option<(char, bool)> {
    if c == '(' {
        Some((')', true))
    } else if c == '[' {
        Some((']', true))
    } else if c == '{' {
        Some(('}', true))
    } else if c == '<' {
        Some(('>', true))
    } else if c == ')' {
        Some(('(', false))
    } else if c == ']' {
        Some(('[', false))
    } else if c == '}' {
        Some(('{', false))
    } else if c == '>' {
        Some(('<', false))
    } else {
        None
    }
}

/// The index of the bracket that matches the one at `index`.
pub open spec fn matching_bracket(text: Seq<char>, index: int) -> Option<int> {
    match counterpart(text[index]) {
        None => None,
        Some((bracket, true)) => close_right(text, text[index], bracket, index + 1, 0),
        Some((bracket, false)) => close_left(text, text[index], bracket, index - 1, 0),
    }
}

/// [`scan_right`] stops before the nearest of the stops.
pub proof fn lemma_scan_right(text: Seq<char>, stops: Seq<char>, index: int)
    requires
        0 <= index < text.len(),
    ensures
        index <= scan_right(text, stops, index) < text.len(),
        forall|i: int|
            index < i <= scan_right(text, stops, index) ==> !stops.contains(#[trigger] text[i]),
        scan_right(text, stops, index) + 1 < text.len() ==> stops.contains(
            text[scan_right(text, stops, index) + 1],
        ),
    decreases text.len() - index,
{
    if index + 1 < text.len() && !stops.contains(text[index + 1]) {
        lemma_scan_right(text, stops, index + 1);
    }
}

/// [`scan_left`] stops before the nearest of the stops.
pub proof fn lemma_scan_left(text: Seq<char>, stops: Seq<char>, index: int)
    requires
        0 <= index < text.len(),
    ensures
        0 <= scan_left(text, stops, index) <= index,
        forall|i: int|
            scan_left(text, stops, index) <= i < index ==> !stops.contains(#[trigger] text[i]),
        scan_left(text, stops, index) > 0 ==> stops.contains(
            text[scan_left(text, stops, index) - 1],
        ),
    decreases index,
{
    if index > 0 && !stops.contains(text[index - 1]) {
        lemma_scan_left(text, stops, index - 1);
    }
}

/// How many brackets are opened and not closed from `from` up to `to`.
pub open spec fn depth(text: Seq<char>, opening: char, closing: char, from: int, to: int) -> int
    decreases to - from,
{
    if to <= from {
        0
    } else {
        nest(text[to - 1], opening, closing, depth(text, opening, closing, from, to - 1))
    }
}

proof fn lemma_depth(text: Seq<char>, opening: char, closing: char, from: int, to: int)
    requires
        from < to,
    ensures
        depth(text, opening, closing, from, to) == nest(
            text[from],
            opening,
            closing,
            depth(text, opening, closing, from + 1, to),
        ),
    decreases to - from,
{
    if from + 1 < to {
        lemma_depth(text, opening, closing, from, to - 1);
    } else {
        assert(depth(text, opening, closing, from, to - 1) == 0);
    }
}

/// [`close_right`] finds the first index at which all brackets are closed.
pub proof fn lemma_close_right(
    text: Seq<char>,
    opening: char,
    closing: char,
    index: int,
    open: int,
)
    ensures
        match close_right(text, opening, closing, index, open) {
            Some(found) => {
                &&& index <= found < text.len()
                &&& text[found] == closing
                &&& open + depth(text, opening, closing, index, found) == 0
                &&& forall|i: int|
                    index <= i < found && text[i] == closing ==> open + #[trigger] depth(
                        text,
                        opening,
                        closing,
                        index,
                        i,
                    ) != 0
            },
            None => forall|i: int|
                index <= i < text.len() && text[i] == closing ==> open + #[trigger] depth(
                    text,
                    opening,
                    closing,
                    index,
                    i,
                ) != 0,
        },
    decreases text.len() - index,
{
    if index < text.len() && !(text[index] == closing && open == 0) {
        let after = nest(text[index], opening, closing, open);
        lemma_close_right(text, opening, closing, index + 1, after);
        assert forall|i: int| index < i implies open + #[trigger] depth(
            text,
            opening,
            closing,
            index,
            i,
        ) == after + depth(text, opening, closing, index + 1, i) by {
            lemma_depth(text, opening, closing, index, i);
        }
    }
}

/// [`close_left`] finds the first index down from another at which all brackets are closed.
pub proof fn lemma_close_left(
    text: Seq<char>,
    opening: char,
    closing: char,
    index: int,
    open: int,
)
    ensures
        match close_left(text, opening, closing, index, open) {
            Some(found) => {
                &&& 0 <= found <= index
                &&& text[found] == closing
                &&& open + depth(text, opening, closing, found + 1, index + 1) == 0
                &&& forall|i: int|
                    found < i <= index && #[trigger] text[i] == closing ==> open + depth(
                        text,
                        opening,
                        closing,
                        i + 1,
                        index + 1,
                    ) != 0
            },
            None => forall|i: int|
                0 <= i <= index && #[trigger] text[i] == closing ==> open + depth(
                    text,
                    opening,
                    closing,
                    i + 1,
                    index + 1,
                ) != 0,
        },
    decreases index + 1,
{
    if index >= 0 && !(text[index] == closing && open == 0) {
        let after = nest(text[index], opening, closing, open);
        lemma_close_left(text, opening, closing, index - 1, after);
    }
}

/// A terminal.
pub struct Term {
    grid: Grid,
    semantic_escape_chars: Vec<char>,
}

impl Term {
    /// The grid of the terminal.
    pub closed spec fn screen(self) -> Grid {
        self.grid
    }

    /// The characters that end a semantic selection.
    pub closed spec fn escape_chars(self) -> Seq<char> {
        self.semantic_escape_chars@
    }

    /// What the terminal shows, in reading order.
    pub open spec fn text(self) -> Seq<char> {
        Seq::new(
            self.screen().size() as nat,
            |offset: int| self.screen().cell_at(self.screen().pos_at(offset)).c,
        )
    }

    /// What a search finds lies in the grid, on the side that was searched.
    pub proof fn lemma_search(self, pos: Pos)
        requires
            self.screen().contains(pos),
        ensures
            self.screen().contains(self.semantic_left(pos)),
            self.screen().contains(self.semantic_right(pos)),
            self.bracket_match(pos) matches Some(bracket) ==> self.screen().contains(bracket),
            self.semantic_left(pos).reads_no_later(pos),
            pos.reads_no_later(self.semantic_right(pos)),
    {
        let text = self.text();
        let offset = self.screen().offset(pos);
        self.screen().lemma_offset(pos);
        lemma_scan_left(text, self.escape_chars(), offset);
        self.screen().lemma_pos_at(scan_left(text, self.escape_chars(), offset));
        lemma_scan_right(text, self.escape_chars(), offset);
        self.screen().lemma_pos_at(scan_right(text, self.escape_chars(), offset));
        self.screen().lemma_reading_order(self.semantic_left(pos), pos);
        self.screen().lemma_reading_order(pos, self.semantic_right(pos));
        if let Some((bracket, _)) = counterpart(text[offset]) {
            lemma_close_right(text, text[offset], bracket, offset + 1, 0);
            lemma_close_left(text, text[offset], bracket, offset - 1, 0);
        }
        if let Some(index) = matching_bracket(text, offset) {
            self.screen().lemma_pos_at(index);
        }
    }

    /// An empty terminal of the given size.
    pub fn new(lines: Line, cols: Column, semantic_escape_chars: Vec<char>) -> (term: Term)
        requires
            lines.0 <= isize::MAX,
            lines.0 * cols.0 <= usize::MAX,
        ensures
            term.screen().wf(),
            term.screen().lines() == lines.0,
            term.screen().cols() == cols.0,
            forall|pos: Pos|
                term.screen().contains(pos) ==> #[trigger] term.screen().cell_at(pos) == (Cell {
                    c: ' ',
                    flags: Flags { wide_char: false, wide_char_spacer: false },
                }),
            term.escape_chars() == semantic_escape_chars@,
    {
        Term { grid: Grid::new(lines, cols, Cell::default()), semantic_escape_chars }
    }

    /// The grid of the terminal.
    pub fn grid(&self) -> (grid: &Grid)
        ensures
            *grid == self.screen(),
    {
        &self.grid
    }

    /// The grid of the terminal, to be changed.
    pub fn grid_mut(&mut self) -> (grid: &mut Grid)
        ensures
            *grid == old(self).screen(),
            final(self).screen() == *final(grid),
            final(self).escape_chars() == old(self).escape_chars(),
    {
        &mut self.grid
    }

    /// Whether a character ends a semantic selection.
    fn is_escape_char(&self, c: char) -> (escape: bool)
        ensures
            escape == self.escape_chars().contains(c),
    {
        let mut i: usize = 0;
        while i < self.semantic_escape_chars.len()
            invariant
                i <= self.semantic_escape_chars@.len(),
                forall|j: int| 0 <= j < i ==> self.semantic_escape_chars@[j] != c,
            decreases self.semantic_escape_chars@.len() - i,
        {
            if self.semantic_escape_chars[i] == c {
                return true;
            }
            i += 1;
        }
        false
    }

    /// The character at a place.
    fn char_at(&self, point: Point<usize>) -> (c: char)
        requires
            self.screen().wf(),
            self.screen().contains(point@),
        ensures
            0 <= self.screen().offset(point@) < self.text().len(),
            c == self.text()[self.screen().offset(point@)],
    {
        proof {
            self.grid.lemma_offset(point@);
        }
        self.grid.cell(point).c
    }
}

impl Dimensions for Term {
    open spec fn size(&self) -> Point {
        Point {
            line: Line(self.screen().lines() as usize),
            col: Column(self.screen().cols() as usize),
        }
    }

    fn dimensions(&self) -> Point {
        Point { line: self.grid.num_lines(), col: self.grid.num_cols() }
    }
}

/// The bracket that belongs to a character, and whether it stands after it.
fn bracket_counterpart(c: char) -> (bracket: Option<(char, bool)>)
    ensures
        bracket == counterpart(c),
{
    match c {
        '(' => Some((')', true)),
        '[' => Some((']', true)),
        '{' => Some(('}', true)),
        '<' => Some(('>', true)),
        ')' => Some(('(', false)),
        ']' => Some(('[', false)),
        '}' => Some(('{', false)),
        '>' => Some(('<', false)),
        _ => None,
    }
}

impl Search for Term {
    open spec fn searchable(&self, pos: Pos) -> bool {
        self.screen().wf() && self.screen().contains(pos)
    }

    open spec fn semantic_left(&self, pos: Pos) -> Pos {
        self.screen().pos_at(
            scan_left(self.text(), self.escape_chars(), self.screen().offset(pos)),
        )
    }

    open spec fn semantic_right(&self, pos: Pos) -> Pos {
        self.screen().pos_at(
            scan_right(self.text(), self.escape_chars(), self.screen().offset(pos)),
        )
    }

    open spec fn bracket_match(&self, pos: Pos) -> Option<Pos> {
        match matching_bracket(self.text(), self.screen().offset(pos)) {
            None => None,
            Some(offset) => Some(self.screen().pos_at(offset)),
        }
    }

    fn semantic_search_left(&self, point: Point<usize>) -> (found: Point<usize>) {
        let ghost text = self.text();
        let ghost stops = self.escape_chars();
        let mut found = point;
        loop
            invariant
                self.grid.wf(),
                self.grid == self.screen(),
                self.grid.contains(found@),
                text == self.text(),
                stops == self.escape_chars(),
                scan_left(text, stops, self.grid.offset(found@)) == scan_left(
                    text,
                    stops,
                    self.grid.offset(point@),
                ),
            decreases self.grid.offset(found@),
        {
            proof {
                self.grid.lemma_offset(found@);
            }
            match self.grid.prev(found) {
                None => {
                    return found;
                },
                Some(prev) => {
                    if self.is_escape_char(self.char_at(prev)) {
                        return found;
                    }
                    found = prev;
                },
            }
        }
    }

    fn semantic_search_right(&self, point: Point<usize>) -> (found: Point<usize>) {
        let ghost text = self.text();
        let ghost stops = self.escape_chars();
        let mut found = point;
        loop
            invariant
                self.grid.wf(),
                self.grid == self.screen(),
                self.grid.contains(found@),
                text == self.text(),
                stops == self.escape_chars(),
                scan_right(text, stops, self.grid.offset(found@)) == scan_right(
                    text,
                    stops,
                    self.grid.offset(point@),
                ),
            decreases self.grid.size() - self.grid.offset(found@),
        {
            proof {
                self.grid.lemma_offset(found@);
            }
            match self.grid.next(found) {
                None => {
                    return found;
                },
                Some(next) => {
                    if self.is_escape_char(self.char_at(next)) {
                        return found;
                    }
                    found = next;
                },
            }
        }
    }

    fn bracket_search(&self, point: Point<usize>) -> (found: Option<Point<usize>>) {
        let ghost text = self.text();
        let start = self.char_at(point);
        let (bracket, forwards) = match bracket_counterpart(start) {
            None => {
                return None;
            },
            Some(counterpart) => counterpart,
        };
        let mut current = point;
        // How many brackets were opened on the way and not yet closed.
        let mut open: usize = 0;
        loop
            invariant
                self.grid.wf(),
                self.grid == self.screen(),
                self.grid.contains(point@),
                self.grid.contains(current@),
                text == self.text(),
                forwards ==> {
                    let offset = self.grid.offset(current@);
                    &&& open <= offset
                    &&& matching_bracket(text, self.grid.offset(point@)) == close_right(
                        text,
                        start,
                        bracket,
                        offset + 1,
                        open as int,
                    )
                },
                !forwards ==> {
                    let offset = self.grid.offset(current@);
                    &&& open <= self.grid.size() - 1 - offset
                    &&& matching_bracket(text, self.grid.offset(point@)) == close_left(
                        text,
                        start,
                        bracket,
                        offset - 1,
                        open as int,
                    )
                },
            decreases
                    if forwards {
                        self.grid.size() - self.grid.offset(current@)
                    } else {
                        self.grid.offset(current@)
                    },
        {
            proof {
                self.grid.lemma_offset(current@);
                self.grid.lemma_size();
            }
            let neighbour = if forwards {
                self.grid.next(current)
            } else {
                self.grid.prev(current)
            };
            match neighbour {
                None => {
                    return None;
                },
                Some(neighbour) => {
                    current = neighbour;
                },
            }
            proof {
                self.grid.lemma_offset(current@);
            }
            let c = self.char_at(current);
            if c == bracket && open == 0 {
                return Some(current);
            } else if c == start {
                open += 1;
            } else if c == bracket {
                open -= 1;
            }
        }
    }
}

} // verus!
