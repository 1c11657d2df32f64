//! The laws of selections on concrete values, and the edges of the grid.

use alacritty_terminal::grid::{Cell, Flags, Grid};
use alacritty_terminal::index::{Column, Line, Point, Side};
use alacritty_terminal::selection::{Anchor, Dimensions, Selection, Span};
use alacritty_terminal::term::{Search, Term};

fn point(line: usize, col: usize) -> Point<usize> {
    Point::new(line, Column(col))
}

fn span(start: Point<usize>, end: Point<usize>) -> Option<Span> {
    Some(Span { start, end })
}

/// A terminal that shows the given rows, the first of them at the top.
fn showing(rows: &[&str]) -> Term {
    let cols = rows[0].chars().count();
    let mut term = Term::new(Line(rows.len()), Column(cols), " ,()".chars().collect());
    for (i, row) in rows.iter().enumerate() {
        for (j, c) in row.chars().enumerate() {
            term.grid_mut().cell_mut(point(rows.len() - 1 - i, j)).c = c;
        }
    }
    term
}

fn simple(from: Point<usize>, from_side: Side, to: Point<usize>, to_side: Side) -> Selection {
    let mut selection = Selection::simple(from, from_side);
    selection.update(to, to_side);
    selection
}

fn semantic(from: Point<usize>, to: Point<usize>) -> Selection {
    let mut selection = Selection::semantic(from);
    selection.update(to, Side::Left);
    selection
}

/// All cells of a grid that a selection selects.
fn selected(selection: &Selection, term: &Term) -> Vec<(usize, usize)> {
    let size = term.dimensions();
    let mut cells = Vec::new();
    if let Some(span) = selection.to_span(term) {
        for line in 0..size.line.0 {
            for col in 0..size.col.0 {
                let after_end = span.end.line > line || span.end.line == line && span.end.col.0 <= col;
                let before_start =
                    line > span.start.line || span.start.line == line && col <= span.start.col.0;
                if after_end && before_start {
                    cells.push((line, col));
                }
            }
        }
    }
    cells
}

#[test]
fn rotations_add_up_and_are_undone() {
    let start = simple(point(2, 1), Side::Left, point(4, 0), Side::Right);
    let mut twice = start.clone();
    twice.rotate(3);
    twice.rotate(-5);
    let mut once = start.clone();
    once.rotate(-2);
    assert_eq!(twice, once);
    assert_ne!(once, start);
    once.rotate(2);
    assert_eq!(once, start);

    let mut lines = Selection::lines(point(7, 1));
    lines.rotate(-9);
    assert_eq!(
        lines,
        Selection::Lines {
            region: Point::new(-2, Column(1))..Point::new(-2, Column(1)),
            initial_line: -2
        }
    );
}

#[test]
fn last_update_counts() {
    let mut selection = Selection::simple(point(1, 1), Side::Left);
    selection.update(point(3, 0), Side::Right);
    selection.update(point(0, 2), Side::Left);
    assert_eq!(selection, simple(point(1, 1), Side::Left, point(0, 2), Side::Left));
    assert_eq!(
        selection,
        Selection::Simple {
            region: Anchor::new(Point::new(1, Column(1)), Side::Left)
                ..Anchor::new(Point::new(0, Column(2)), Side::Left)
        }
    );
}

#[test]
fn updates_move_with_the_text() {
    let mut updated_first = Selection::semantic(point(4, 0));
    updated_first.update(point(2, 3), Side::Left);
    updated_first.rotate(1);
    let mut rotated_first = Selection::semantic(point(4, 0));
    rotated_first.rotate(1);
    rotated_first.update(point(3, 3), Side::Left);
    assert_eq!(updated_first, rotated_first);
}

#[test]
fn only_simple_selections_can_be_empty() {
    let term = showing(&["ab", "cd"]);
    let mut selection = Selection::simple(point(1, 1), Side::Left);
    assert!(selection.is_empty());
    assert_eq!(selection.to_span(&term), None);
    selection.update(point(1, 1), Side::Right);
    assert!(!selection.is_empty());
    selection.update(point(1, 0), Side::Left);
    assert!(!selection.is_empty());
    selection.update(point(0, 1), Side::Left);
    assert!(!selection.is_empty());
    // Not empty, and yet without a cell.
    selection.update(point(1, 0), Side::Right);
    assert!(!selection.is_empty());
    assert_eq!(selection.to_span(&term), None);

    assert!(!Selection::semantic(point(0, 0)).is_empty());
    assert!(!Selection::lines(point(0, 0)).is_empty());
}

#[test]
fn direction_does_not_matter() {
    let term = showing(&["abcd", "efgh", "ijkl"]);
    for (a, b) in [((2, 1), (0, 2)), ((1, 0), (1, 3)), ((1, 2), (1, 2)), ((0, 0), (1, 3))] {
        let a = point(a.0, a.1);
        let b = point(b.0, b.1);
        for a_side in [Side::Left, Side::Right] {
            for b_side in [Side::Left, Side::Right] {
                assert_eq!(
                    simple(a, a_side, b, b_side).to_span(&term),
                    simple(b, b_side, a, a_side).to_span(&term)
                );
            }
        }
        assert_eq!(semantic(a, b).to_span(&term), semantic(b, a).to_span(&term));
    }
}

#[test]
fn entire_lines_are_selected() {
    let term = showing(&["abc", "def", "ghi", "jkl"]);
    let mut selection = Selection::lines(point(1, 2));
    assert_eq!(selection.to_span(&term), span(point(1, 2), point(1, 0)));
    selection.update(point(3, 1), Side::Left);
    assert_eq!(selection.to_span(&term), span(point(1, 2), point(3, 0)));
    // The initial line stays selected when the cursor moves the other way.
    selection.update(point(0, 1), Side::Right);
    assert_eq!(selection.to_span(&term), span(point(0, 2), point(1, 0)));
}

#[test]
fn simple_selection_selects_what_it_covers() {
    // Five lines of cells, of which the middle three are visible once the text has moved.
    let term = showing(&["abc", "def", "ghi"]);
    let places: Vec<Point<usize>> =
        (0..5).flat_map(|line| (0..3).map(move |col| point(line, col))).collect();
    let offset = |p: Point<usize>| (4 - p.line) * 3 + p.col.0;
    let edge = |p: Point<usize>, side: Side| offset(p) + if side == Side::Right { 1 } else { 0 };
    for from in &places {
        for to in &places {
            for from_side in [Side::Left, Side::Right] {
                for to_side in [Side::Left, Side::Right] {
                    let a = edge(*from, from_side);
                    let b = edge(*to, to_side);
                    let covered: Vec<(usize, usize)> = places
                        .iter()
                        .filter(|p| 1 <= p.line && p.line <= 3)
                        .filter(|p| a.min(b) <= offset(**p) && offset(**p) < a.max(b))
                        .map(|p| (p.line - 1, p.col.0))
                        .collect();
                    let mut selection = simple(*from, from_side, *to, to_side);
                    selection.rotate(-1);
                    assert_eq!(selected(&selection, &term), covered);
                    assert_eq!(selection.to_span(&term).is_none(), covered.is_empty());
                }
            }
        }
    }
}

#[test]
fn nothing_lies_between_the_ends_of_a_line_break() {
    let term = showing(&["ab", "cd"]);
    let selection = simple(point(1, 1), Side::Right, point(0, 0), Side::Left);
    assert_eq!(selection.to_span(&term), None);
    let selection = simple(point(0, 0), Side::Left, point(1, 1), Side::Right);
    assert_eq!(selection.to_span(&term), None);
    // The cells on either side of the break are selected once they are covered.
    let selection = simple(point(1, 1), Side::Left, point(0, 0), Side::Right);
    assert_eq!(selection.to_span(&term), span(point(0, 0), point(1, 1)));
}

#[test]
fn selection_from_the_end_of_a_line() {
    let term = showing(&["abc", "def"]);
    // The end is the place to the right of the upper line.
    let selection = simple(point(1, 2), Side::Right, point(0, 1), Side::Right);
    assert_eq!(selection.to_span(&term), span(point(0, 1), point(1, 3)));
    // The start goes back to the end of the upper line.
    let selection = simple(point(1, 0), Side::Left, point(0, 0), Side::Left);
    assert_eq!(selection.to_span(&term), span(point(1, 2), point(1, 0)));
}

#[test]
fn selection_outside_has_no_span() {
    let term = showing(&["abc", "def"]);
    let above = simple(point(2, 0), Side::Left, point(4, 1), Side::Right);
    assert_eq!(above.to_span(&term), None);
    let mut below = simple(point(0, 0), Side::Left, point(1, 1), Side::Right);
    below.rotate(-2);
    assert_eq!(below.to_span(&term), None);
    assert_eq!(Selection::lines(point(2, 0)).to_span(&term), None);
    assert_eq!(Selection::semantic(point(5, 0)).to_span(&term), None);
    assert_eq!(Selection::lines(point(0, 0)).to_span(&Term::new(Line(0), Column(3), vec![])), None);
}

#[test]
fn selection_is_clamped() {
    let term = showing(&["abc", "def"]);
    let mut selection = simple(point(0, 1), Side::Right, point(8, 2), Side::Left);
    assert_eq!(selection.to_span(&term), span(point(0, 1), point(1, 0)));
    selection.rotate(-1);
    assert_eq!(selection.to_span(&term), span(point(0, 2), point(1, 0)));

    let mut lines = Selection::lines(point(0, 0));
    lines.update(point(5, 0), Side::Left);
    lines.rotate(-2);
    assert_eq!(lines.to_span(&term), span(point(0, 2), point(1, 0)));
}

#[test]
fn clamped_ends_cover_the_cells_at_the_border() {
    let term = showing(&["abc", "def"]);
    let mut selection = simple(point(2, 0), Side::Left, point(0, 1), Side::Left);
    selection.rotate(-1);
    assert_eq!(selection.to_span(&term), span(point(0, 2), point(1, 0)));
    let selection = simple(point(0, 1), Side::Right, point(2, 1), Side::Right);
    assert_eq!(selection.to_span(&term), span(point(0, 1), point(1, 0)));
    // Nothing that is visible is covered.
    let selection = simple(point(1, 0), Side::Left, point(2, 1), Side::Right);
    assert_eq!(selection.to_span(&term), None);
    let mut selection = simple(point(0, 1), Side::Left, point(1, 2), Side::Right);
    selection.rotate(-1);
    assert_eq!(selection.to_span(&term), None);
}

#[test]
fn simple_span_moves_with_the_text() {
    let term = showing(&["abc", "def", "ghi", "jkl"]);
    let mut selection = simple(point(1, 2), Side::Right, point(0, 2), Side::Left);
    assert_eq!(selection.to_span(&term), span(point(0, 1), point(1, 3)));
    selection.rotate(2);
    assert_eq!(selection.to_span(&term), span(point(2, 1), point(3, 3)));
}

#[test]
fn columns_of_lines_do_not_matter() {
    let term = showing(&["abc", "def", "ghi"]);
    for from in 0..5 {
        for to in 0..5 {
            let mut selection = Selection::lines(point(2, from));
            selection.update(point(1, to), Side::Left);
            assert_eq!(selection.to_span(&term), span(point(1, 2), point(2, 0)));
        }
    }
}

#[test]
fn columns_are_not_clamped() {
    let term = showing(&["abc", "def"]);
    let selection = simple(point(0, 7), Side::Right, point(1, 9), Side::Left);
    assert_eq!(selection.to_span(&term), span(point(0, 7), point(1, 9)));
}

#[test]
fn lines_beyond_the_signed_range_wrap() {
    let selection = Selection::lines(point(usize::MAX, 4));
    assert_eq!(
        selection,
        Selection::Lines {
            region: Point::new(-1, Column(4))..Point::new(-1, Column(4)),
            initial_line: -1
        }
    );
    let back: Point<usize> = Point::new(-1isize, Column(4)).into();
    assert_eq!(back, point(usize::MAX, 4));
}

#[test]
fn wide_chars_are_not_split() {
    let mut term = showing(&["ab cd", "ef gh"]);
    for line in 0..2 {
        term.grid_mut().cell_mut(point(line, 0)).flags.wide_char = true;
        term.grid_mut().cell_mut(point(line, 1)).flags.wide_char_spacer = true;
        term.grid_mut().cell_mut(point(line, 3)).flags.wide_char = true;
        term.grid_mut().cell_mut(point(line, 4)).flags.wide_char_spacer = true;
    }
    let selection = simple(point(1, 4), Side::Left, point(0, 0), Side::Right);
    assert_eq!(selection.to_span(&term), span(point(0, 1), point(1, 3)));
    let selection = simple(point(1, 3), Side::Left, point(0, 1), Side::Right);
    assert_eq!(selection.to_span(&term), span(point(0, 1), point(1, 3)));
    let selection = simple(point(0, 2), Side::Left, point(0, 2), Side::Right);
    assert_eq!(selection.to_span(&term), span(point(0, 2), point(0, 2)));
}

#[test]
fn halves_at_the_edge_of_the_grid_stay() {
    let mut term = showing(&["abc"]);
    term.grid_mut().cell_mut(point(0, 0)).flags.wide_char_spacer = true;
    term.grid_mut().cell_mut(point(0, 2)).flags.wide_char = true;
    let selection = simple(point(0, 0), Side::Left, point(0, 2), Side::Right);
    assert_eq!(selection.to_span(&term), span(point(0, 2), point(0, 0)));
}

#[test]
fn semantic_selection_reaches_out() {
    let term = showing(&["ab cd", "ef gh", "ij kl"]);
    // Within a line.
    assert_eq!(Selection::semantic(point(2, 1)).to_span(&term), span(point(2, 1), point(2, 0)));
    // Across a line break.
    assert_eq!(Selection::semantic(point(2, 3)).to_span(&term), span(point(1, 1), point(2, 3)));
    // Both ends, over the escape characters in between.
    assert_eq!(
        semantic(point(0, 0), point(2, 4)).to_span(&term),
        span(point(0, 1), point(2, 3))
    );
    // To the end of the text.
    assert_eq!(Selection::semantic(point(0, 3)).to_span(&term), span(point(0, 4), point(0, 3)));
}

#[test]
fn semantic_search_stops_before_escape_characters() {
    let term = showing(&["a,bcd", "e fgh"]);
    assert_eq!(term.semantic_search_left(point(1, 4)), point(1, 2));
    assert_eq!(term.semantic_search_right(point(1, 2)), point(0, 0));
    assert_eq!(term.semantic_search_left(point(1, 0)), point(1, 0));
    assert_eq!(term.semantic_search_right(point(0, 2)), point(0, 4));
}

#[test]
fn brackets_are_matched() {
    let term = showing(&["a(b(c", ")d)[]", "<}(<>"]);
    assert_eq!(term.bracket_search(point(2, 1)), Some(point(1, 2)));
    assert_eq!(term.bracket_search(point(1, 2)), Some(point(2, 1)));
    assert_eq!(term.bracket_search(point(2, 3)), Some(point(1, 0)));
    assert_eq!(term.bracket_search(point(1, 0)), Some(point(2, 3)));
    assert_eq!(term.bracket_search(point(1, 3)), Some(point(1, 4)));
    assert_eq!(term.bracket_search(point(0, 3)), Some(point(0, 4)));
    assert_eq!(term.bracket_search(point(0, 4)), Some(point(0, 3)));
    assert_eq!(term.bracket_search(point(0, 0)), None);
    assert_eq!(term.bracket_search(point(0, 1)), None);
    assert_eq!(term.bracket_search(point(0, 2)), None);
    assert_eq!(term.bracket_search(point(2, 0)), None);
}

#[test]
fn semantic_selection_of_a_bracket_reaches_its_match() {
    let term = showing(&["a(b(c", ")d)ef"]);
    // From either bracket the end of the span is the one further up.
    assert_eq!(Selection::semantic(point(1, 1)).to_span(&term), span(point(0, 2), point(1, 1)));
    assert_eq!(Selection::semantic(point(0, 2)).to_span(&term), span(point(0, 2), point(1, 1)));
    let term = showing(&["()"]);
    assert_eq!(Selection::semantic(point(0, 0)).to_span(&term), span(point(0, 1), point(0, 0)));
    assert_eq!(Selection::semantic(point(0, 1)).to_span(&term), span(point(0, 1), point(0, 0)));
    let term = showing(&["a(b(c", ")d)ef"]);
    // Only a selection of the bracket alone reaches for the match.
    assert_eq!(
        semantic(point(1, 1), point(1, 2)).to_span(&term),
        span(point(1, 2), point(1, 0))
    );
}

#[test]
fn grid_holds_its_cells() {
    let template = Cell { c: 'x', flags: Flags { wide_char: true, wide_char_spacer: false } };
    let mut grid = Grid::new(Line(2), Column(3), template);
    assert_eq!(grid.num_lines(), Line(2));
    assert_eq!(grid.num_cols(), Column(3));
    grid.cell_mut(point(1, 2)).c = 'y';
    assert_eq!(grid.cell(point(1, 2)).c, 'y');
    assert_eq!(grid.cell(point(1, 1)), template);
    assert_eq!(grid.cell(point(0, 2)), template);
    assert_eq!(
        Cell::default(),
        Cell { c: ' ', flags: Flags { wide_char: false, wide_char_spacer: false } }
    );
    let term = Term::new(Line(4), Column(7), vec![]);
    assert_eq!(term.dimensions(), Point::new(Line(4), Column(7)));
    assert_eq!(term.grid().cell(point(3, 6)), Cell::default());
}
