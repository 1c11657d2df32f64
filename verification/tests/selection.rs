//! Tests for selection
//!
//! There are comments on all of the tests describing the selection. Pictograms
//! are used to avoid ambiguity. Grid cells are represented by a [  ]. Only
//! cells that are completely covered are counted in a selection. Ends are
//! represented by `B` and `E` for begin and end, respectively.  A selected cell
//! looks like [XX], [BX] (at the start), [XB] (at the end), [XE] (at the end),
//! and [EX] (at the start), or [BE] for a single cell. Partially selected cells
//! look like [ B] and [E ].

use std::mem;

use alacritty_terminal::grid::{Cell, Grid};
use alacritty_terminal::index::{Column, Line, Point, Side};
use alacritty_terminal::selection::{Selection, Span};
use alacritty_terminal::term::Term;

fn term(width: usize, height: usize) -> Term {
    let escape_chars: Vec<char> = ",│`|:\"' ()[]{}<>".chars().collect();
    Term::new(Line(height), Column(width), escape_chars)
}

/// Test case of single cell selection
///
/// 1. [  ]
/// 2. [B ]
/// 3. [BE]
#[test]
fn single_cell_left_to_right() {
    let location = Point { line: 0, col: Column(0) };
    let mut selection = Selection::simple(location, Side::Left);
    selection.update(location, Side::Right);

    assert_eq!(selection.to_span(&term(1, 1)).unwrap(), Span { start: location, end: location });
}

/// Test case of single cell selection
///
/// 1. [  ]
/// 2. [ B]
/// 3. [EB]
#[test]
fn single_cell_right_to_left() {
    let location = Point { line: 0, col: Column(0) };
    let mut selection = Selection::simple(location, Side::Right);
    selection.update(location, Side::Left);

    assert_eq!(selection.to_span(&term(1, 1)).unwrap(), Span { start: location, end: location });
}

/// Test adjacent cell selection from left to right
///
/// 1. [  ][  ]
/// 2. [ B][  ]
/// 3. [ B][E ]
#[test]
fn between_adjacent_cells_left_to_right() {
    let mut selection = Selection::simple(Point::new(0, Column(0)), Side::Right);
    selection.update(Point::new(0, Column(1)), Side::Left);

    assert_eq!(selection.to_span(&term(2, 1)), None);
}

/// Test adjacent cell selection from right to left
///
/// 1. [  ][  ]
/// 2. [  ][B ]
/// 3. [ E][B ]
#[test]
fn between_adjacent_cells_right_to_left() {
    let mut selection = Selection::simple(Point::new(0, Column(1)), Side::Left);
    selection.update(Point::new(0, Column(0)), Side::Right);

    assert_eq!(selection.to_span(&term(2, 1)), None);
}

/// Test selection across adjacent lines
///
///
/// 1.  [  ][  ][  ][  ][  ]
///     [  ][  ][  ][  ][  ]
/// 2.  [  ][ B][  ][  ][  ]
///     [  ][  ][  ][  ][  ]
/// 3.  [  ][ B][XX][XX][XX]
///     [XX][XE][  ][  ][  ]
#[test]
fn across_adjacent_lines_upward_final_cell_exclusive() {
    let mut selection = Selection::simple(Point::new(1, Column(1)), Side::Right);
    selection.update(Point::new(0, Column(1)), Side::Right);

    assert_eq!(
        selection.to_span(&term(5, 2)).unwrap(),
        Span { start: Point::new(0, Column(1)), end: Point::new(1, Column(2)) }
    );
}

/// Test selection across adjacent lines
///
///
/// 1.  [  ][  ][  ][  ][  ]
///     [  ][  ][  ][  ][  ]
/// 2.  [  ][  ][  ][  ][  ]
///     [  ][ B][  ][  ][  ]
/// 3.  [  ][ E][XX][XX][XX]
///     [XX][XB][  ][  ][  ]
/// 4.  [ E][XX][XX][XX][XX]
///     [XX][XB][  ][  ][  ]
#[test]
fn selection_bigger_then_smaller() {
    let mut selection = Selection::simple(Point::new(0, Column(1)), Side::Right);
    selection.update(Point::new(1, Column(1)), Side::Right);
    selection.update(Point::new(1, Column(0)), Side::Right);

    assert_eq!(
        selection.to_span(&term(5, 2)).unwrap(),
        Span { start: Point::new(0, Column(1)), end: Point::new(1, Column(1)) }
    );
}

#[test]
fn alt_screen_lines() {
    let mut selection = Selection::lines(Point::new(0, Column(0)));
    selection.update(Point::new(5, Column(3)), Side::Right);
    selection.rotate(-3);

    assert_eq!(
        selection.to_span(&term(5, 10)).unwrap(),
        Span { start: Point::new(0, Column(4)), end: Point::new(2, Column(0)) }
    );
}

#[test]
fn alt_screen_semantic() {
    let mut selection = Selection::semantic(Point::new(0, Column(0)));
    selection.update(Point::new(5, Column(3)), Side::Right);
    selection.rotate(-3);

    assert_eq!(
        selection.to_span(&term(5, 10)).unwrap(),
        Span { start: Point::new(0, Column(4)), end: Point::new(2, Column(3)) }
    );
}

#[test]
fn alt_screen_simple() {
    let mut selection = Selection::simple(Point::new(0, Column(0)), Side::Right);
    selection.update(Point::new(5, Column(3)), Side::Right);
    selection.rotate(-3);

    assert_eq!(
        selection.to_span(&term(5, 10)).unwrap(),
        Span { start: Point::new(0, Column(4)), end: Point::new(2, Column(4)) }
    );
}

#[test]
fn double_width_expansion() {
    let mut term = term(10, 1);
    let mut grid = Grid::new(Line(1), Column(10), Cell::default());
    grid.cell_mut(Point::new(0, Column(0))).flags.wide_char = true;
    grid.cell_mut(Point::new(0, Column(1))).flags.wide_char_spacer = true;
    grid.cell_mut(Point::new(0, Column(8))).flags.wide_char = true;
    grid.cell_mut(Point::new(0, Column(9))).flags.wide_char_spacer = true;
    mem::swap(term.grid_mut(), &mut grid);

    let mut selection = Selection::simple(Point::new(0, Column(1)), Side::Left);
    selection.update(Point::new(0, Column(8)), Side::Right);

    assert_eq!(
        selection.to_span(&term).unwrap(),
        Span { start: Point::new(0, Column(9)), end: Point::new(0, Column(0)) }
    );
}
