# alacritty_terminal: selection

Tracks a text selection in the grid of a terminal, and tells which cells it spans.

- `src/index.rs`: points, columns, lines and sides.
- `src/grid.rs`: the cells of the grid, in reading order.
- `src/term.rs`: the terminal, with the search for semantic boundaries and matching brackets.
- `src/selection.rs`: the three kinds of selection, how they are moved, and their spans.
- `src/laws.rs`: what holds of selections as a whole.
- `tests/`: runs the library on concrete terminals.

Lines are counted from the bottom of the buffer. A selection is modelled by a `Region` of unbounded
coordinates, a span by a `Stretch`; `Region::span` says which stretch of a terminal a region selects.
