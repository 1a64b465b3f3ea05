# sqlly-datatable

The verified core of a virtualized data grid: selection geometry, sorting and
filtering of the display order, grouped row sections, windowed (paged) rows,
grid-wide search, the column context menu and the snapshot handed to a menu
provider, the per-column filter popover, and the keyboard and mouse state
machine. Every function in `src/` carries a contract, and Verus proves all
of them but four thin wrappers around the standard library (lower-casing and
trimming a string, appending a character, a stable sort by key), whose
contracts restate what the standard library documents.

The library works on plain values: the host supplies the displayed text of
every cell and, for the filters that compare parsed numbers or patterns, its
verdict on each cell; the library judges the text filters and value lists,
ranks cells in its total sort order, and re-derives the display order. The
host carries out the effects commands hand back (clipboard text, opening the
filter popover, tracking a drag) and re-derives the order when the popover
commits a numeric or pattern filter, which only the host can judge.

## Layout

- `src/selection.rs`, `src/navigation.rs`: selections, their bounds, what they
  cover, arrow-key movement and range extension, select-all, paging.
- `src/state.rs`: the grid state, display order, sections, windowed rows,
  streaming appends, search re-scans.
- `src/order.rs`, `src/cell_order.rs`, `src/grouping.rs`: filtered and
  sorted order, the order on cells and their ranks, sections by first
  appearance.
- `src/search.rs`, `src/find.rs`: the find bar's matches and navigation.
- `src/menu.rs`, `src/context_menu.rs`, `src/request.rs`, `src/commands.rs`:
  menus, right-click snapshots, menu actions, keys and mouse presses.
- `src/filter.rs`, `src/filter_panel.rs`, `src/panel_ops.rs`,
  `src/numeric.rs`: committed filters and their verdicts, the filter popover,
  and which typed operands name numbers.
- `src/clipboard.rs`, `src/drill.rs`, `src/status.rs`, `src/rows.rs`: text
  produced for the clipboard, banners, the status line and the gutter.
- `src/text.rs`, `src/text_input.rs`: character-level helpers and the
  single-line input.
- `app/`: host-side code in floating point or wall-clock time (scroll physics,
  menu placement, edge scrolling, status formatting, numeric filter
  verdicts) and the glue that feeds the core.
- `tests/`: behaviour tests of the library.
