# langviewer

A tool to examine languages and convert them between representations; at
present it offers an editor for DFAs.

- `src/` is the verified library (Verus): the DFA being edited (its states and
  transitions and how editor messages change them), the editor's reaction to
  mouse input, the grouping and spreading of transitions drawn side by side,
  duplicate-symbol detection, and the labels of states and transitions.
- `app/` is the iced program around it: the window, the canvas, the spatial
  index of state positions (rstar) and the floating-point arrow geometry.
- `tests/` exercises the library.

## Why the states and transitions are held in `Vec`s

The DFA's states and transitions live in two `Vec`s in the library. Each state
sits at its index, and the transitions are kept in the order they were added.
The states' positions on the canvas, and the R-tree over them, are in `app/`.

That R-tree holds `f32` coordinates, and every query made on it (nearest
neighbour, within a distance, within an envelope) is a floating-point
computation, which the library cannot hold. The transitions were only ever
appended, counted and walked in order, never queried by position, so a `Vec`
keeps all that the editor relies on. `app/` turns positions into state indices
before the library sees them.
