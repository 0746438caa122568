# guise

An immediate-mode GUI library whose logic is verified with Verus.

Each frame, a program pushes and pops the controls it shows. The library
keeps their tree from frame to frame (matching controls by id among the
children of a control), their state bytes and payloads, which control is
active and which one is hovered, and removes the controls that were not
pushed. It also decides what a frame of input does to the widgets: clicks,
checkboxes, dropdowns, drags, moving and resizing windows, editing text in a
storage that can be spliced in place, and reading integer inputs back.

- `src/` is the verified library. Every public function states what it
  returns or changes; `src/building.rs` proves that a frame built with
  balanced pushes and pops leaves no control linked to a removed one,
  `src/ui.rs` that removing the dead controls keeps exactly the live ones,
  `src/next_frame.rs` that each of them is then found again by its id,
  with its state and activity, by the next frame, and `src/building.rs`
  that balanced pushes and pops (and a balanced overlay) return building
  to where it was. `src/draw_list.rs` keeps the renderer's lists.
- `tests/` runs the library on concrete frames and inputs.
- `app/` is the floating-point side around it: geometry, layout, hit
  testing, scrolling, drawing into vertex lists, and the placement and
  colors of the widgets.
