//! An immediate-mode UI library: each frame the program pushes and pops the
//! controls it shows, and the library keeps their tree, state and activity
//! from one frame to the next, finds what the cursor is over, and decides
//! what a frame of input does to buttons, checkboxes, drags, dropdowns,
//! windows, text inputs and integer inputs.
//!
//! - `ui`: the tree of controls and a frame's life cycle;
//! - `building`, `next_frame`: what holds of the tree while a frame is built,
//!   balanced building returning to where it was, and what collecting its
//!   dead controls hands the next frame;
//! - `draw_list`: vertices, triangle indices and draw commands;
//! - `walk`: draw order and hover search over the tree;
//! - `flags`: input and control flag sets;
//! - `ctrl_state`: fields kept in a control's state bytes;
//! - `string`, `inline_string`: text storages that can be spliced in place;
//! - `text_edit`: what keys and typed text do to a text input;
//! - `int_input`: reading an integer input's text back as a bounded value;
//! - `widgets`: the decisions of the other widgets;
//! - `autocomplete`, `size`, `convert`: small helpers.
pub mod autocomplete;
pub mod building;
pub mod convert;
pub mod ctrl_state;
pub mod draw_list;
pub mod flags;
pub mod int_input;
pub mod inline_string;
pub mod next_frame;
pub mod size;
pub mod string;
pub mod text_edit;
pub mod ui;
pub mod walk;
pub mod widgets;
