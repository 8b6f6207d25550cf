//! A verified core for an interactive terminal task board.
//!
//! Tasks live in a single ordered collection together with a focused index.
//! Key presses are translated by a board view into [`operation::Operation`]
//! values, which a [`task_manager::TaskManager`] validates and applies to the
//! collection, notifying the view after every accepted mutation so that its
//! derived column grouping stays consistent.

pub mod board_renderer;
pub mod operation;
pub mod renderer;
pub mod task;
pub mod task_manager;
pub mod task_state;
pub mod undo_tree;
pub mod writer;
