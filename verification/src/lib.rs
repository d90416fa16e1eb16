//! A small library of verified exercises: Euclid's algorithm, searching and
//! sorting, a fixed-point Mandelbrot renderer with banded decomposition,
//! simple text parsing, and a todo-list state machine.

pub mod basics;
pub mod mandel;
pub mod euclid;
pub mod menu;
pub mod models;
pub mod numfmt;
pub mod ownership;
pub mod parse;
pub mod quickreplace;
pub mod render;
pub mod search;
pub mod sort;
pub mod todo;
pub mod todo_list;
