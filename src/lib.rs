//! Habit tracking: a history engine that keeps each habit's completion dates
//! sorted and free of duplicates and derives its current streak, and the
//! geometry that places completion dates on a terminal calendar grid.

pub mod date;

pub use date::Date;
pub mod habit;

pub use habit::{Habit, HabitError};
pub mod tracker;

pub use habit::MarkReport;
pub use tracker::{add_habit, check_streak, find_habit, mark_habit, remove_habit};
pub mod grid;

pub use grid::{future_cells, graph_cells, locate, Cell};
pub mod edit;

pub use edit::{edit_step, EditKey};
