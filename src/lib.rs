//! Narrowing lint findings down to the lines a branch changed.
//!
//! [`diff`] reads a unified diff into a [`changes::ChangeSet`]; [`intersect`] keeps
//! the findings that fall on changed lines; [`clippy`], [`rustfmt`] and [`linter`]
//! turn the linters' reports into findings and hold the settings of their runs.
pub mod changes;
pub mod clippy;
pub mod diff;
pub mod intersect;
pub mod linter;
pub mod rustfmt;
pub mod text;
