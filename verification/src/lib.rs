//! Validation of structured values.
//!
//! A value is checked against a declaration: for each field in a fixed
//! order, the rules to run on it and whether validation goes on inside it.
//! Every failure is kept. The outcome is a report laid out like the value
//! itself, in which each error is filed at the path of the place where it
//! was found.
//!
//! - [`declare`] holds the declarations and finds their faults.
//! - [`validate`] runs a declaration on a [`value::Value`].
//! - [`rules`] holds the rules, one function each.
//! - [`context`] is what a validation is given from outside.
//! - [`path`], [`error`], [`report`] and [`builder`] make up the outcome.
//! - [`laws`] states what holds of every validation.

pub mod builder;
pub mod compact;
pub mod context;
pub mod declare;
pub mod error;
pub mod laws;
pub mod path;
pub mod report;
pub mod rules;
pub mod small;
pub mod task;
pub mod text;
pub mod validate;
pub mod value;

pub use context::Context;
pub use error::Error;
pub use path::Path;
pub use report::Report;
pub use value::Value;
