//! The core of an interactive evaluator console: a line-buffered output sink,
//! an append-only transcript, history recall over prior prompts, and the
//! controller that turns console events into transcript changes.

pub mod app;
pub mod history;
pub mod sink;
pub mod text;
pub mod transcript;
