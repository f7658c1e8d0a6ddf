//! The flatten-and-transform pipeline: top-level blocks become units, the
//! handler chain runs over each unit in order, and the units are
//! re-serialized to markdown text.

pub mod markdown_processor;

pub use markdown_processor::{MarkdownProcessor, RegisteredHandler};
