//! Cleans markdown text extracted from PDFs: collapses layout whitespace in
//! prose while leaving images and tables untouched. The document is parsed
//! into a block tree, transformed by an ordered chain of content-aware
//! handlers, and re-serialized to markdown text.

pub mod cleaner;
pub mod error;
pub mod node;
pub mod handlers;
pub mod processor;
pub mod processors;
pub mod text;

pub use cleaner::{MarkdownCleaner, RegisteredProcessor};
pub use error::Error;
pub use handlers::{
    Handler, HandlerContext, MarkdownUnit, RegexHandler, HeadingHandler, ParagraphHandler,
    WhitespaceHandler, ImageHandler, TableHandler,
};
pub use processor::{MarkdownProcessor, RegisteredHandler};
pub use processors::{
    NodeProcessor, ProcessContext, WhitespaceProcessor, ImageProcessor, TableProcessor,
};

