//! The tree-walk transformer set: processors applied to every node of the
//! document tree in preorder, composing in registration order.

pub mod image_processor;
pub mod table_processor;
pub mod traits;
pub mod whitespace_processor;

pub use image_processor::ImageProcessor;
pub use table_processor::TableProcessor;
pub use traits::{NodeProcessor, ProcessContext};
pub use whitespace_processor::WhitespaceProcessor;
