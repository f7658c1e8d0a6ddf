//! The unit-level transformer chain: the unit model and the built-in
//! handlers that run over it in registration order.

pub mod heading_handler;
pub mod image_handler;
pub mod paragraph_handler;
pub mod regex_handler;
pub mod table_handler;
pub mod traits;
pub mod whitespace_handler;

pub use heading_handler::HeadingHandler;
pub use image_handler::ImageHandler;
pub use paragraph_handler::ParagraphHandler;
pub use regex_handler::RegexHandler;
pub use table_handler::TableHandler;
pub use traits::{Handler, HandlerContext, MarkdownUnit, UnitView};
pub use whitespace_handler::WhitespaceHandler;
