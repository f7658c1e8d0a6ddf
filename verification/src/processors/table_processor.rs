//! The table preservation processor: table nodes, and text shaped like
//! pipe-delimited table content, pass through exactly as they are.

use vstd::prelude::*;
use crate::error::Error;
use crate::node::{Node, NodeView};
use crate::processors::traits::{NodeProcessor, ProcessContext};
use crate::text::{is_table_text, table_like_text};

verus! {

pub struct TableProcessor {
    name: String,
}

impl TableProcessor {
    pub closed spec fn spec_name(&self) -> Seq<char> {
        self.name@
    }

    pub fn new() -> (r: Self)
        ensures
            r.spec_name() == "TableProcessor"@,
    {
        TableProcessor { name: "TableProcessor".to_owned() }
    }
}

impl NodeProcessor for TableProcessor {
    /// Applicable to table nodes and to text with at least two `|` that
    /// does not open with an image marker.
    open spec fn spec_should_process(&self, node: NodeView) -> bool {
        match node {
            NodeView::Table { .. } => true,
            NodeView::Text { value } => is_table_text(value),
            _ => false,
        }
    }

    /// Identity: tables are preserved as they are, whether parsed as table
    /// nodes or arriving as pipe-delimited text.
    open spec fn spec_process(&self, node: NodeView) -> Option<NodeView> {
        Some(node)
    }

    fn should_process(&self, node: &Node) -> (r: bool) {
        match node {
            Node::Table { .. } => true,
            Node::Text { value } => table_like_text(value.as_str()),
            _ => false,
        }
    }

    fn process_node(&self, node: Node, _context: &ProcessContext) -> (r: Result<
        Option<Node>,
        Error,
    >) {
        Ok(Some(node))
    }

    fn name(&self) -> (r: &str)
        ensures
            r@ == self.spec_name(),
    {
        self.name.as_str()
    }
}

} // verus!
