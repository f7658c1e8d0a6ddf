//! The image preservation processor: image references pass through exactly
//! as they are.

use vstd::prelude::*;
use crate::error::Error;
use crate::node::{Node, NodeView};
use crate::processors::traits::{NodeProcessor, ProcessContext};

verus! {

pub struct ImageProcessor {
    name: String,
}

impl ImageProcessor {
    pub closed spec fn spec_name(&self) -> Seq<char> {
        self.name@
    }

    pub fn new() -> (r: Self)
        ensures
            r.spec_name() == "ImageProcessor"@,
    {
        ImageProcessor { name: "ImageProcessor".to_owned() }
    }
}

impl NodeProcessor for ImageProcessor {
    open spec fn spec_should_process(&self, node: NodeView) -> bool {
        node is Image
    }

    /// Identity: image nodes are preserved as they are.
    open spec fn spec_process(&self, node: NodeView) -> Option<NodeView> {
        Some(node)
    }

    fn should_process(&self, node: &Node) -> (r: bool) {
        matches!(node, Node::Image { .. })
    }

    fn process_node(&self, node: Node, _context: &ProcessContext) -> (r: Result<
        Option<Node>,
        Error,
    >) {
        Ok(Some(node))
    }

    fn name(&self) -> (r: &str)
        ensures
            r@ == self.spec_name(),
    {
        self.name.as_str()
    }
}

} // verus!
