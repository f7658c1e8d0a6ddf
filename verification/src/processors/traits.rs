//! The capability a tree-walk processor offers: declare applicability to a
//! node, and produce a replacement or a no-op.

use vstd::prelude::*;
use crate::error::Error;
use crate::node::{Node, NodeView};

verus! {

#[derive(Debug)]
pub struct ProcessContext {
    pub file_path: Option<String>,
}

impl Default for ProcessContext {
    fn default() -> (r: Self)
        ensures
            r.file_path is None,
    {
        ProcessContext { file_path: None }
    }
}

/// The view of what a processor hands back: a replacement node or a no-op.
pub open spec fn node_replacement_view(r: Option<Node>) -> Option<NodeView> {
    match r {
        Some(n) => Some(n@),
        None => None,
    }
}

/// A stateless rule over tree nodes. `process_node` is total on well-formed
/// processors: it never fails at apply time.
pub trait NodeProcessor: Sized {
    /// Whether this processor should handle the given node.
    spec fn spec_should_process(&self, node: NodeView) -> bool;

    /// The replacement this processor produces, or `None` to remove the
    /// node.
    spec fn spec_process(&self, node: NodeView) -> Option<NodeView>;

    fn should_process(&self, node: &Node) -> (r: bool)
        ensures
            r == self.spec_should_process(node@),
    ;

    /// A processor rewrites terminal text only: any node that is not a
    /// text node passes through untouched, which keeps the recursive walk
    /// over replaced nodes well-founded.
    fn process_node(&self, node: Node, context: &ProcessContext) -> (r: Result<Option<Node>, Error>)
        ensures
            r is Ok,
            node_replacement_view(r->Ok_0) == self.spec_process(node@),
            !(node@ is Text) ==> r == Ok::<Option<Node>, Error>(Some(node)),
    ;

    fn name(&self) -> &str;
}

} // verus!
