//! The width-aware whitespace processor: a whitespace run between two
//! full-width characters is deleted, any other run collapses to a single
//! space. Text that looks like a pipe-delimited table is left alone.

use vstd::prelude::*;
use crate::error::Error;
use crate::node::{Node, NodeView};
use crate::processors::traits::{NodeProcessor, ProcessContext};
use crate::text::{
    collapse_fullwidth, collapse_fullwidth_spaces, fullwidth_char, is_fullwidth, is_table_text,
    table_like_text,
};

verus! {

pub struct WhitespaceProcessor {
    name: String,
}

impl WhitespaceProcessor {
    pub closed spec fn spec_name(&self) -> Seq<char> {
        self.name@
    }

    pub fn new() -> (r: Self)
        ensures
            r.spec_name() == "WhitespaceProcessor"@,
    {
        WhitespaceProcessor { name: "WhitespaceProcessor".to_owned() }
    }

    /// Collapses whitespace under the width-aware policy: only a run whose
    /// neighbours are both full-width disappears; any other run becomes one
    /// space; the ends are trimmed.
    pub fn clean_whitespace(&self, text: &str) -> (r: String)
        ensures
            r@ == collapse_fullwidth(text@),
    {
        collapse_fullwidth_spaces(text)
    }

    /// Whether inter-character spacing carries no meaning around `ch`:
    /// CJK ideographs, kana, full-width forms and CJK punctuation, plus
    /// ASCII digits beside such text.
    pub fn is_fullwidth_char(&self, ch: char) -> (r: bool)
        ensures
            r == is_fullwidth(ch),
    {
        fullwidth_char(ch)
    }
}

impl NodeProcessor for WhitespaceProcessor {
    /// Applicable to text nodes only, and not to text already shaped like a
    /// table: at least two `|` and no leading image marker.
    open spec fn spec_should_process(&self, node: NodeView) -> bool {
        match node {
            NodeView::Text { value } => !is_table_text(value),
            _ => false,
        }
    }

    open spec fn spec_process(&self, node: NodeView) -> Option<NodeView> {
        match node {
            NodeView::Text { value } => Some(NodeView::Text { value: collapse_fullwidth(value) }),
            _ => Some(node),
        }
    }

    fn should_process(&self, node: &Node) -> (r: bool) {
        match node {
            Node::Text { value } => !table_like_text(value.as_str()),
            _ => false,
        }
    }

    fn process_node(&self, node: Node, _context: &ProcessContext) -> (r: Result<
        Option<Node>,
        Error,
    >) {
        match node {
            Node::Text { value } => {
                let cleaned = collapse_fullwidth_spaces(value.as_str());
                Ok(Some(Node::Text { value: cleaned }))
            },
            _ => Ok(Some(node)),
        }
    }

    fn name(&self) -> (r: &str)
        ensures
            r@ == self.spec_name(),
    {
        self.name.as_str()
    }
}

} // verus!
