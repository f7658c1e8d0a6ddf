//! The tree-walk pipeline: every processor is applied to every node in
//! preorder, composing in registration order, and the walk then recurses
//! into the children of the (possibly replaced) node — except under code
//! blocks, whose formatting is preserved exactly. The mutated tree is
//! re-serialized to markdown text.

use vstd::prelude::*;
use crate::error::Error;
use crate::node::{Node, NodeView, node_view, views_of, lemma_views_of};
use crate::processors::image_processor::ImageProcessor;
use crate::processors::table_processor::TableProcessor;
use crate::processors::traits::{NodeProcessor, ProcessContext};
use crate::processors::whitespace_processor::WhitespaceProcessor;
use crate::text::{
    collapse_fullwidth, is_table_text, join_with, lemma_collapse_fullwidth_idempotent, lines_of,
    repeat_char, split_lines, push_repeated,
};
use vstd::string::{StrSliceExecFns, StringExecFns};

verus! {

broadcast use vstd::std_specs::vec::group_vec_axioms;

/// A chain entry: one of the built-in processors, dispatched statically.
pub enum RegisteredProcessor {
    Whitespace(WhitespaceProcessor),
    Image(ImageProcessor),
    Table(TableProcessor),
}

impl NodeProcessor for RegisteredProcessor {
    open spec fn spec_should_process(&self, node: NodeView) -> bool {
        match self {
            RegisteredProcessor::Whitespace(p) => p.spec_should_process(node),
            RegisteredProcessor::Image(p) => p.spec_should_process(node),
            RegisteredProcessor::Table(p) => p.spec_should_process(node),
        }
    }

    open spec fn spec_process(&self, node: NodeView) -> Option<NodeView> {
        match self {
            RegisteredProcessor::Whitespace(p) => p.spec_process(node),
            RegisteredProcessor::Image(p) => p.spec_process(node),
            RegisteredProcessor::Table(p) => p.spec_process(node),
        }
    }

    fn should_process(&self, node: &Node) -> (r: bool) {
        match self {
            RegisteredProcessor::Whitespace(p) => p.should_process(node),
            RegisteredProcessor::Image(p) => p.should_process(node),
            RegisteredProcessor::Table(p) => p.should_process(node),
        }
    }

    fn process_node(&self, node: Node, context: &ProcessContext) -> (r: Result<Option<Node>, Error>) {
        match self {
            RegisteredProcessor::Whitespace(p) => p.process_node(node, context),
            RegisteredProcessor::Image(p) => p.process_node(node, context),
            RegisteredProcessor::Table(p) => p.process_node(node, context),
        }
    }

    fn name(&self) -> (r: &str) {
        match self {
            RegisteredProcessor::Whitespace(p) => p.name(),
            RegisteredProcessor::Image(p) => p.name(),
            RegisteredProcessor::Table(p) => p.name(),
        }
    }
}

/// What one chain entry does to a node: the replacement when the processor
/// applies and produces one, the node itself otherwise.
pub open spec fn apply_processor(p: RegisteredProcessor, v: NodeView) -> NodeView {
    if p.spec_should_process(v) {
        match p.spec_process(v) {
            Some(w) => w,
            None => v,
        }
    } else {
        v
    }
}

/// The whole chain applied to one node, in registration order.
pub open spec fn apply_processors(ps: Seq<RegisteredProcessor>, v: NodeView) -> NodeView
    decreases ps.len(),
{
    if ps.len() == 0 {
        v
    } else {
        apply_processor(ps.last(), apply_processors(ps.drop_last(), v))
    }
}

/// The built-in processors rewrite text nodes only: the chain leaves any
/// other node untouched, and maps a text node to a text node.
pub proof fn lemma_processors_shape(ps: Seq<RegisteredProcessor>, v: NodeView)
    ensures
        apply_processors(ps, v) == v || (v is Text && apply_processors(ps, v) is Text),
    decreases ps.len(),
{
    if ps.len() > 0 {
        lemma_processors_shape(ps.drop_last(), v);
    }
}

/// The tree transformed: the chain applied to the node, then to the
/// children of the result, recursively — except that code blocks and
/// terminal nodes are not descended into, and neither are emphasis marks,
/// which the walk does not handle.
pub open spec fn transform_tree(ps: Seq<RegisteredProcessor>, v: NodeView) -> NodeView
    decreases v, 1int,
    via transform_tree_dec
{
    let w = apply_processors(ps, v);
    match w {
        NodeView::Root { children } => NodeView::Root {
            children: transform_children(ps, children),
        },
        NodeView::Heading { depth, children } => NodeView::Heading {
            depth,
            children: transform_children(ps, children),
        },
        NodeView::Paragraph { children } => NodeView::Paragraph {
            children: transform_children(ps, children),
        },
        NodeView::Blockquote { children } => NodeView::Blockquote {
            children: transform_children(ps, children),
        },
        NodeView::List { children } => NodeView::List {
            children: transform_children(ps, children),
        },
        NodeView::ListItem { children } => NodeView::ListItem {
            children: transform_children(ps, children),
        },
        NodeView::Table { children } => NodeView::Table {
            children: transform_children(ps, children),
        },
        NodeView::TableRow { children } => NodeView::TableRow {
            children: transform_children(ps, children),
        },
        NodeView::TableCell { children } => NodeView::TableCell {
            children: transform_children(ps, children),
        },
        _ => w,
    }
}

pub open spec fn transform_children(ps: Seq<RegisteredProcessor>, s: Seq<NodeView>) -> Seq<
    NodeView,
>
    decreases s, 0int,
{
    if s.len() == 0 {
        Seq::empty()
    } else {
        transform_children(ps, s.drop_last()).push(transform_tree(ps, s.last()))
    }
}

#[via_fn]
proof fn transform_tree_dec(ps: Seq<RegisteredProcessor>, v: NodeView) {
    lemma_processors_shape(ps, v);
}

/// The markdown a tree node serializes back to: top-level blocks joined by
/// blank lines, `#` marks for headings, fenced code blocks, `- ` items,
/// `> ` line prefixes for blockquotes, `|`-delimited table rows, and text
/// and images verbatim. Emphasis marks are not handled and serialize to
/// nothing.
pub open spec fn tree_markdown(v: NodeView) -> Seq<char>
    decreases v, 1int,
{
    match v {
        NodeView::Root { children } => tree_join(children, "\n\n"@),
        NodeView::Text { value } => value,
        NodeView::Heading { depth, children } => repeat_char('#', depth as nat) + " "@
            + tree_concat(children),
        NodeView::Paragraph { children } => tree_concat(children),
        NodeView::Image { alt, url } => "!["@ + alt + "]("@ + url + ")"@,
        NodeView::Code { lang, value } => match lang {
            Some(l) => "```"@ + l + "\n"@ + value + "\n```"@,
            None => "```"@ + "\n"@ + value + "\n```"@,
        },
        NodeView::Blockquote { children } => join_with(
            lines_of(tree_concat(children)).map_values(|l: Seq<char>| "> "@ + l),
            "\n"@,
        ),
        NodeView::List { children } => tree_join(children, "\n"@),
        NodeView::ListItem { children } => "- "@ + tree_concat(children),
        NodeView::Table { children } => tree_join(children, "\n"@),
        NodeView::TableRow { children } => "| "@ + tree_join(children, " | "@) + " |"@,
        NodeView::TableCell { children } => tree_concat(children),
        _ => Seq::empty(),
    }
}

/// The children's markdown, concatenated.
pub open spec fn tree_concat(s: Seq<NodeView>) -> Seq<char>
    decreases s, 0int,
{
    if s.len() == 0 {
        Seq::empty()
    } else {
        tree_concat(s.drop_last()) + tree_markdown(s.last())
    }
}

/// The children's markdown, joined by `sep`.
pub open spec fn tree_join(s: Seq<NodeView>, sep: Seq<char>) -> Seq<char>
    decreases s, 0int,
{
    if s.len() == 0 {
        Seq::empty()
    } else if s.len() == 1 {
        tree_markdown(s[0])
    } else {
        tree_join(s.drop_last(), sep) + sep + tree_markdown(s.last())
    }
}

/// A node after the whitespace processor: text is collapsed unless it is
/// table-shaped; any other node is as it was.
pub open spec fn ws_node(v: NodeView) -> NodeView {
    match v {
        NodeView::Text { value } => if is_table_text(value) {
            v
        } else {
            NodeView::Text { value: collapse_fullwidth(value) }
        },
        _ => v,
    }
}

/// Normalizing an already-normalized node changes nothing.
proof fn lemma_ws_node_idempotent(v: NodeView)
    ensures
        ws_node(ws_node(v)) == ws_node(v),
{
    match v {
        NodeView::Text { value } => {
            if !is_table_text(value) {
                lemma_collapse_fullwidth_idempotent(value);
            }
        },
        _ => {},
    }
}

/// A chain of the built-in processors either leaves a node alone or
/// whitespace-normalizes its text.
proof fn lemma_processors_ws_shape(ps: Seq<RegisteredProcessor>, v: NodeView)
    ensures
        apply_processors(ps, v) == v || apply_processors(ps, v) == ws_node(v),
    decreases ps.len(),
{
    if ps.len() > 0 {
        lemma_processors_ws_shape(ps.drop_last(), v);
        lemma_ws_node_idempotent(v);
    }
}

/// Applying the chain a second time to a node changes nothing.
proof fn lemma_apply_processors_idempotent(ps: Seq<RegisteredProcessor>, v: NodeView)
    ensures
        apply_processors(ps, apply_processors(ps, v)) == apply_processors(ps, v),
{
    lemma_processors_ws_shape(ps, v);
    let w = apply_processors(ps, v);
    if w == ws_node(v) {
        lemma_processors_ws_shape(ps, w);
        lemma_ws_node_idempotent(v);
    }
}

/// Idempotence of the tree pipeline: walking an already-walked tree with
/// the built-in processors yields the same tree, for every input and every
/// chain.
pub proof fn lemma_transform_tree_idempotent(ps: Seq<RegisteredProcessor>, v: NodeView)
    ensures
        transform_tree(ps, transform_tree(ps, v)) == transform_tree(ps, v),
    decreases v, 1int,
{
    lemma_processors_shape(ps, v);
    let w = apply_processors(ps, v);
    let out = transform_tree(ps, v);
    match w {
        NodeView::Root { children } => {
            lemma_processors_shape(ps, out);
            lemma_transform_children_idempotent(ps, children);
        },
        NodeView::Heading { children, .. } => {
            lemma_processors_shape(ps, out);
            lemma_transform_children_idempotent(ps, children);
        },
        NodeView::Paragraph { children } => {
            lemma_processors_shape(ps, out);
            lemma_transform_children_idempotent(ps, children);
        },
        NodeView::Blockquote { children } => {
            lemma_processors_shape(ps, out);
            lemma_transform_children_idempotent(ps, children);
        },
        NodeView::List { children } => {
            lemma_processors_shape(ps, out);
            lemma_transform_children_idempotent(ps, children);
        },
        NodeView::ListItem { children } => {
            lemma_processors_shape(ps, out);
            lemma_transform_children_idempotent(ps, children);
        },
        NodeView::Table { children } => {
            lemma_processors_shape(ps, out);
            lemma_transform_children_idempotent(ps, children);
        },
        NodeView::TableRow { children } => {
            lemma_processors_shape(ps, out);
            lemma_transform_children_idempotent(ps, children);
        },
        NodeView::TableCell { children } => {
            lemma_processors_shape(ps, out);
            lemma_transform_children_idempotent(ps, children);
        },
        _ => {
            assert(out == w);
            lemma_apply_processors_idempotent(ps, v);
        },
    }
}

proof fn lemma_transform_children_idempotent(ps: Seq<RegisteredProcessor>, s: Seq<NodeView>)
    ensures
        transform_children(ps, transform_children(ps, s)) == transform_children(ps, s),
    decreases s, 0int,
{
    if s.len() > 0 {
        lemma_transform_children_idempotent(ps, s.drop_last());
        lemma_transform_tree_idempotent(ps, s.last());
        let once = transform_children(ps, s);
        assert(once.drop_last() =~= transform_children(ps, s.drop_last()));
        assert(once.last() == transform_tree(ps, s.last()));
        assert(transform_children(ps, once).drop_last() =~= transform_children(
            ps,
            once.drop_last(),
        ));
    }
}

/// The tree walk leaves an image node exactly as it is: no processor
/// rewrites it, and it has no children to descend into.
pub proof fn lemma_tree_image_unchanged(ps: Seq<RegisteredProcessor>, v: NodeView)
    requires
        v is Image,
    ensures
        transform_tree(ps, v) == v,
{
    lemma_processors_shape(ps, v);
}

/// The chain leaves table-shaped text alone: the whitespace processor's own
/// exclusion rule skips text with at least two `|` and no leading image
/// marker, whatever the chain order.
pub proof fn lemma_processors_keep_table_text(ps: Seq<RegisteredProcessor>, v: NodeView)
    requires
        v matches NodeView::Text { value } && is_table_text(value),
    ensures
        apply_processors(ps, v) == v,
    decreases ps.len(),
{
    if ps.len() > 0 {
        lemma_processors_keep_table_text(ps.drop_last(), v);
    }
}

/// The tree walk leaves table-shaped text exactly as it is.
pub proof fn lemma_tree_table_text_unchanged(ps: Seq<RegisteredProcessor>, v: NodeView)
    requires
        v matches NodeView::Text { value } && is_table_text(value),
    ensures
        transform_tree(ps, v) == v,
{
    lemma_processors_keep_table_text(ps, v);
}

/// How many image nodes a tree holds, at any depth.
pub open spec fn tree_image_count(v: NodeView) -> nat
    decreases v, 1int,
{
    match v {
        NodeView::Image { .. } => 1,
        NodeView::Root { children } => seq_image_count(children),
        NodeView::Heading { children, .. } => seq_image_count(children),
        NodeView::Paragraph { children } => seq_image_count(children),
        NodeView::Blockquote { children } => seq_image_count(children),
        NodeView::List { children } => seq_image_count(children),
        NodeView::ListItem { children } => seq_image_count(children),
        NodeView::Table { children } => seq_image_count(children),
        NodeView::TableRow { children } => seq_image_count(children),
        NodeView::TableCell { children } => seq_image_count(children),
        NodeView::Strong { children } => seq_image_count(children),
        NodeView::Emphasis { children } => seq_image_count(children),
        _ => 0,
    }
}

pub open spec fn seq_image_count(s: Seq<NodeView>) -> nat
    decreases s, 0int,
{
    if s.len() == 0 {
        0
    } else {
        seq_image_count(s.drop_last()) + tree_image_count(s.last())
    }
}

/// How many table rows a tree holds, at any depth.
pub open spec fn tree_row_count(v: NodeView) -> nat
    decreases v, 1int,
{
    match v {
        NodeView::TableRow { children } => 1 + seq_row_count(children),
        NodeView::Root { children } => seq_row_count(children),
        NodeView::Heading { children, .. } => seq_row_count(children),
        NodeView::Paragraph { children } => seq_row_count(children),
        NodeView::Blockquote { children } => seq_row_count(children),
        NodeView::List { children } => seq_row_count(children),
        NodeView::ListItem { children } => seq_row_count(children),
        NodeView::Table { children } => seq_row_count(children),
        NodeView::TableCell { children } => seq_row_count(children),
        NodeView::Strong { children } => seq_row_count(children),
        NodeView::Emphasis { children } => seq_row_count(children),
        _ => 0,
    }
}

pub open spec fn seq_row_count(s: Seq<NodeView>) -> nat
    decreases s, 0int,
{
    if s.len() == 0 {
        0
    } else {
        seq_row_count(s.drop_last()) + tree_row_count(s.last())
    }
}

/// Image count invariant for the tree walk: for every input tree and every
/// chain of the built-in processors, the transformed tree holds exactly as
/// many image nodes as the input.
pub proof fn lemma_tree_image_count_invariant(ps: Seq<RegisteredProcessor>, v: NodeView)
    ensures
        tree_image_count(transform_tree(ps, v)) == tree_image_count(v),
    decreases v, 1int,
{
    lemma_processors_shape(ps, v);
    let w = apply_processors(ps, v);
    match w {
        NodeView::Root { children } => lemma_seq_image_count_invariant(ps, children),
        NodeView::Heading { children, .. } => lemma_seq_image_count_invariant(ps, children),
        NodeView::Paragraph { children } => lemma_seq_image_count_invariant(ps, children),
        NodeView::Blockquote { children } => lemma_seq_image_count_invariant(ps, children),
        NodeView::List { children } => lemma_seq_image_count_invariant(ps, children),
        NodeView::ListItem { children } => lemma_seq_image_count_invariant(ps, children),
        NodeView::Table { children } => lemma_seq_image_count_invariant(ps, children),
        NodeView::TableRow { children } => lemma_seq_image_count_invariant(ps, children),
        NodeView::TableCell { children } => lemma_seq_image_count_invariant(ps, children),
        _ => {},
    }
}

proof fn lemma_seq_image_count_invariant(ps: Seq<RegisteredProcessor>, s: Seq<NodeView>)
    ensures
        seq_image_count(transform_children(ps, s)) == seq_image_count(s),
    decreases s, 0int,
{
    if s.len() > 0 {
        lemma_seq_image_count_invariant(ps, s.drop_last());
        lemma_tree_image_count_invariant(ps, s.last());
        assert(transform_children(ps, s).drop_last() =~= transform_children(ps, s.drop_last()));
        assert(transform_children(ps, s).last() == transform_tree(ps, s.last()));
    }
}

/// Table row invariant for the tree walk: for every input tree and every
/// chain of the built-in processors, the transformed tree holds exactly as
/// many table rows as the input.
pub proof fn lemma_tree_row_count_invariant(ps: Seq<RegisteredProcessor>, v: NodeView)
    ensures
        tree_row_count(transform_tree(ps, v)) == tree_row_count(v),
    decreases v, 1int,
{
    lemma_processors_shape(ps, v);
    let w = apply_processors(ps, v);
    match w {
        NodeView::Root { children } => lemma_seq_row_count_invariant(ps, children),
        NodeView::Heading { children, .. } => lemma_seq_row_count_invariant(ps, children),
        NodeView::Paragraph { children } => lemma_seq_row_count_invariant(ps, children),
        NodeView::Blockquote { children } => lemma_seq_row_count_invariant(ps, children),
        NodeView::List { children } => lemma_seq_row_count_invariant(ps, children),
        NodeView::ListItem { children } => lemma_seq_row_count_invariant(ps, children),
        NodeView::Table { children } => lemma_seq_row_count_invariant(ps, children),
        NodeView::TableRow { children } => lemma_seq_row_count_invariant(ps, children),
        NodeView::TableCell { children } => lemma_seq_row_count_invariant(ps, children),
        _ => {},
    }
}

proof fn lemma_seq_row_count_invariant(ps: Seq<RegisteredProcessor>, s: Seq<NodeView>)
    ensures
        seq_row_count(transform_children(ps, s)) == seq_row_count(s),
    decreases s, 0int,
{
    if s.len() > 0 {
        lemma_seq_row_count_invariant(ps, s.drop_last());
        lemma_tree_row_count_invariant(ps, s.last());
        assert(transform_children(ps, s).drop_last() =~= transform_children(ps, s.drop_last()));
        assert(transform_children(ps, s).last() == transform_tree(ps, s.last()));
    }
}

/// An empty document stays empty in tree mode: a root with no children
/// serializes to the empty text after any walk.
pub proof fn lemma_empty_tree(ps: Seq<RegisteredProcessor>)
    ensures
        tree_markdown(transform_tree(ps, NodeView::Root { children: Seq::empty() }))
            == Seq::<char>::empty(),
{
    let root = NodeView::Root { children: Seq::empty() };
    lemma_processors_shape(ps, root);
    assert(transform_children(ps, Seq::empty()) =~= Seq::<NodeView>::empty());
}

pub struct MarkdownCleaner {
    processors: Vec<RegisteredProcessor>,
}

impl MarkdownCleaner {
    /// The registered chain, in registration order.
    pub closed spec fn chain(&self) -> Seq<RegisteredProcessor> {
        self.processors@
    }

    pub fn new() -> (r: Self)
        ensures
            r.chain() == Seq::<RegisteredProcessor>::empty(),
    {
        let r = MarkdownCleaner { processors: Vec::new() };
        proof {
            assert(r.chain() =~= Seq::<RegisteredProcessor>::empty());
        }
        r
    }

    pub fn add_processor(&mut self, processor: RegisteredProcessor)
        ensures
            final(self).chain() == old(self).chain().push(processor),
    {
        self.processors.push(processor);
    }

    /// The whole chain applied to one node, in order.
    fn apply_all(&self, node: Node, context: &ProcessContext) -> (r: Node)
        ensures
            r@ == apply_processors(self.chain(), node@),
            !(node@ is Text) ==> r == node,
    {
        let ghost orig = node;
        let mut cur = node;
        let mut j: usize = 0;
        proof {
            assert(self.chain().subrange(0, 0) =~= Seq::<RegisteredProcessor>::empty());
        }
        while j < self.processors.len()
            invariant
                cur@ == apply_processors(self.chain().subrange(0, j as int), orig@),
                !(orig@ is Text) ==> cur == orig,
                j <= self.processors@.len(),
            decreases self.processors@.len() - j,
        {
            let p = &self.processors[j];
            if p.should_process(&cur) {
                let taken = cur;
                cur = match p.process_node(taken, context) {
                    Ok(Some(n)) => n,
                    Ok(None) => {
                        proof {
                            assert(false);
                        }
                        Node::Root { children: Vec::new() }
                    },
                    Err(_) => {
                        proof {
                            assert(false);
                        }
                        Node::Root { children: Vec::new() }
                    },
                };
            }
            proof {
                let pre = self.chain().subrange(0, j as int);
                let next = self.chain().subrange(0, j + 1 as int);
                assert(next.drop_last() =~= pre);
                assert(next.last() == self.chain()[j as int]);
            }
            j = j + 1;
        }
        proof {
            assert(self.chain().subrange(0, self.chain().len() as int) =~= self.chain());
        }
        cur
    }

    /// The walk: the chain at this node, then the children of the result,
    /// recursively; code blocks and terminal nodes are not descended into.
    /// The ghost argument pins the node's value as the termination measure.
    fn process_node_recursively(
        &self,
        node: Node,
        context: &ProcessContext,
        Ghost(m): Ghost<Node>,
    ) -> (r: Node)
        requires
            node == m,
        ensures
            r@ == transform_tree(self.chain(), node@),
        decreases m, 1int,
    {
        let ghost orig = node;
        let w = self.apply_all(node, context);
        let ghost w_snap = w;
        proof {
            lemma_processors_shape(self.chain(), orig@);
        }
        match w {
            Node::Root { children } => {
                let ghost mc = children@;
                proof {
                    assert(w_snap == orig);
                    assert(decreases_to!(m => mc));
                }
                Node::Root { children: self.process_children(children, context, Ghost(mc)) }
            },
            Node::Heading { depth, children } => {
                let ghost mc = children@;
                proof {
                    assert(w_snap == orig);
                    assert(decreases_to!(m => mc));
                }
                Node::Heading {
                    depth,
                    children: self.process_children(children, context, Ghost(mc)),
                }
            },
            Node::Paragraph { children } => {
                let ghost mc = children@;
                proof {
                    assert(w_snap == orig);
                    assert(decreases_to!(m => mc));
                }
                Node::Paragraph { children: self.process_children(children, context, Ghost(mc)) }
            },
            Node::Blockquote { children } => {
                let ghost mc = children@;
                proof {
                    assert(w_snap == orig);
                    assert(decreases_to!(m => mc));
                }
                Node::Blockquote { children: self.process_children(children, context, Ghost(mc)) }
            },
            Node::List { children } => {
                let ghost mc = children@;
                proof {
                    assert(w_snap == orig);
                    assert(decreases_to!(m => mc));
                }
                Node::List { children: self.process_children(children, context, Ghost(mc)) }
            },
            Node::ListItem { children } => {
                let ghost mc = children@;
                proof {
                    assert(w_snap == orig);
                    assert(decreases_to!(m => mc));
                }
                Node::ListItem { children: self.process_children(children, context, Ghost(mc)) }
            },
            Node::Table { children } => {
                let ghost mc = children@;
                proof {
                    assert(w_snap == orig);
                    assert(decreases_to!(m => mc));
                }
                Node::Table { children: self.process_children(children, context, Ghost(mc)) }
            },
            Node::TableRow { children } => {
                let ghost mc = children@;
                proof {
                    assert(w_snap == orig);
                    assert(decreases_to!(m => mc));
                }
                Node::TableRow { children: self.process_children(children, context, Ghost(mc)) }
            },
            Node::TableCell { children } => {
                let ghost mc = children@;
                proof {
                    assert(w_snap == orig);
                    assert(decreases_to!(m => mc));
                }
                Node::TableCell { children: self.process_children(children, context, Ghost(mc)) }
            },
            other => other,
        }
    }

    /// The walk over a sequence of children, in order. The ghost argument
    /// pins the children's value as the termination measure.
    fn process_children(
        &self,
        children: Vec<Node>,
        context: &ProcessContext,
        Ghost(m): Ghost<Seq<Node>>,
    ) -> (r: Vec<Node>)
        requires
            children@ == m,
        ensures
            views_of(r@) == transform_children(self.chain(), views_of(children@)),
        decreases m, 0int,
    {
        let ghost orig = children;
        let ghost cs = views_of(children@);
        proof {
            lemma_views_of(children@);
        }
        let mut rest = children;
        let total = rest.len();
        let mut out: Vec<Node> = Vec::new();
        let mut i: usize = 0;
        proof {
            assert(rest@ =~= orig@.subrange(0, orig@.len() as int));
            assert(cs.subrange(0, 0) =~= Seq::<NodeView>::empty());
            assert(views_of(out@) =~= Seq::<NodeView>::empty());
            assert(transform_children(self.chain(), cs.subrange(0, 0)) =~= Seq::<
                NodeView,
            >::empty());
        }
        while rest.len() > 0
            invariant
                orig@ == m,
                cs == views_of(orig@),
                cs.len() == orig@.len(),
                forall|k: int| 0 <= k < orig@.len() ==> cs[k] == node_view(#[trigger] orig@[k]),
                orig@.len() == total,
                i + rest@.len() == total,
                rest@ == orig@.subrange(i as int, orig@.len() as int),
                views_of(out@) == transform_children(self.chain(), cs.subrange(0, i as int)),
            decreases rest@.len(),
        {
            let c = rest.remove(0);
            let ghost mn = c;
            proof {
                assert(c == orig@[i as int]);
                assert(rest@ =~= orig@.subrange(i + 1 as int, orig@.len() as int));
                assert(mn == m[i as int]);
                assert(decreases_to!(m => m[i as int]));
                assert(decreases_to!(m => mn));
            }
            let t = self.process_node_recursively(c, context, Ghost(mn));
            let ghost old_vec = out@;
            let ghost old_views = views_of(out@);
            proof {
                lemma_views_of(old_vec);
            }
            out.push(t);
            proof {
                lemma_views_of(out@);
                assert(out@ =~= old_vec.push(t));
                assert(t@ == transform_tree(self.chain(), cs[i as int]));
                assert forall|k: int| 0 <= k < out@.len() implies views_of(out@)[k] == old_views.push(
                    transform_tree(self.chain(), cs[i as int]),
                )[k] by {
                    if k < old_vec.len() {
                        assert(out@[k] == old_vec[k]);
                        assert(views_of(out@)[k] == node_view(old_vec[k]));
                        assert(old_views[k] == node_view(old_vec[k]));
                    } else {
                        assert(out@[k] == t);
                    }
                }
                assert(views_of(out@) =~= old_views.push(
                    transform_tree(self.chain(), cs[i as int]),
                ));
                assert(cs.subrange(0, i + 1 as int).drop_last() =~= cs.subrange(0, i as int));
                assert(cs.subrange(0, i + 1 as int).last() == cs[i as int]);
            }
            i = i + 1;
        }
        proof {
            assert(cs.subrange(0, cs.len() as int) =~= cs);
        }
        out
    }

    /// The markdown text of one node, by its kind's rendering rule.
    fn node_to_markdown(&self, node: &Node) -> (r: String)
        ensures
            r@ == tree_markdown(node@),
        decreases node, 1int,
    {
        match node {
            Node::Root { children } => self.markdown_join(children, "\n\n"),
            Node::Text { value } => value.clone(),
            Node::Heading { depth, children } => {
                let mut out = String::new();
                push_repeated(&mut out, '#', *depth as usize);
                out.append(" ");
                let content = self.markdown_concat(children);
                out.append(content.as_str());
                proof {
                    assert(out@ =~= repeat_char('#', *depth as nat) + " "@ + content@);
                }
                out
            },
            Node::Paragraph { children } => self.markdown_concat(children),
            Node::Image { alt, url } => {
                let mut out = String::new();
                out.append("![");
                out.append(alt.as_str());
                out.append("](");
                out.append(url.as_str());
                out.append(")");
                proof {
                    assert(out@ =~= "!["@ + alt@ + "]("@ + url@ + ")"@);
                }
                out
            },
            Node::Code { lang, value } => {
                let mut out = String::new();
                out.append("```");
                match lang {
                    Some(l) => {
                        out.append(l.as_str());
                        out.append("\n");
                        out.append(value.as_str());
                        out.append("\n```");
                        proof {
                            assert(out@ =~= "```"@ + l@ + "\n"@ + value@ + "\n```"@);
                        }
                    },
                    None => {
                        out.append("\n");
                        out.append(value.as_str());
                        out.append("\n```");
                        proof {
                            assert(out@ =~= "```"@ + "\n"@ + value@ + "\n```"@);
                        }
                    },
                }
                out
            },
            Node::Blockquote { children } => {
                let inner = self.markdown_concat(children);
                let lines = split_lines(inner.as_str());
                let ghost mapped = lines_of(inner@).map_values(|l: Seq<char>| "> "@ + l);
                let mut out = String::new();
                let mut i: usize = 0;
                proof {
                    assert(mapped.subrange(0, 0) =~= Seq::<Seq<char>>::empty());
                }
                while i < lines.len()
                    invariant
                        lines.deep_view() == lines_of(inner@),
                        mapped == lines_of(inner@).map_values(|l: Seq<char>| "> "@ + l),
                        mapped.len() == lines@.len(),
                        i <= lines@.len(),
                        out@ == join_with(mapped.subrange(0, i as int), "\n"@),
                    decreases lines@.len() - i,
                {
                    if i > 0 {
                        out.append("\n");
                    }
                    out.append("> ");
                    out.append(lines[i].as_str());
                    proof {
                        assert(lines@[i as int]@ == lines.deep_view()[i as int]);
                        assert(mapped.subrange(0, i + 1 as int).drop_last() =~= mapped.subrange(
                            0,
                            i as int,
                        ));
                        assert(mapped[i as int] == "> "@ + lines.deep_view()[i as int]);
                        if i == 0 {
                            assert(mapped.subrange(0, 1)[0] == mapped[0]);
                        }
                    }
                    i = i + 1;
                }
                proof {
                    assert(mapped.subrange(0, mapped.len() as int) =~= mapped);
                }
                out
            },
            Node::List { children } => self.markdown_join(children, "\n"),
            Node::ListItem { children } => {
                let mut out = String::new();
                out.append("- ");
                let content = self.markdown_concat(children);
                out.append(content.as_str());
                proof {
                    assert(out@ =~= "- "@ + content@);
                }
                out
            },
            Node::Table { children } => self.markdown_join(children, "\n"),
            Node::TableRow { children } => {
                let mut out = String::new();
                out.append("| ");
                let cells = self.markdown_join(children, " | ");
                out.append(cells.as_str());
                out.append(" |");
                proof {
                    assert(out@ =~= "| "@ + cells@ + " |"@);
                }
                out
            },
            Node::TableCell { children } => self.markdown_concat(children),
            _ => {
                proof {
                    reveal_strlit("");
                    assert(""@ =~= Seq::<char>::empty());
                }
                String::new()
            },
        }
    }

    /// The children's markdown, concatenated.
    fn markdown_concat(&self, children: &Vec<Node>) -> (r: String)
        ensures
            r@ == tree_concat(views_of(children@)),
        decreases children, 0int,
    {
        let ghost cs = views_of(children@);
        proof {
            lemma_views_of(children@);
        }
        let mut out = String::new();
        let mut i: usize = 0;
        proof {
            assert(cs.subrange(0, 0) =~= Seq::<NodeView>::empty());
        }
        while i < children.len()
            invariant
                cs == views_of(children@),
                cs.len() == children@.len(),
                forall|k: int| 0 <= k < children@.len() ==> cs[k] == node_view(#[trigger] children@[k]),
                i <= children@.len(),
                out@ == tree_concat(cs.subrange(0, i as int)),
            decreases children@.len() - i,
        {
            let piece = self.node_to_markdown(&children[i]);
            out.append(piece.as_str());
            proof {
                assert(cs.subrange(0, i + 1 as int).drop_last() =~= cs.subrange(0, i as int));
            }
            i = i + 1;
        }
        proof {
            assert(cs.subrange(0, cs.len() as int) =~= cs);
        }
        out
    }

    /// The children's markdown, joined by `sep`.
    fn markdown_join(&self, children: &Vec<Node>, sep: &str) -> (r: String)
        ensures
            r@ == tree_join(views_of(children@), sep@),
        decreases children, 0int,
    {
        let ghost cs = views_of(children@);
        proof {
            lemma_views_of(children@);
        }
        let mut out = String::new();
        let mut i: usize = 0;
        proof {
            assert(cs.subrange(0, 0) =~= Seq::<NodeView>::empty());
        }
        while i < children.len()
            invariant
                cs == views_of(children@),
                cs.len() == children@.len(),
                forall|k: int| 0 <= k < children@.len() ==> cs[k] == node_view(#[trigger] children@[k]),
                i <= children@.len(),
                out@ == tree_join(cs.subrange(0, i as int), sep@),
            decreases children@.len() - i,
        {
            if i > 0 {
                out.append(sep);
            }
            let piece = self.node_to_markdown(&children[i]);
            out.append(piece.as_str());
            proof {
                assert(cs.subrange(0, i + 1 as int).drop_last() =~= cs.subrange(0, i as int));
                if i == 0 {
                    assert(cs.subrange(0, 1)[0] == cs[0]);
                }
            }
            i = i + 1;
        }
        proof {
            assert(cs.subrange(0, cs.len() as int) =~= cs);
        }
        out
    }

    /// One full run of the tree-walk pipeline over an already-parsed
    /// document: transform the tree, then serialize it. Never fails: the
    /// registered processors are total.
    pub fn clean(&self, root: Node) -> (r: Result<String, Error>)
        ensures
            r is Ok,
            r->Ok_0@ == tree_markdown(transform_tree(self.chain(), root@)),
    {
        let context = ProcessContext::default();
        let ghost m = root;
        let processed = self.process_node_recursively(root, &context, Ghost(m));
        Ok(self.node_to_markdown(&processed))
    }
}

} // verus!
