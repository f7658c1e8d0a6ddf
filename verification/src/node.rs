//! The document model: the parsed tree of block and inline nodes. Only
//! container variants have children; code, text and images are terminal.
//! The tree owns all its descendants, for the duration of one pipeline run.

use vstd::prelude::*;

verus! {

broadcast use vstd::std_specs::vec::group_vec_axioms;

#[derive(Debug)]
pub enum Node {
    Root { children: Vec<Node> },
    Heading { depth: u8, children: Vec<Node> },
    Paragraph { children: Vec<Node> },
    Blockquote { children: Vec<Node> },
    List { children: Vec<Node> },
    ListItem { children: Vec<Node> },
    Table { children: Vec<Node> },
    TableRow { children: Vec<Node> },
    TableCell { children: Vec<Node> },
    Code { lang: Option<String>, value: String },
    Text { value: String },
    Image { alt: String, url: String },
    Strong { children: Vec<Node> },
    Emphasis { children: Vec<Node> },
}

/// The mathematical model of a node: the same variants over sequences.
pub enum NodeView {
    Root { children: Seq<NodeView> },
    Heading { depth: u8, children: Seq<NodeView> },
    Paragraph { children: Seq<NodeView> },
    Blockquote { children: Seq<NodeView> },
    List { children: Seq<NodeView> },
    ListItem { children: Seq<NodeView> },
    Table { children: Seq<NodeView> },
    TableRow { children: Seq<NodeView> },
    TableCell { children: Seq<NodeView> },
    Code { lang: Option<Seq<char>>, value: Seq<char> },
    Text { value: Seq<char> },
    Image { alt: Seq<char>, url: Seq<char> },
    Strong { children: Seq<NodeView> },
    Emphasis { children: Seq<NodeView> },
}

pub open spec fn node_view(n: Node) -> NodeView
    decreases n,
{
    match n {
        Node::Root { children } => NodeView::Root { children: views_of(children@) },
        Node::Heading { depth, children } => NodeView::Heading {
            depth,
            children: views_of(children@),
        },
        Node::Paragraph { children } => NodeView::Paragraph { children: views_of(children@) },
        Node::Blockquote { children } => NodeView::Blockquote { children: views_of(children@) },
        Node::List { children } => NodeView::List { children: views_of(children@) },
        Node::ListItem { children } => NodeView::ListItem { children: views_of(children@) },
        Node::Table { children } => NodeView::Table { children: views_of(children@) },
        Node::TableRow { children } => NodeView::TableRow { children: views_of(children@) },
        Node::TableCell { children } => NodeView::TableCell { children: views_of(children@) },
        Node::Code { lang, value } => NodeView::Code {
            lang: match lang {
                Some(l) => Some(l@),
                None => None,
            },
            value: value@,
        },
        Node::Text { value } => NodeView::Text { value: value@ },
        Node::Image { alt, url } => NodeView::Image { alt: alt@, url: url@ },
        Node::Strong { children } => NodeView::Strong { children: views_of(children@) },
        Node::Emphasis { children } => NodeView::Emphasis { children: views_of(children@) },
    }
}

pub open spec fn views_of(s: Seq<Node>) -> Seq<NodeView>
    decreases s,
{
    if s.len() == 0 {
        Seq::empty()
    } else {
        seq![node_view(s[0])] + views_of(s.drop_first())
    }
}

impl View for Node {
    type V = NodeView;

    open spec fn view(&self) -> NodeView {
        node_view(*self)
    }
}

/// The views of the children line up with the children: same length, the
/// view of each child at its index.
pub proof fn lemma_views_of(s: Seq<Node>)
    ensures
        views_of(s).len() == s.len(),
        forall|i: int| 0 <= i < s.len() ==> views_of(s)[i] == node_view(#[trigger] s[i]),
    decreases s,
{
    if s.len() > 0 {
        lemma_views_of(s.drop_first());
        assert forall|i: int| 0 <= i < s.len() implies views_of(s)[i] == node_view(
            #[trigger] s[i],
        ) by {
            if i > 0 {
                assert(s.drop_first()[i - 1] == s[i]);
                assert(views_of(s)[i] == views_of(s.drop_first())[i - 1]);
            }
        }
    }
}

} // verus!
