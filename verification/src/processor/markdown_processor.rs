//! The flatten-and-transform pipeline. The top-level children of the root
//! each become one unit; a paragraph whose text looks like a pipe-delimited
//! table is reclassified as a table unit before any handler runs; the
//! handler chain is applied to each unit in registration order; and the
//! units are re-serialized with a blank line between blocks.

use vstd::prelude::*;
use crate::error::Error;
use crate::handlers::heading_handler::HeadingHandler;
use crate::handlers::image_handler::ImageHandler;
use crate::handlers::paragraph_handler::ParagraphHandler;
use crate::handlers::regex_handler::RegexHandler;
use crate::handlers::table_handler::TableHandler;
use crate::handlers::traits::{
    Handler, HandlerContext, MarkdownUnit, UnitView, replacement_view, unit_views,
};
use crate::handlers::whitespace_handler::{
    WhitespaceHandler, lemma_ws_normalized_idempotent, lemma_ws_normalized_kind, ws_normalized,
};
use crate::node::{Node, NodeView, node_view, views_of, lemma_views_of};
use crate::text::{
    chars_of, is_table_text, join_with, lines_of, repeat_char, split_lines, table_like_text,
    trim_chars, trim_spaces, push_repeated,
};
use vstd::string::{StrSliceExecFns, StringExecFns};

verus! {

broadcast use vstd::std_specs::vec::group_vec_axioms;

/// The text a node contributes when its block is flattened to a unit:
/// descendant text in document order, with blockquote children joined by
/// newlines, images re-encoded as their markdown marker, and table rows
/// re-encoded as `|`-delimited lines.
pub open spec fn text_content(v: NodeView) -> Seq<char>
    decreases v, 1int,
{
    match v {
        NodeView::Text { value } => value,
        NodeView::Heading { children, .. } => concat_texts(children),
        NodeView::Paragraph { children } => concat_texts(children),
        NodeView::Blockquote { children } => join_texts(children, "\n"@),
        NodeView::Strong { children } => concat_texts(children),
        NodeView::Emphasis { children } => concat_texts(children),
        NodeView::Image { alt, url } => "!["@ + alt + "]("@ + url + ")"@,
        NodeView::Table { children } => join_with(table_rows(children), "\n"@),
        NodeView::TableCell { children } => concat_texts(children),
        _ => Seq::empty(),
    }
}

/// The texts of the nodes, concatenated.
pub open spec fn concat_texts(s: Seq<NodeView>) -> Seq<char>
    decreases s, 0int,
{
    if s.len() == 0 {
        Seq::empty()
    } else {
        concat_texts(s.drop_last()) + text_content(s.last())
    }
}

/// The texts of the nodes, joined by `sep`.
pub open spec fn join_texts(s: Seq<NodeView>, sep: Seq<char>) -> Seq<char>
    decreases s, 0int,
{
    if s.len() == 0 {
        Seq::empty()
    } else if s.len() == 1 {
        text_content(s[0])
    } else {
        join_texts(s.drop_last(), sep) + sep + text_content(s.last())
    }
}

/// One `|`-delimited line per table-row child, in order; other children
/// contribute no line.
pub open spec fn table_rows(rows: Seq<NodeView>) -> Seq<Seq<char>>
    decreases rows, 0int,
{
    if rows.len() == 0 {
        Seq::empty()
    } else {
        table_rows(rows.drop_last()) + (if rows.last() is TableRow {
            seq![row_line(rows.last()->TableRow_children)]
        } else {
            Seq::empty()
        })
    }
}

/// A table row as text: the cell texts joined by ` | `, between `| ` and
/// ` |`.
pub open spec fn row_line(cells: Seq<NodeView>) -> Seq<char>
    decreases cells, 1int,
{
    "| "@ + join_with(row_cells(cells), " | "@) + " |"@
}

/// The text of each cell of a row; a child that is not a table cell
/// contributes an empty text.
pub open spec fn row_cells(cells: Seq<NodeView>) -> Seq<Seq<char>>
    decreases cells, 0int,
{
    if cells.len() == 0 {
        Seq::empty()
    } else {
        row_cells(cells.drop_last()) + seq![
            if cells.last() is TableCell {
                text_content(cells.last())
            } else {
                Seq::empty()
            },
        ]
    }
}

/// One text per list-item child: the item's child texts joined by single
/// spaces. Other children contribute nothing.
pub open spec fn list_item_texts(s: Seq<NodeView>) -> Seq<Seq<char>>
    decreases s,
{
    if s.len() == 0 {
        Seq::empty()
    } else {
        list_item_texts(s.drop_last()) + (if s.last() is ListItem {
            seq![join_texts(s.last()->ListItem_children, " "@)]
        } else {
            Seq::empty()
        })
    }
}

/// The unit a top-level node flattens to, or `None` for a node with only
/// blank text. A paragraph whose text holds at least two `|` and does not
/// open with an image marker is reclassified as a table unit here, before
/// any handler can touch it.
pub open spec fn unit_of(v: NodeView) -> Option<UnitView> {
    match v {
        NodeView::Heading { depth, .. } => Some(
            UnitView::Heading { level: depth, content: text_content(v) },
        ),
        NodeView::Paragraph { .. } => if is_table_text(text_content(v)) {
            Some(UnitView::Table { content: text_content(v) })
        } else {
            Some(UnitView::Paragraph { content: text_content(v) })
        },
        NodeView::Code { lang, value } => Some(UnitView::CodeBlock { lang, content: value }),
        NodeView::Blockquote { .. } => Some(UnitView::BlockQuote { content: text_content(v) }),
        NodeView::List { children } => Some(UnitView::List { items: list_item_texts(children) }),
        NodeView::Image { alt, url } => Some(UnitView::Image { alt, url }),
        NodeView::Table { .. } => Some(UnitView::Table { content: text_content(v) }),
        _ => if trim_spaces(text_content(v)).len() > 0 {
            Some(UnitView::Raw { content: text_content(v) })
        } else {
            None
        },
    }
}

/// The units of the root's top-level children, in order.
pub open spec fn units_of_children(s: Seq<NodeView>) -> Seq<UnitView>
    decreases s,
{
    if s.len() == 0 {
        Seq::empty()
    } else {
        units_of_children(s.drop_last()) + (match unit_of(s.last()) {
            Some(u) => seq![u],
            None => Seq::empty(),
        })
    }
}

/// The unit list a document flattens to: one unit per top-level block of
/// the root, nothing for any other node.
pub open spec fn units_of(v: NodeView) -> Seq<UnitView> {
    match v {
        NodeView::Root { children } => units_of_children(children),
        _ => Seq::empty(),
    }
}

/// The markdown a unit serializes back to, by kind: `#` marks and a space
/// for headings, fenced blocks for code, `- ` lines for lists, `> ` line
/// prefixes for blockquotes, the image marker for images, and the content
/// verbatim for paragraphs, tables and raw text.
pub open spec fn unit_markdown(u: UnitView) -> Seq<char> {
    match u {
        UnitView::Heading { level, content } => repeat_char('#', level as nat) + " "@ + content,
        UnitView::Paragraph { content } => content,
        UnitView::CodeBlock { lang, content } => match lang {
            Some(l) => "```"@ + l + "\n"@ + content + "\n```"@,
            None => "```"@ + "\n"@ + content + "\n```"@,
        },
        UnitView::List { items } => join_with(
            items.map_values(|it: Seq<char>| "- "@ + it),
            "\n"@,
        ),
        UnitView::BlockQuote { content } => join_with(
            lines_of(content).map_values(|l: Seq<char>| "> "@ + l),
            "\n"@,
        ),
        UnitView::Image { alt, url } => "!["@ + alt + "]("@ + url + ")"@,
        UnitView::Table { content } => content,
        UnitView::Raw { content } => content,
    }
}

/// The markdown of each unit of the list, in order.
pub open spec fn unit_markdowns(us: Seq<UnitView>) -> Seq<Seq<char>> {
    us.map_values(|u: UnitView| unit_markdown(u))
}

/// The serialized document: the units' markdown joined by blank lines,
/// the sole paragraph-separation rule.
pub open spec fn units_markdown(us: Seq<UnitView>) -> Seq<char> {
    join_with(unit_markdowns(us), "\n\n"@)
}

/// Where the `k`-th part starts inside the joined text.
pub open spec fn part_offset(parts: Seq<Seq<char>>, sep: Seq<char>, k: int) -> int
    decreases parts.len(),
{
    if parts.len() == 0 || k >= parts.len() - 1 {
        join_with(parts.drop_last(), sep).len() + (if parts.len() <= 1 {
            0int
        } else {
            sep.len() as int
        })
    } else {
        part_offset(parts.drop_last(), sep, k)
    }
}

/// Each part appears verbatim in the joined text, at its offset.
pub proof fn lemma_part_embedded(parts: Seq<Seq<char>>, sep: Seq<char>, k: int)
    requires
        0 <= k < parts.len(),
    ensures
        0 <= part_offset(parts, sep, k),
        part_offset(parts, sep, k) + parts[k].len() <= join_with(parts, sep).len(),
        join_with(parts, sep).subrange(
            part_offset(parts, sep, k),
            part_offset(parts, sep, k) + parts[k].len() as int,
        ) == parts[k],
    decreases parts.len(),
{
    let joined = join_with(parts, sep);
    let off = part_offset(parts, sep, k);
    if parts.len() == 1 {
        assert(joined == parts[0]);
        assert(parts.drop_last() =~= Seq::<Seq<char>>::empty());
        assert(off == 0);
        assert(joined.subrange(0, parts[0].len() as int) =~= parts[0]);
    } else {
        let front = join_with(parts.drop_last(), sep);
        assert(joined == front + sep + parts.last());
        if k == parts.len() - 1 {
            assert(off == front.len() + sep.len());
            assert(joined.subrange(off, off + parts[k].len() as int) =~= parts.last());
        } else {
            lemma_part_embedded(parts.drop_last(), sep, k);
            assert(parts.drop_last()[k] == parts[k]);
            assert(off + parts[k].len() <= front.len());
            assert(joined.subrange(off, off + parts[k].len() as int) =~= front.subrange(
                off,
                off + parts[k].len() as int,
            ));
        }
    }
}

/// Protected content survives into the output text: for a chain of guards
/// and whitespace normalizers, the markdown of every image or table unit
/// of the input — the exact image marker, the exact `|`-delimited rows —
/// stands verbatim in the serialized document, at its unit's offset.
pub proof fn lemma_protected_content_in_output(
    hs: Seq<RegisteredHandler>,
    us: Seq<UnitView>,
    k: int,
)
    requires
        guards_and_whitespace_only(hs),
        0 <= k < us.len(),
        us[k] is Image || us[k] is Table,
    ensures
        ({
            let out = transform_units(hs, us);
            let off = part_offset(unit_markdowns(out), "\n\n"@, k);
            &&& 0 <= off
            &&& off + unit_markdown(us[k]).len() <= units_markdown(out).len()
            &&& units_markdown(out).subrange(off, off + unit_markdown(us[k]).len() as int)
                == unit_markdown(us[k])
        }),
{
    let out = transform_units(hs, us);
    lemma_protected_unit_unchanged(hs, us[k]);
    assert(out[k] == us[k]);
    lemma_part_embedded(unit_markdowns(out), "\n\n"@, k);
    assert(unit_markdowns(out)[k] == unit_markdown(us[k]));
}

pub struct MarkdownProcessor {
    handlers: Vec<RegisteredHandler>,
}

/// A chain entry: one of the built-in handlers, dispatched statically.
pub enum RegisteredHandler {
    Image(ImageHandler),
    Table(TableHandler),
    Whitespace(WhitespaceHandler),
    Pattern(RegexHandler),
    Heading(HeadingHandler),
    Paragraph(ParagraphHandler),
}

impl Handler for RegisteredHandler {
    open spec fn spec_can_handle(&self, unit: UnitView) -> bool {
        match self {
            RegisteredHandler::Image(h) => h.spec_can_handle(unit),
            RegisteredHandler::Table(h) => h.spec_can_handle(unit),
            RegisteredHandler::Whitespace(h) => h.spec_can_handle(unit),
            RegisteredHandler::Pattern(h) => h.spec_can_handle(unit),
            RegisteredHandler::Heading(h) => h.spec_can_handle(unit),
            RegisteredHandler::Paragraph(h) => h.spec_can_handle(unit),
        }
    }

    open spec fn spec_handle(&self, unit: UnitView) -> Option<UnitView> {
        match self {
            RegisteredHandler::Image(h) => h.spec_handle(unit),
            RegisteredHandler::Table(h) => h.spec_handle(unit),
            RegisteredHandler::Whitespace(h) => h.spec_handle(unit),
            RegisteredHandler::Pattern(h) => h.spec_handle(unit),
            RegisteredHandler::Heading(h) => h.spec_handle(unit),
            RegisteredHandler::Paragraph(h) => h.spec_handle(unit),
        }
    }

    fn can_handle(&self, unit: &MarkdownUnit) -> (r: bool) {
        match self {
            RegisteredHandler::Image(h) => h.can_handle(unit),
            RegisteredHandler::Table(h) => h.can_handle(unit),
            RegisteredHandler::Whitespace(h) => h.can_handle(unit),
            RegisteredHandler::Pattern(h) => h.can_handle(unit),
            RegisteredHandler::Heading(h) => h.can_handle(unit),
            RegisteredHandler::Paragraph(h) => h.can_handle(unit),
        }
    }

    fn handle(&self, unit: MarkdownUnit, context: &HandlerContext) -> (r: Result<
        Option<MarkdownUnit>,
        Error,
    >) {
        match self {
            RegisteredHandler::Image(h) => h.handle(unit, context),
            RegisteredHandler::Table(h) => h.handle(unit, context),
            RegisteredHandler::Whitespace(h) => h.handle(unit, context),
            RegisteredHandler::Pattern(h) => h.handle(unit, context),
            RegisteredHandler::Heading(h) => h.handle(unit, context),
            RegisteredHandler::Paragraph(h) => h.handle(unit, context),
        }
    }

    fn name(&self) -> (r: &str) {
        match self {
            RegisteredHandler::Image(h) => h.name(),
            RegisteredHandler::Table(h) => h.name(),
            RegisteredHandler::Whitespace(h) => h.name(),
            RegisteredHandler::Pattern(h) => h.name(),
            RegisteredHandler::Heading(h) => h.name(),
            RegisteredHandler::Paragraph(h) => h.name(),
        }
    }
}

/// What one chain entry does to a unit: the replacement when the handler
/// applies and produces one, the unit itself otherwise.
pub open spec fn apply_handler(h: RegisteredHandler, u: UnitView) -> UnitView {
    if h.spec_can_handle(u) {
        match h.spec_handle(u) {
            Some(v) => v,
            None => u,
        }
    } else {
        u
    }
}

/// The whole chain applied to one unit, in registration order.
pub open spec fn apply_chain(hs: Seq<RegisteredHandler>, u: UnitView) -> UnitView
    decreases hs.len(),
{
    if hs.len() == 0 {
        u
    } else {
        apply_handler(hs.last(), apply_chain(hs.drop_last(), u))
    }
}

/// The chain applied to every unit of the list independently.
pub open spec fn transform_units(hs: Seq<RegisteredHandler>, us: Seq<UnitView>) -> Seq<UnitView> {
    us.map_values(|u: UnitView| apply_chain(hs, u))
}

impl MarkdownProcessor {
    /// The registered chain, in registration order.
    pub closed spec fn chain(&self) -> Seq<RegisteredHandler> {
        self.handlers@
    }

    pub fn new() -> (r: Self)
        ensures
            r.chain() == Seq::<RegisteredHandler>::empty(),
    {
        let r = MarkdownProcessor { handlers: Vec::new() };
        proof {
            assert(r.chain() =~= Seq::<RegisteredHandler>::empty());
        }
        r
    }

    pub fn add_handler(&mut self, handler: RegisteredHandler)
        ensures
            final(self).chain() == old(self).chain().push(handler),
    {
        self.handlers.push(handler);
    }

    /// The flattened text of a node, concatenating its descendants.
    fn extract_text_content(&self, node: &Node) -> (r: String)
        ensures
            r@ == text_content(node@),
        decreases node, 1int,
    {
        match node {
            Node::Text { value } => value.clone(),
            Node::Heading { children, .. } => self.concat_children(children),
            Node::Paragraph { children } => self.concat_children(children),
            Node::Blockquote { children } => self.join_children(children, "\n"),
            Node::Strong { children } => self.concat_children(children),
            Node::Emphasis { children } => self.concat_children(children),
            Node::Image { alt, url } => {
                let mut out = String::new();
                out.append("![");
                out.append(alt.as_str());
                out.append("](");
                out.append(url.as_str());
                out.append(")");
                proof {
                    assert(out@ =~= "!["@ + alt@ + "]("@ + url@ + ")"@);
                }
                out
            },
            Node::Table { children } => self.extract_table_rows(children),
            Node::TableCell { children } => self.concat_children(children),
            _ => {
                proof {
                    reveal_strlit("");
                    assert(""@ =~= Seq::<char>::empty());
                }
                String::new()
            },
        }
    }

    /// The texts of the children, concatenated.
    fn concat_children(&self, children: &Vec<Node>) -> (r: String)
        ensures
            r@ == concat_texts(views_of(children@)),
        decreases children, 0int,
    {
        let ghost cs = views_of(children@);
        proof {
            lemma_views_of(children@);
        }
        let mut out = String::new();
        let mut i: usize = 0;
        proof {
            assert(cs.subrange(0, 0) =~= Seq::<NodeView>::empty());
        }
        while i < children.len()
            invariant
                cs == views_of(children@),
                cs.len() == children@.len(),
                forall|k: int| 0 <= k < children@.len() ==> cs[k] == node_view(#[trigger] children@[k]),
                i <= children@.len(),
                out@ == concat_texts(cs.subrange(0, i as int)),
            decreases children@.len() - i,
        {
            let piece = self.extract_text_content(&children[i]);
            out.append(piece.as_str());
            proof {
                assert(cs.subrange(0, i + 1 as int).drop_last() =~= cs.subrange(0, i as int));
            }
            i = i + 1;
        }
        proof {
            assert(cs.subrange(0, cs.len() as int) =~= cs);
        }
        out
    }

    /// The texts of the children, joined by `sep`.
    fn join_children(&self, children: &Vec<Node>, sep: &str) -> (r: String)
        ensures
            r@ == join_texts(views_of(children@), sep@),
        decreases children, 0int,
    {
        let ghost cs = views_of(children@);
        proof {
            lemma_views_of(children@);
        }
        let mut out = String::new();
        let mut i: usize = 0;
        proof {
            assert(cs.subrange(0, 0) =~= Seq::<NodeView>::empty());
        }
        while i < children.len()
            invariant
                cs == views_of(children@),
                cs.len() == children@.len(),
                forall|k: int| 0 <= k < children@.len() ==> cs[k] == node_view(#[trigger] children@[k]),
                i <= children@.len(),
                out@ == join_texts(cs.subrange(0, i as int), sep@),
            decreases children@.len() - i,
        {
            if i > 0 {
                out.append(sep);
            }
            let piece = self.extract_text_content(&children[i]);
            out.append(piece.as_str());
            proof {
                assert(cs.subrange(0, i + 1 as int).drop_last() =~= cs.subrange(0, i as int));
                if i == 0 {
                    assert(cs.subrange(0, 1)[0] == cs[0]);
                }
            }
            i = i + 1;
        }
        proof {
            assert(cs.subrange(0, cs.len() as int) =~= cs);
        }
        out
    }

    /// The table as text: one `|`-delimited line per row.
    fn extract_table_rows(&self, rows: &Vec<Node>) -> (r: String)
        ensures
            r@ == join_with(table_rows(views_of(rows@)), "\n"@),
        decreases rows, 0int,
    {
        let ghost rs = views_of(rows@);
        proof {
            lemma_views_of(rows@);
        }
        let mut out = String::new();
        let mut emitted: usize = 0;
        let mut i: usize = 0;
        proof {
            assert(rs.subrange(0, 0) =~= Seq::<NodeView>::empty());
        }
        while i < rows.len()
            invariant
                rs == views_of(rows@),
                rs.len() == rows@.len(),
                forall|k: int| 0 <= k < rows@.len() ==> rs[k] == node_view(#[trigger] rows@[k]),
                i <= rows@.len(),
                out@ == join_with(table_rows(rs.subrange(0, i as int)), "\n"@),
                emitted == table_rows(rs.subrange(0, i as int)).len(),
                emitted <= i,
            decreases rows@.len() - i,
        {
            proof {
                assert(rs.subrange(0, i + 1 as int).drop_last() =~= rs.subrange(0, i as int));
            }
            match &rows[i] {
                Node::TableRow { children } => {
                    let line = self.extract_row_line(children);
                    if emitted > 0 {
                        out.append("\n");
                    }
                    out.append(line.as_str());
                    emitted = emitted + 1;
                    proof {
                        let prev = table_rows(rs.subrange(0, i as int));
                        let cur = table_rows(rs.subrange(0, i + 1 as int));
                        assert(rs[i as int] is TableRow);
                        assert(rs[i as int]->TableRow_children == views_of(children@));
                        assert(cur =~= prev.push(row_line(views_of(children@))));
                        assert(cur.drop_last() =~= prev);
                        if prev.len() == 0 {
                            assert(cur.len() == 1);
                            assert(out@ =~= row_line(views_of(children@)));
                        }
                    }
                },
                _ => {
                    proof {
                        assert(!(rs[i as int] is TableRow));
                        assert(table_rows(rs.subrange(0, i + 1 as int)) =~= table_rows(
                            rs.subrange(0, i as int),
                        ));
                    }
                },
            }
            i = i + 1;
        }
        proof {
            assert(rs.subrange(0, rs.len() as int) =~= rs);
        }
        out
    }

    /// One row as text: cell texts joined by ` | `, between `| ` and ` |`.
    fn extract_row_line(&self, cells: &Vec<Node>) -> (r: String)
        ensures
            r@ == row_line(views_of(cells@)),
        decreases cells, 1int,
    {
        let ghost cs = views_of(cells@);
        proof {
            lemma_views_of(cells@);
        }
        let mut out = String::new();
        out.append("| ");
        let mut i: usize = 0;
        proof {
            assert(cs.subrange(0, 0) =~= Seq::<NodeView>::empty());
            assert(out@ =~= "| "@ + join_with(row_cells(cs.subrange(0, 0)), " | "@));
        }
        while i < cells.len()
            invariant
                cs == views_of(cells@),
                cs.len() == cells@.len(),
                forall|k: int| 0 <= k < cells@.len() ==> cs[k] == node_view(#[trigger] cells@[k]),
                i <= cells@.len(),
                out@ == "| "@ + join_with(row_cells(cs.subrange(0, i as int)), " | "@),
            decreases cells@.len() - i,
        {
            if i > 0 {
                out.append(" | ");
            }
            match &cells[i] {
                Node::TableCell { .. } => {
                    let piece = self.extract_text_content(&cells[i]);
                    out.append(piece.as_str());
                },
                _ => {},
            }
            proof {
                let prev = row_cells(cs.subrange(0, i as int));
                let cur = row_cells(cs.subrange(0, i + 1 as int));
                assert(cs.subrange(0, i + 1 as int).drop_last() =~= cs.subrange(0, i as int));
                assert(cur =~= prev.push(
                    if cs[i as int] is TableCell {
                        text_content(cs[i as int])
                    } else {
                        Seq::empty()
                    },
                ));
                assert(cur.drop_last() =~= prev);
                if !(cs[i as int] is TableCell) {
                    reveal_strlit("");
                    assert(""@ =~= Seq::<char>::empty());
                }
            }
            i = i + 1;
        }
        out.append(" |");
        proof {
            assert(cs.subrange(0, cs.len() as int) =~= cs);
        }
        out
    }

    /// One text per list item: the item's child texts joined by spaces.
    fn extract_list_items(&self, node: &Node) -> (r: Vec<String>)
        ensures
            r.deep_view() == match node@ {
                NodeView::List { children } => list_item_texts(children),
                _ => Seq::<Seq<char>>::empty(),
            },
        decreases node,
    {
        match node {
            Node::List { children } => {
                let ghost cs = views_of(children@);
                proof {
                    lemma_views_of(children@);
                }
                let mut items: Vec<String> = Vec::new();
                let mut i: usize = 0;
                proof {
                    assert(cs.subrange(0, 0) =~= Seq::<NodeView>::empty());
                    assert(items.deep_view() =~= Seq::<Seq<char>>::empty());
                }
                while i < children.len()
                    invariant
                        cs == views_of(children@),
                        cs.len() == children@.len(),
                        forall|k: int|
                            0 <= k < children@.len() ==> cs[k] == node_view(
                                #[trigger] children@[k],
                            ),
                        i <= children@.len(),
                        items.deep_view() == list_item_texts(cs.subrange(0, i as int)),
                    decreases children@.len() - i,
                {
                    let ghost old_items = items.deep_view();
                    proof {
                        assert(cs.subrange(0, i + 1 as int).drop_last() =~= cs.subrange(
                            0,
                            i as int,
                        ));
                    }
                    match &children[i] {
                        Node::ListItem { children: item_children } => {
                            let text = self.join_children(item_children, " ");
                            items.push(text);
                            proof {
                                assert(cs[i as int]->ListItem_children == views_of(
                                    item_children@,
                                ));
                                assert(items.deep_view() =~= old_items.push(
                                    join_texts(views_of(item_children@), " "@),
                                ));
                                assert(list_item_texts(cs.subrange(0, i + 1 as int))
                                    =~= old_items.push(
                                    join_texts(cs[i as int]->ListItem_children, " "@),
                                ));
                            }
                        },
                        _ => {
                            proof {
                                assert(!(cs[i as int] is ListItem));
                                assert(list_item_texts(cs.subrange(0, i + 1 as int))
                                    =~= list_item_texts(cs.subrange(0, i as int)));
                            }
                        },
                    }
                    i = i + 1;
                }
                proof {
                    assert(cs.subrange(0, cs.len() as int) =~= cs);
                }
                items
            },
            _ => {
                let r: Vec<String> = Vec::new();
                proof {
                    assert(r.deep_view() =~= Seq::<Seq<char>>::empty());
                }
                r
            },
        }
    }

    /// The unit a top-level node becomes, with the table reclassification
    /// heuristic applied to paragraphs; a node with only blank text yields
    /// nothing.
    fn node_to_unit(&self, node: &Node) -> (r: Option<MarkdownUnit>)
        ensures
            replacement_view(r) == unit_of(node@),
        decreases node,
    {
        match node {
            Node::Heading { depth, .. } => {
                let content = self.extract_text_content(node);
                Some(MarkdownUnit::Heading { level: *depth, content })
            },
            Node::Paragraph { .. } => {
                let content = self.extract_text_content(node);
                if table_like_text(content.as_str()) {
                    Some(MarkdownUnit::Table { content })
                } else {
                    Some(MarkdownUnit::Paragraph { content })
                }
            },
            Node::Code { lang, value } => {
                let lang_copy = match lang {
                    Some(l) => Some(l.clone()),
                    None => None,
                };
                Some(MarkdownUnit::CodeBlock { lang: lang_copy, content: value.clone() })
            },
            Node::Blockquote { .. } => {
                let content = self.extract_text_content(node);
                Some(MarkdownUnit::BlockQuote { content })
            },
            Node::List { .. } => {
                let items = self.extract_list_items(node);
                Some(MarkdownUnit::List { items })
            },
            Node::Image { alt, url } => {
                Some(MarkdownUnit::Image { alt: alt.clone(), url: url.clone() })
            },
            Node::Table { .. } => {
                let content = self.extract_text_content(node);
                Some(MarkdownUnit::Table { content })
            },
            _ => {
                let content = self.extract_text_content(node);
                let cs = chars_of(content.as_str());
                let trimmed = trim_chars(&cs);
                if trimmed.len() > 0 {
                    Some(MarkdownUnit::Raw { content })
                } else {
                    None
                }
            },
        }
    }

    /// The unit list of a document: one unit per top-level block.
    fn extract_units(&self, root: &Node) -> (r: Vec<MarkdownUnit>)
        ensures
            unit_views(r@) == units_of(root@),
    {
        let mut units: Vec<MarkdownUnit> = Vec::new();
        match root {
            Node::Root { children } => {
                let ghost cs = views_of(children@);
                proof {
                    lemma_views_of(children@);
                    assert(cs.subrange(0, 0) =~= Seq::<NodeView>::empty());
                    assert(unit_views(units@) =~= Seq::<UnitView>::empty());
                }
                let mut i: usize = 0;
                while i < children.len()
                    invariant
                        cs == views_of(children@),
                        cs.len() == children@.len(),
                        forall|k: int|
                            0 <= k < children@.len() ==> cs[k] == node_view(
                                #[trigger] children@[k],
                            ),
                        i <= children@.len(),
                        unit_views(units@) == units_of_children(cs.subrange(0, i as int)),
                    decreases children@.len() - i,
                {
                    let ghost old_units = unit_views(units@);
                    proof {
                        assert(cs.subrange(0, i + 1 as int).drop_last() =~= cs.subrange(
                            0,
                            i as int,
                        ));
                    }
                    match self.node_to_unit(&children[i]) {
                        Some(unit) => {
                            units.push(unit);
                            proof {
                                assert(unit_views(units@) =~= old_units.push(
                                    unit_of(cs[i as int])->Some_0,
                                ));
                                assert(units_of_children(cs.subrange(0, i + 1 as int))
                                    =~= old_units.push(unit_of(cs[i as int])->Some_0));
                            }
                        },
                        None => {
                            proof {
                                assert(units_of_children(cs.subrange(0, i + 1 as int))
                                    =~= units_of_children(cs.subrange(0, i as int)));
                            }
                        },
                    }
                    i = i + 1;
                }
                proof {
                    assert(cs.subrange(0, cs.len() as int) =~= cs);
                }
            },
            _ => {
                proof {
                    assert(unit_views(units@) =~= Seq::<UnitView>::empty());
                }
            },
        }
        units
    }

    /// The markdown text of one unit, by its kind's rendering rule.
    fn unit_to_markdown_string(&self, unit: MarkdownUnit) -> (r: String)
        ensures
            r@ == unit_markdown(unit@),
    {
        match unit {
            MarkdownUnit::Heading { level, content } => {
                let mut out = String::new();
                push_repeated(&mut out, '#', level as usize);
                out.append(" ");
                out.append(content.as_str());
                proof {
                    assert(out@ =~= repeat_char('#', level as nat) + " "@ + content@);
                }
                out
            },
            MarkdownUnit::Paragraph { content } => content,
            MarkdownUnit::CodeBlock { lang, content } => {
                let mut out = String::new();
                out.append("```");
                match &lang {
                    Some(l) => {
                        out.append(l.as_str());
                        out.append("\n");
                        out.append(content.as_str());
                        out.append("\n```");
                        proof {
                            assert(out@ =~= "```"@ + lang->0@ + "\n"@ + content@ + "\n```"@);
                        }
                    },
                    None => {
                        out.append("\n");
                        out.append(content.as_str());
                        out.append("\n```");
                        proof {
                            assert(out@ =~= "```"@ + "\n"@ + content@ + "\n```"@);
                        }
                    },
                }
                out
            },
            MarkdownUnit::List { items } => {
                let ghost mapped = items.deep_view().map_values(|it: Seq<char>| "- "@ + it);
                let mut out = String::new();
                let mut i: usize = 0;
                proof {
                    assert(mapped.subrange(0, 0) =~= Seq::<Seq<char>>::empty());
                }
                while i < items.len()
                    invariant
                        mapped == items.deep_view().map_values(|it: Seq<char>| "- "@ + it),
                        mapped.len() == items@.len(),
                        i <= items@.len(),
                        out@ == join_with(mapped.subrange(0, i as int), "\n"@),
                    decreases items@.len() - i,
                {
                    if i > 0 {
                        out.append("\n");
                    }
                    out.append("- ");
                    out.append(items[i].as_str());
                    proof {
                        assert(mapped.subrange(0, i + 1 as int).drop_last() =~= mapped.subrange(
                            0,
                            i as int,
                        ));
                        assert(mapped[i as int] == "- "@ + items.deep_view()[i as int]);
                        if i == 0 {
                            assert(mapped.subrange(0, 1)[0] == mapped[0]);
                        }
                    }
                    i = i + 1;
                }
                proof {
                    assert(mapped.subrange(0, mapped.len() as int) =~= mapped);
                }
                out
            },
            MarkdownUnit::BlockQuote { content } => {
                let lines = split_lines(content.as_str());
                let ghost mapped = lines_of(content@).map_values(|l: Seq<char>| "> "@ + l);
                let mut out = String::new();
                let mut i: usize = 0;
                proof {
                    assert(mapped.subrange(0, 0) =~= Seq::<Seq<char>>::empty());
                }
                while i < lines.len()
                    invariant
                        lines.deep_view() == lines_of(content@),
                        mapped == lines_of(content@).map_values(|l: Seq<char>| "> "@ + l),
                        mapped.len() == lines@.len(),
                        i <= lines@.len(),
                        out@ == join_with(mapped.subrange(0, i as int), "\n"@),
                    decreases lines@.len() - i,
                {
                    if i > 0 {
                        out.append("\n");
                    }
                    out.append("> ");
                    out.append(lines[i].as_str());
                    proof {
                        assert(lines@[i as int]@ == lines.deep_view()[i as int]);
                        assert(mapped.subrange(0, i + 1 as int).drop_last() =~= mapped.subrange(
                            0,
                            i as int,
                        ));
                        assert(mapped[i as int] == "> "@ + lines.deep_view()[i as int]);
                        if i == 0 {
                            assert(mapped.subrange(0, 1)[0] == mapped[0]);
                        }
                    }
                    i = i + 1;
                }
                proof {
                    assert(mapped.subrange(0, mapped.len() as int) =~= mapped);
                }
                out
            },
            MarkdownUnit::Image { alt, url } => {
                let mut out = String::new();
                out.append("![");
                out.append(alt.as_str());
                out.append("](");
                out.append(url.as_str());
                out.append(")");
                proof {
                    assert(out@ =~= "!["@ + alt@ + "]("@ + url@ + ")"@);
                }
                out
            },
            MarkdownUnit::Table { content } => content,
            MarkdownUnit::Raw { content } => content,
        }
    }

    /// The serialized document: the units' markdown joined by blank lines.
    fn units_to_markdown(&self, units: Vec<MarkdownUnit>) -> (r: String)
        ensures
            r@ == units_markdown(unit_views(units@)),
    {
        let ghost orig = units@;
        let ghost mapped = unit_views(orig).map_values(|u: UnitView| unit_markdown(u));
        let mut units = units;
        let total = units.len();
        let mut out = String::new();
        let mut i: usize = 0;
        proof {
            assert(mapped.subrange(0, 0) =~= Seq::<Seq<char>>::empty());
            assert(units@ =~= orig.subrange(0, orig.len() as int));
        }
        while units.len() > 0
            invariant
                mapped == unit_views(orig).map_values(|u: UnitView| unit_markdown(u)),
                mapped.len() == orig.len(),
                orig.len() == total,
                i + units@.len() == total,
                units@ == orig.subrange(i as int, orig.len() as int),
                out@ == join_with(mapped.subrange(0, i as int), "\n\n"@),
            decreases units@.len(),
        {
            let u = units.remove(0);
            proof {
                assert(u == orig[i as int]);
                assert(units@ =~= orig.subrange(i + 1 as int, orig.len() as int));
            }
            if i > 0 {
                out.append("\n\n");
            }
            let piece = self.unit_to_markdown_string(u);
            out.append(piece.as_str());
            proof {
                assert(mapped[i as int] == unit_markdown(unit_views(orig)[i as int]));
                assert(unit_views(orig)[i as int] == orig[i as int]@);
                assert(mapped.subrange(0, i + 1 as int).drop_last() =~= mapped.subrange(
                    0,
                    i as int,
                ));
                if i == 0 {
                    assert(mapped.subrange(0, 1)[0] == mapped[0]);
                }
            }
            i = i + 1;
        }
        proof {
            assert(mapped.subrange(0, mapped.len() as int) =~= mapped);
        }
        out
    }

    /// One full run: flatten the document to units, apply the registered
    /// chain to each unit in order, and serialize the result. Never fails:
    /// a misconfigured pattern is rejected at handler construction, before
    /// a run can start.
    pub fn process(&self, root: &Node) -> (r: Result<String, Error>)
        ensures
            r is Ok,
            r->Ok_0@ == units_markdown(transform_units(self.chain(), units_of(root@))),
    {
        let mut units = self.extract_units(root);
        let context = HandlerContext::default();
        let ghost all = units_of(root@);
        let ghost orig = units@;
        let total = units.len();
        let mut result_units: Vec<MarkdownUnit> = Vec::new();
        let mut i: usize = 0;
        proof {
            assert(units@ =~= orig.subrange(0, orig.len() as int));
            assert(unit_views(result_units@) =~= Seq::<UnitView>::empty());
            assert(transform_units(self.chain(), all.subrange(0, 0)) =~= Seq::<UnitView>::empty());
        }
        while units.len() > 0
            invariant
                unit_views(orig) == all,
                all.len() == orig.len(),
                orig.len() == total,
                i + units@.len() == total,
                units@ == orig.subrange(i as int, orig.len() as int),
                unit_views(result_units@) == transform_units(
                    self.chain(),
                    all.subrange(0, i as int),
                ),
            decreases units@.len(),
        {
            let mut u = units.remove(0);
            proof {
                assert(u == orig[i as int]);
                assert(u@ == all[i as int]);
                assert(units@ =~= orig.subrange(i + 1 as int, orig.len() as int));
                assert(self.chain().subrange(0, 0) =~= Seq::<RegisteredHandler>::empty());
            }
            let mut j: usize = 0;
            while j < self.handlers.len()
                invariant
                    i < all.len(),
                    u@ == apply_chain(self.chain().subrange(0, j as int), all[i as int]),
                    j <= self.handlers@.len(),
                decreases self.handlers@.len() - j,
            {
                let h = &self.handlers[j];
                if h.can_handle(&u) {
                    match h.handle(u.duplicate(), &context) {
                        Ok(Some(new_u)) => {
                            u = new_u;
                        },
                        Ok(None) => {},
                        Err(e) => {
                            proof {
                                assert(false);
                            }
                            return Err(e);
                        },
                    }
                }
                proof {
                    let pre = self.chain().subrange(0, j as int);
                    let cur = self.chain().subrange(0, j + 1 as int);
                    assert(cur.drop_last() =~= pre);
                    assert(cur.last() == self.chain()[j as int]);
                }
                j = j + 1;
            }
            proof {
                assert(self.chain().subrange(0, self.chain().len() as int) =~= self.chain());
            }
            let ghost old_views = unit_views(result_units@);
            result_units.push(u);
            proof {
                assert(unit_views(result_units@) =~= old_views.push(
                    apply_chain(self.chain(), all[i as int]),
                ));
                assert(transform_units(self.chain(), all.subrange(0, i + 1 as int))
                    =~= old_views.push(apply_chain(self.chain(), all[i as int])));
            }
            i = i + 1;
        }
        proof {
            assert(all.subrange(0, all.len() as int) =~= all);
        }
        Ok(self.units_to_markdown(result_units))
    }
}

/// Whether a chain entry is one of the protection-only handlers: an image
/// guard, a table guard or a whitespace normalizer.
pub open spec fn is_guard_or_whitespace(h: RegisteredHandler) -> bool {
    h is Image || h is Table || h is Whitespace
}

/// Whether a chain holds only guards and whitespace normalizers.
pub open spec fn guards_and_whitespace_only(hs: Seq<RegisteredHandler>) -> bool {
    forall|i: int| 0 <= i < hs.len() ==> is_guard_or_whitespace(#[trigger] hs[i])
}

/// A chain of guards and normalizers either leaves a unit alone or
/// whitespace-normalizes it: guards are identities, and normalizing twice
/// is normalizing once.
proof fn lemma_chain_shape(hs: Seq<RegisteredHandler>, u: UnitView)
    requires
        guards_and_whitespace_only(hs),
    ensures
        apply_chain(hs, u) == u || apply_chain(hs, u) == ws_normalized(u),
    decreases hs.len(),
{
    if hs.len() > 0 {
        let front = hs.drop_last();
        assert forall|i: int| 0 <= i < front.len() implies is_guard_or_whitespace(
            #[trigger] front[i],
        ) by {
            assert(front[i] == hs[i]);
        }
        lemma_chain_shape(front, u);
        let x = apply_chain(front, u);
        assert(is_guard_or_whitespace(hs[hs.len() - 1]));
        match hs.last() {
            RegisteredHandler::Whitespace(h) => {
                assert(apply_handler(hs.last(), x) == ws_normalized(x));
                if x == ws_normalized(u) {
                    lemma_ws_normalized_idempotent(u);
                }
            },
            _ => {
                assert(apply_handler(hs.last(), x) == x);
            },
        }
    }
}

/// Idempotence: a chain of image/table guards and whitespace normalizers,
/// in any order, is idempotent on every unit — running it again over its
/// own output changes nothing.
pub proof fn lemma_chain_idempotent(hs: Seq<RegisteredHandler>, u: UnitView)
    requires
        guards_and_whitespace_only(hs),
    ensures
        apply_chain(hs, apply_chain(hs, u)) == apply_chain(hs, u),
{
    lemma_chain_shape(hs, u);
    let y = apply_chain(hs, u);
    if y == ws_normalized(u) {
        lemma_chain_shape(hs, y);
        lemma_ws_normalized_idempotent(u);
    }
}

/// Idempotence over a whole document: transforming an already-transformed
/// unit list with a chain of guards and whitespace normalizers yields the
/// same list.
pub proof fn lemma_transform_units_idempotent(hs: Seq<RegisteredHandler>, us: Seq<UnitView>)
    requires
        guards_and_whitespace_only(hs),
    ensures
        transform_units(hs, transform_units(hs, us)) == transform_units(hs, us),
{
    let once = transform_units(hs, us);
    let twice = transform_units(hs, once);
    assert forall|i: int| 0 <= i < us.len() implies twice[i] == once[i] by {
        lemma_chain_idempotent(hs, us[i]);
    }
    assert(twice =~= once);
}

/// Guard precedence is immaterial to protection: wherever the guards stand
/// relative to the whitespace normalizer — even after it — an image or
/// table unit passes through the chain unchanged, because the normalizer's
/// own exclusion of images and tables does not depend on the guards.
pub proof fn lemma_protected_unit_unchanged(hs: Seq<RegisteredHandler>, u: UnitView)
    requires
        guards_and_whitespace_only(hs),
        u is Image || u is Table,
    ensures
        apply_chain(hs, u) == u,
    decreases hs.len(),
{
    if hs.len() > 0 {
        let front = hs.drop_last();
        assert forall|i: int| 0 <= i < front.len() implies is_guard_or_whitespace(
            #[trigger] front[i],
        ) by {
            assert(front[i] == hs[i]);
        }
        lemma_protected_unit_unchanged(front, u);
        assert(is_guard_or_whitespace(hs[hs.len() - 1]));
    }
}

/// A chain of guards and normalizers never changes a unit's kind.
pub proof fn lemma_chain_keeps_kind(hs: Seq<RegisteredHandler>, u: UnitView)
    requires
        guards_and_whitespace_only(hs),
    ensures
        apply_chain(hs, u) is Image <==> u is Image,
        apply_chain(hs, u) is Table <==> u is Table,
{
    lemma_chain_shape(hs, u);
    lemma_ws_normalized_kind(u);
}

/// How many image units a unit list holds.
pub open spec fn image_unit_count(us: Seq<UnitView>) -> nat
    decreases us.len(),
{
    if us.len() == 0 {
        0
    } else {
        image_unit_count(us.drop_last()) + (if us.last() is Image {
            1nat
        } else {
            0nat
        })
    }
}

/// How many table units a unit list holds.
pub open spec fn table_unit_count(us: Seq<UnitView>) -> nat
    decreases us.len(),
{
    if us.len() == 0 {
        0
    } else {
        table_unit_count(us.drop_last()) + (if us.last() is Table {
            1nat
        } else {
            0nat
        })
    }
}

/// Image invariant: a chain of guards and whitespace normalizers keeps
/// every image unit exactly as it was, and so the number of image units in
/// the transformed document equals the number in the input.
pub proof fn lemma_image_units_invariant(hs: Seq<RegisteredHandler>, us: Seq<UnitView>)
    requires
        guards_and_whitespace_only(hs),
    ensures
        transform_units(hs, us).len() == us.len(),
        forall|i: int|
            0 <= i < us.len() && us[i] is Image ==> transform_units(hs, us)[i] == us[i],
        image_unit_count(transform_units(hs, us)) == image_unit_count(us),
    decreases us.len(),
{
    let out = transform_units(hs, us);
    assert forall|i: int| 0 <= i < us.len() && us[i] is Image implies out[i] == us[i] by {
        lemma_protected_unit_unchanged(hs, us[i]);
    }
    if us.len() > 0 {
        lemma_image_units_invariant(hs, us.drop_last());
        assert(out.drop_last() =~= transform_units(hs, us.drop_last()));
        lemma_chain_keeps_kind(hs, us.last());
        assert(out.last() == apply_chain(hs, us.last()));
    }
}

/// Table invariant: a chain of guards and whitespace normalizers keeps
/// every table unit exactly as it was — its `|`-delimited rows included —
/// and so the number of table units is preserved across a run.
pub proof fn lemma_table_units_invariant(hs: Seq<RegisteredHandler>, us: Seq<UnitView>)
    requires
        guards_and_whitespace_only(hs),
    ensures
        transform_units(hs, us).len() == us.len(),
        forall|i: int|
            0 <= i < us.len() && us[i] is Table ==> transform_units(hs, us)[i] == us[i],
        table_unit_count(transform_units(hs, us)) == table_unit_count(us),
    decreases us.len(),
{
    let out = transform_units(hs, us);
    assert forall|i: int| 0 <= i < us.len() && us[i] is Table implies out[i] == us[i] by {
        lemma_protected_unit_unchanged(hs, us[i]);
    }
    if us.len() > 0 {
        lemma_table_units_invariant(hs, us.drop_last());
        assert(out.drop_last() =~= transform_units(hs, us.drop_last()));
        lemma_chain_keeps_kind(hs, us.last());
        assert(out.last() == apply_chain(hs, us.last()));
    }
}

/// An empty document stays empty: a root with no blocks flattens to no
/// units, and no units serialize to the empty text, whatever the chain.
pub proof fn lemma_empty_document(hs: Seq<RegisteredHandler>)
    ensures
        units_markdown(
            transform_units(hs, units_of(NodeView::Root { children: Seq::empty() })),
        ) == Seq::<char>::empty(),
{
    let no_units = units_of(NodeView::Root { children: Seq::empty() });
    assert(no_units =~= Seq::<UnitView>::empty());
    assert(transform_units(hs, no_units) =~= Seq::<UnitView>::empty());
    assert(transform_units(hs, no_units).map_values(|u: UnitView| unit_markdown(u)) =~= Seq::<
        Seq<char>,
    >::empty());
}

} // verus!
