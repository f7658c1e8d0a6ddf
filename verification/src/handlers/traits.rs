//! The unit model: one flat record per top-level markdown block, consumed
//! and possibly replaced wholesale by the handlers of the chain.

use vstd::prelude::*;
use crate::error::Error;

verus! {

/// A flattened top-level markdown block. A unit has no nested units: all
/// structure below the block level is collapsed into its text content.
#[derive(Debug, Clone)]
pub enum MarkdownUnit {
    Heading { level: u8, content: String },
    Paragraph { content: String },
    CodeBlock { lang: Option<String>, content: String },
    List { items: Vec<String> },
    BlockQuote { content: String },
    Table { content: String },
    Image { alt: String, url: String },
    Raw { content: String },
}

/// The mathematical model of a unit: the same variants over sequences of
/// characters.
pub enum UnitView {
    Heading { level: u8, content: Seq<char> },
    Paragraph { content: Seq<char> },
    CodeBlock { lang: Option<Seq<char>>, content: Seq<char> },
    List { items: Seq<Seq<char>> },
    BlockQuote { content: Seq<char> },
    Table { content: Seq<char> },
    Image { alt: Seq<char>, url: Seq<char> },
    Raw { content: Seq<char> },
}

impl View for MarkdownUnit {
    type V = UnitView;

    open spec fn view(&self) -> UnitView {
        match self {
            MarkdownUnit::Heading { level, content } => UnitView::Heading {
                level: *level,
                content: content@,
            },
            MarkdownUnit::Paragraph { content } => UnitView::Paragraph { content: content@ },
            MarkdownUnit::CodeBlock { lang, content } => UnitView::CodeBlock {
                lang: match lang {
                    Some(l) => Some(l@),
                    None => None,
                },
                content: content@,
            },
            MarkdownUnit::List { items } => UnitView::List { items: items.deep_view() },
            MarkdownUnit::BlockQuote { content } => UnitView::BlockQuote { content: content@ },
            MarkdownUnit::Table { content } => UnitView::Table { content: content@ },
            MarkdownUnit::Image { alt, url } => UnitView::Image { alt: alt@, url: url@ },
            MarkdownUnit::Raw { content } => UnitView::Raw { content: content@ },
        }
    }
}

/// The text content a unit exposes to content rewriters. A list has no
/// single content field and an image's text is its protected marker, so
/// both expose nothing.
pub open spec fn unit_content(v: UnitView) -> Seq<char> {
    match v {
        UnitView::Heading { content, .. } => content,
        UnitView::Paragraph { content } => content,
        UnitView::CodeBlock { content, .. } => content,
        UnitView::List { .. } => Seq::empty(),
        UnitView::BlockQuote { content } => content,
        UnitView::Table { content } => content,
        UnitView::Image { .. } => Seq::empty(),
        UnitView::Raw { content } => content,
    }
}

/// The unit with its text content replaced by `c`. Lists and images carry
/// no single content field and are left unchanged.
pub open spec fn unit_with_content(v: UnitView, c: Seq<char>) -> UnitView {
    match v {
        UnitView::Heading { level, .. } => UnitView::Heading { level, content: c },
        UnitView::Paragraph { .. } => UnitView::Paragraph { content: c },
        UnitView::CodeBlock { lang, .. } => UnitView::CodeBlock { lang, content: c },
        UnitView::List { items } => UnitView::List { items },
        UnitView::BlockQuote { .. } => UnitView::BlockQuote { content: c },
        UnitView::Table { .. } => UnitView::Table { content: c },
        UnitView::Image { alt, url } => UnitView::Image { alt, url },
        UnitView::Raw { .. } => UnitView::Raw { content: c },
    }
}

/// The kind tag a unit answers to when a handler carries a kind filter.
pub open spec fn unit_kind(v: UnitView) -> Seq<char> {
    match v {
        UnitView::Heading { .. } => "heading"@,
        UnitView::Paragraph { .. } => "paragraph"@,
        UnitView::CodeBlock { .. } => "codeblock"@,
        UnitView::List { .. } => "list"@,
        UnitView::BlockQuote { .. } => "blockquote"@,
        UnitView::Table { .. } => "table"@,
        UnitView::Image { .. } => "image"@,
        UnitView::Raw { .. } => "raw"@,
    }
}

impl MarkdownUnit {
    pub fn content(&self) -> (r: &str)
        ensures
            r@ == unit_content(self@),
    {
        proof {
            reveal_strlit("");
            assert(""@ =~= Seq::<char>::empty());
        }
        match self {
            MarkdownUnit::Heading { content, .. } => content.as_str(),
            MarkdownUnit::Paragraph { content } => content.as_str(),
            MarkdownUnit::CodeBlock { content, .. } => content.as_str(),
            MarkdownUnit::List { .. } => "",
            MarkdownUnit::BlockQuote { content } => content.as_str(),
            MarkdownUnit::Table { content } => content.as_str(),
            MarkdownUnit::Image { .. } => "",
            MarkdownUnit::Raw { content } => content.as_str(),
        }
    }

    pub fn set_content(&mut self, new_content: String)
        ensures
            final(self)@ == unit_with_content(old(self)@, new_content@),
    {
        match self {
            MarkdownUnit::Heading { content, .. } => *content = new_content,
            MarkdownUnit::Paragraph { content } => *content = new_content,
            MarkdownUnit::CodeBlock { content, .. } => *content = new_content,
            MarkdownUnit::BlockQuote { content } => *content = new_content,
            MarkdownUnit::Table { content } => *content = new_content,
            MarkdownUnit::Raw { content } => *content = new_content,
            MarkdownUnit::List { .. } => {},
            MarkdownUnit::Image { .. } => {},
        }
    }

    /// A copy of this unit, with the same model.
    pub fn duplicate(&self) -> (r: Self)
        ensures
            r@ == self@,
    {
        match self {
            MarkdownUnit::Heading { level, content } => MarkdownUnit::Heading {
                level: *level,
                content: content.clone(),
            },
            MarkdownUnit::Paragraph { content } => MarkdownUnit::Paragraph {
                content: content.clone(),
            },
            MarkdownUnit::CodeBlock { lang, content } => MarkdownUnit::CodeBlock {
                lang: match lang {
                    Some(l) => Some(l.clone()),
                    None => None,
                },
                content: content.clone(),
            },
            MarkdownUnit::List { items } => {
                let mut copies: Vec<String> = Vec::new();
                let mut i: usize = 0;
                while i < items.len()
                    invariant
                        i <= items@.len(),
                        copies@ == items@.subrange(0, i as int),
                    decreases items@.len() - i,
                {
                    copies.push(items[i].clone());
                    proof {
                        assert(copies@ =~= items@.subrange(0, i + 1 as int));
                    }
                    i = i + 1;
                }
                proof {
                    assert(copies@ =~= items@);
                    assert(copies.deep_view() =~= items.deep_view());
                }
                MarkdownUnit::List { items: copies }
            },
            MarkdownUnit::BlockQuote { content } => MarkdownUnit::BlockQuote {
                content: content.clone(),
            },
            MarkdownUnit::Table { content } => MarkdownUnit::Table { content: content.clone() },
            MarkdownUnit::Image { alt, url } => MarkdownUnit::Image {
                alt: alt.clone(),
                url: url.clone(),
            },
            MarkdownUnit::Raw { content } => MarkdownUnit::Raw { content: content.clone() },
        }
    }

    pub fn unit_type(&self) -> (r: &'static str)
        ensures
            r@ == unit_kind(self@),
    {
        match self {
            MarkdownUnit::Heading { .. } => "heading",
            MarkdownUnit::Paragraph { .. } => "paragraph",
            MarkdownUnit::CodeBlock { .. } => "codeblock",
            MarkdownUnit::List { .. } => "list",
            MarkdownUnit::BlockQuote { .. } => "blockquote",
            MarkdownUnit::Table { .. } => "table",
            MarkdownUnit::Image { .. } => "image",
            MarkdownUnit::Raw { .. } => "raw",
        }
    }
}

#[derive(Debug)]
pub struct HandlerContext {
    pub line_number: usize,
    pub file_path: Option<String>,
}

impl Default for HandlerContext {
    fn default() -> (r: Self)
        ensures
            r.line_number == 0,
            r.file_path is None,
    {
        HandlerContext { line_number: 0, file_path: None }
    }
}

/// The views of a sequence of units, in order.
pub open spec fn unit_views(us: Seq<MarkdownUnit>) -> Seq<UnitView> {
    us.map_values(|u: MarkdownUnit| u@)
}

/// The view of what a handler hands back: a replacement unit or a no-op.
pub open spec fn replacement_view(r: Option<MarkdownUnit>) -> Option<UnitView> {
    match r {
        Some(u) => Some(u@),
        None => None,
    }
}

/// A chain-composable rule that conditionally rewrites a unit. `handle` is
/// total on well-formed handlers: it never fails at apply time.
pub trait Handler: Sized {
    /// Whether this handler declares itself applicable to `unit`.
    spec fn spec_can_handle(&self, unit: UnitView) -> bool;

    /// The replacement this handler produces, or `None` for a silent skip.
    spec fn spec_handle(&self, unit: UnitView) -> Option<UnitView>;

    fn can_handle(&self, unit: &MarkdownUnit) -> (r: bool)
        ensures
            r == self.spec_can_handle(unit@),
    ;

    fn handle(&self, unit: MarkdownUnit, context: &HandlerContext) -> (r: Result<
        Option<MarkdownUnit>,
        Error,
    >)
        ensures
            r is Ok,
            replacement_view(r->Ok_0) == self.spec_handle(unit@),
    ;

    fn name(&self) -> &str;
}

} // verus!
