//! The aggressive whitespace normalizer: every whitespace run in a unit's
//! text is removed outright. Suited to scripts with no inter-word spacing,
//! where any space is a layout artifact of extraction.

use vstd::prelude::*;
use crate::error::Error;
use crate::handlers::traits::{Handler, HandlerContext, MarkdownUnit, UnitView};
use crate::text::{lemma_strip_spaces_idempotent, remove_all_spaces, strip_spaces};

verus! {

/// The unit with every whitespace character removed from its text: each
/// list item independently, images and tables untouched.
pub open spec fn ws_normalized(v: UnitView) -> UnitView {
    match v {
        UnitView::Heading { level, content } => UnitView::Heading {
            level,
            content: strip_spaces(content),
        },
        UnitView::Paragraph { content } => UnitView::Paragraph { content: strip_spaces(content) },
        UnitView::CodeBlock { lang, content } => UnitView::CodeBlock {
            lang,
            content: strip_spaces(content),
        },
        UnitView::List { items } => UnitView::List {
            items: items.map_values(|it: Seq<char>| strip_spaces(it)),
        },
        UnitView::BlockQuote { content } => UnitView::BlockQuote {
            content: strip_spaces(content),
        },
        UnitView::Table { content } => UnitView::Table { content },
        UnitView::Image { alt, url } => UnitView::Image { alt, url },
        UnitView::Raw { content } => UnitView::Raw { content: strip_spaces(content) },
    }
}

/// Normalizing an already-normalized unit changes nothing.
pub proof fn lemma_ws_normalized_idempotent(v: UnitView)
    ensures
        ws_normalized(ws_normalized(v)) == ws_normalized(v),
{
    match v {
        UnitView::Heading { content, .. } => lemma_strip_spaces_idempotent(content),
        UnitView::Paragraph { content } => lemma_strip_spaces_idempotent(content),
        UnitView::CodeBlock { content, .. } => lemma_strip_spaces_idempotent(content),
        UnitView::BlockQuote { content } => lemma_strip_spaces_idempotent(content),
        UnitView::Raw { content } => lemma_strip_spaces_idempotent(content),
        UnitView::List { items } => {
            let once = items.map_values(|it: Seq<char>| strip_spaces(it));
            let twice = once.map_values(|it: Seq<char>| strip_spaces(it));
            assert forall|i: int| 0 <= i < items.len() implies twice[i] == once[i] by {
                lemma_strip_spaces_idempotent(items[i]);
            }
            assert(twice =~= once);
        },
        UnitView::Table { .. } => {},
        UnitView::Image { .. } => {},
    }
}

/// Normalizing preserves a unit's kind: only its text changes.
pub proof fn lemma_ws_normalized_kind(v: UnitView)
    ensures
        ws_normalized(v) is Image <==> v is Image,
        ws_normalized(v) is Table <==> v is Table,
{
}

pub struct WhitespaceHandler {
    name: String,
}

impl WhitespaceHandler {
    pub closed spec fn spec_name(&self) -> Seq<char> {
        self.name@
    }

    pub fn new() -> (r: Self)
        ensures
            r.spec_name() == "WhitespaceHandler"@,
    {
        WhitespaceHandler { name: "WhitespaceHandler".to_owned() }
    }

    pub fn clean_whitespace(&self, content: &str) -> (r: String)
        ensures
            r@ == strip_spaces(content@),
    {
        remove_all_spaces(content)
    }
}

impl Handler for WhitespaceHandler {
    /// Applicable to every text-bearing unit except images and units already
    /// identified as tables; this exclusion is the handler's own and does
    /// not depend on any guard standing earlier in the chain.
    open spec fn spec_can_handle(&self, unit: UnitView) -> bool {
        !(unit is Image) && !(unit is Table)
    }

    open spec fn spec_handle(&self, unit: UnitView) -> Option<UnitView> {
        Some(ws_normalized(unit))
    }

    fn can_handle(&self, unit: &MarkdownUnit) -> (r: bool) {
        !matches!(unit, MarkdownUnit::Image { .. }) && !matches!(unit, MarkdownUnit::Table { .. })
    }

    fn handle(&self, unit: MarkdownUnit, _context: &HandlerContext) -> (r: Result<
        Option<MarkdownUnit>,
        Error,
    >) {
        let mut unit = unit;
        match &mut unit {
            MarkdownUnit::Heading { content, .. } => {
                *content = remove_all_spaces(content.as_str());
            },
            MarkdownUnit::Paragraph { content } => {
                *content = remove_all_spaces(content.as_str());
            },
            MarkdownUnit::CodeBlock { content, .. } => {
                *content = remove_all_spaces(content.as_str());
            },
            MarkdownUnit::BlockQuote { content } => {
                *content = remove_all_spaces(content.as_str());
            },
            MarkdownUnit::Raw { content } => {
                *content = remove_all_spaces(content.as_str());
            },
            MarkdownUnit::List { items } => {
                let ghost orig_items = items.deep_view();
                let mut i: usize = 0;
                while i < items.len()
                    invariant
                        items@.len() == orig_items.len(),
                        i <= items@.len(),
                        forall|j: int|
                            0 <= j < i ==> items.deep_view()[j] == strip_spaces(
                                #[trigger] orig_items[j],
                            ),
                        forall|j: int| i <= j < items@.len() ==> items.deep_view()[j] == orig_items[j],
                    decreases items@.len() - i,
                {
                    let cleaned = remove_all_spaces(items[i].as_str());
                    items.set(i, cleaned);
                    i = i + 1;
                }
                proof {
                    assert(items.deep_view() =~= orig_items.map_values(
                        |it: Seq<char>| strip_spaces(it),
                    ));
                }
            },
            MarkdownUnit::Table { .. } => {},
            MarkdownUnit::Image { .. } => {},
        }
        Ok(Some(unit))
    }

    fn name(&self) -> (r: &str)
        ensures
            r@ == self.spec_name(),
    {
        self.name.as_str()
    }
}

} // verus!
