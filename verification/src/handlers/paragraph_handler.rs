//! A pattern transformer pre-configured to touch paragraph units only.

use vstd::prelude::*;
use crate::error::Error;
use crate::handlers::regex_handler::{RegexHandler, regex_valid};
use crate::handlers::traits::{Handler, HandlerContext, MarkdownUnit, UnitView};

verus! {

pub struct ParagraphHandler {
    inner: RegexHandler,
}

impl ParagraphHandler {
    pub closed spec fn spec_inner(&self) -> &RegexHandler {
        &self.inner
    }

    /// Builds a paragraph-only find/replace rule. Fails exactly when the
    /// pattern is not a valid regular expression.
    pub fn new(pattern: &str, replacement: String) -> (r: Result<Self, Error>)
        ensures
            r is Ok <==> regex_valid(pattern@),
            r matches Ok(h) ==> {
                &&& h.spec_inner().spec_pattern() == pattern@
                &&& h.spec_inner().spec_replacement() == replacement@
                &&& h.spec_inner().spec_filter() == Some("paragraph"@)
            },
            r matches Err(e) ==> e is PatternCompile,
    {
        match RegexHandler::new("ParagraphHandler".to_owned(), pattern, replacement) {
            Ok(inner) => Ok(
                ParagraphHandler { inner: inner.with_unit_filter("paragraph".to_owned()) },
            ),
            Err(e) => Err(e),
        }
    }
}

impl Handler for ParagraphHandler {
    open spec fn spec_can_handle(&self, unit: UnitView) -> bool {
        unit is Paragraph && self.spec_inner().spec_can_handle(unit)
    }

    open spec fn spec_handle(&self, unit: UnitView) -> Option<UnitView> {
        self.spec_inner().spec_handle(unit)
    }

    fn can_handle(&self, unit: &MarkdownUnit) -> (r: bool) {
        matches!(unit, MarkdownUnit::Paragraph { .. }) && self.inner.can_handle(unit)
    }

    fn handle(&self, unit: MarkdownUnit, context: &HandlerContext) -> (r: Result<
        Option<MarkdownUnit>,
        Error,
    >) {
        self.inner.handle(unit, context)
    }

    fn name(&self) -> (r: &str)
        ensures
            r@ == "ParagraphHandler"@,
    {
        "ParagraphHandler"
    }
}

} // verus!
