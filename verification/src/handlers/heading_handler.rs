//! A pattern transformer pre-configured to touch heading units only.

use vstd::prelude::*;
use crate::error::Error;
use crate::handlers::regex_handler::{RegexHandler, regex_valid};
use crate::handlers::traits::{Handler, HandlerContext, MarkdownUnit, UnitView};

verus! {

pub struct HeadingHandler {
    inner: RegexHandler,
}

impl HeadingHandler {
    pub closed spec fn spec_inner(&self) -> &RegexHandler {
        &self.inner
    }

    /// Builds a heading-only find/replace rule. Fails exactly when the
    /// pattern is not a valid regular expression.
    pub fn new(pattern: &str, replacement: String) -> (r: Result<Self, Error>)
        ensures
            r is Ok <==> regex_valid(pattern@),
            r matches Ok(h) ==> {
                &&& h.spec_inner().spec_pattern() == pattern@
                &&& h.spec_inner().spec_replacement() == replacement@
                &&& h.spec_inner().spec_filter() == Some("heading"@)
            },
            r matches Err(e) ==> e is PatternCompile,
    {
        match RegexHandler::new("HeadingHandler".to_owned(), pattern, replacement) {
            Ok(inner) => Ok(HeadingHandler { inner: inner.with_unit_filter("heading".to_owned()) }),
            Err(e) => Err(e),
        }
    }
}

impl Handler for HeadingHandler {
    open spec fn spec_can_handle(&self, unit: UnitView) -> bool {
        unit is Heading && self.spec_inner().spec_can_handle(unit)
    }

    open spec fn spec_handle(&self, unit: UnitView) -> Option<UnitView> {
        self.spec_inner().spec_handle(unit)
    }

    fn can_handle(&self, unit: &MarkdownUnit) -> (r: bool) {
        matches!(unit, MarkdownUnit::Heading { .. }) && self.inner.can_handle(unit)
    }

    fn handle(&self, unit: MarkdownUnit, context: &HandlerContext) -> (r: Result<
        Option<MarkdownUnit>,
        Error,
    >) {
        self.inner.handle(unit, context)
    }

    fn name(&self) -> (r: &str)
        ensures
            r@ == "HeadingHandler"@,
    {
        "HeadingHandler"
    }
}

} // verus!
