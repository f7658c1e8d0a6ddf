//! The table guard: applies to table units and returns them unchanged.
//! Tables often get mangled during extraction, so they are preserved as-is;
//! as with images, the normalizer's own exclusion is the real protection.

use vstd::prelude::*;
use crate::error::Error;
use crate::handlers::traits::{Handler, HandlerContext, MarkdownUnit, UnitView};

verus! {

pub struct TableHandler {
    name: String,
}

impl TableHandler {
    pub closed spec fn spec_name(&self) -> Seq<char> {
        self.name@
    }

    pub fn new() -> (r: Self)
        ensures
            r.spec_name() == "TableHandler"@,
    {
        TableHandler { name: "TableHandler".to_owned() }
    }
}

impl Handler for TableHandler {
    open spec fn spec_can_handle(&self, unit: UnitView) -> bool {
        unit is Table
    }

    /// Identity: table units pass through unchanged.
    open spec fn spec_handle(&self, unit: UnitView) -> Option<UnitView> {
        Some(unit)
    }

    fn can_handle(&self, unit: &MarkdownUnit) -> (r: bool) {
        matches!(unit, MarkdownUnit::Table { .. })
    }

    fn handle(&self, unit: MarkdownUnit, _context: &HandlerContext) -> (r: Result<
        Option<MarkdownUnit>,
        Error,
    >) {
        Ok(Some(unit))
    }

    fn name(&self) -> (r: &str)
        ensures
            r@ == self.spec_name(),
    {
        self.name.as_str()
    }
}

} // verus!
