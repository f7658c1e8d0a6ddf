//! The image guard: applies to image units and returns them unchanged. It
//! occupies a chain position before the whitespace normalizer; the real
//! protection is the normalizer's own exclusion of images.

use vstd::prelude::*;
use crate::error::Error;
use crate::handlers::traits::{Handler, HandlerContext, MarkdownUnit, UnitView};

verus! {

pub struct ImageHandler {
    name: String,
}

impl ImageHandler {
    pub closed spec fn spec_name(&self) -> Seq<char> {
        self.name@
    }

    pub fn new() -> (r: Self)
        ensures
            r.spec_name() == "ImageHandler"@,
    {
        ImageHandler { name: "ImageHandler".to_owned() }
    }
}

impl Handler for ImageHandler {
    open spec fn spec_can_handle(&self, unit: UnitView) -> bool {
        unit is Image
    }

    /// Identity: image units pass through unchanged.
    open spec fn spec_handle(&self, unit: UnitView) -> Option<UnitView> {
        Some(unit)
    }

    fn can_handle(&self, unit: &MarkdownUnit) -> (r: bool) {
        matches!(unit, MarkdownUnit::Image { .. })
    }

    fn handle(&self, unit: MarkdownUnit, _context: &HandlerContext) -> (r: Result<
        Option<MarkdownUnit>,
        Error,
    >) {
        Ok(Some(unit))
    }

    fn name(&self) -> (r: &str)
        ensures
            r@ == self.spec_name(),
    {
        self.name.as_str()
    }
}

} // verus!
