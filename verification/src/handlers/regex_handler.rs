//! The generic pattern transformer: a configured find/replace rule applied
//! to a unit's text content, with an optional unit-kind filter. The pattern
//! machinery itself comes from the regex crate behind trusted wrappers.

use vstd::prelude::*;
use crate::error::Error;
use crate::handlers::traits::{
    Handler, HandlerContext, MarkdownUnit, UnitView, replacement_view, unit_content,
    unit_with_content, unit_kind,
};
use crate::text::str_eq;

verus! {

#[verifier::external_type_specification]
#[verifier::external_body]
pub struct ExRegex(regex::Regex);

/// Whether a pattern text is a valid regular expression: exactly the
/// patterns that `regex::Regex::new` accepts, a function of the pattern
/// text alone.
pub uninterp spec fn regex_valid(pattern: Seq<char>) -> bool;

/// What `regex::Regex::replace_all` returns for a pattern, a haystack and a
/// replacement template: every non-overlapping match of the pattern in the
/// haystack replaced by the expanded template, a function of the three
/// texts alone.
pub uninterp spec fn regex_replaced(
    pattern: Seq<char>,
    text: Seq<char>,
    replacement: Seq<char>,
) -> Seq<char>;

/// A compiled find pattern, kept together with its source text so that
/// contracts can speak of the pattern it was compiled from.
struct CompiledPattern {
    regex: regex::Regex,
    source: String,
}

impl CompiledPattern {
    /// The pattern text this value was compiled from.
    closed spec fn pattern(&self) -> Seq<char> {
        self.source@
    }

    /// Relies on `regex::Regex::new`: compiling succeeds exactly when the
    /// pattern is a valid regular expression; on failure it reports a
    /// diagnostic for the pattern.
    #[verifier::external_body]
    fn compile(pattern: &str) -> (r: Result<CompiledPattern, String>)
        ensures
            r is Ok <==> regex_valid(pattern@),
            r is Ok ==> r->Ok_0.pattern() == pattern@,
    {
        match regex::Regex::new(pattern) {
            Ok(regex) => Ok(CompiledPattern { regex, source: pattern.to_string() }),
            Err(e) => Err(format!("{}", e)),
        }
    }

    /// Relies on `regex::Regex::replace_all`: replaces every non-overlapping
    /// match of the pattern in `text` by the expanded replacement template.
    #[verifier::external_body]
    fn replace_all(&self, text: &str, replacement: &str) -> (r: String)
        ensures
            r@ == regex_replaced(self.pattern(), text@, replacement@),
    {
        self.regex.replace_all(text, replacement).to_string()
    }
}

pub struct RegexHandler {
    name: String,
    pattern: CompiledPattern,
    replacement: String,
    unit_filter: Option<String>,
}

impl RegexHandler {
    pub closed spec fn spec_name(&self) -> Seq<char> {
        self.name@
    }

    pub closed spec fn spec_pattern(&self) -> Seq<char> {
        self.pattern.pattern()
    }

    pub closed spec fn spec_replacement(&self) -> Seq<char> {
        self.replacement@
    }

    pub closed spec fn spec_filter(&self) -> Option<Seq<char>> {
        match self.unit_filter {
            Some(ref f) => Some(f@),
            None => None,
        }
    }

    /// Builds a handler for one find/replace rule. Fails exactly when the
    /// pattern is not a valid regular expression, before any document is
    /// processed.
    pub fn new(name: String, pattern: &str, replacement: String) -> (r: Result<Self, Error>)
        ensures
            r is Ok <==> regex_valid(pattern@),
            r matches Ok(h) ==> {
                &&& h.spec_name() == name@
                &&& h.spec_pattern() == pattern@
                &&& h.spec_replacement() == replacement@
                &&& h.spec_filter() is None
            },
            r matches Err(e) ==> e is PatternCompile,
    {
        match CompiledPattern::compile(pattern) {
            Ok(compiled) => Ok(
                RegexHandler { name, pattern: compiled, replacement, unit_filter: None },
            ),
            Err(message) => Err(Error::PatternCompile { message }),
        }
    }

    /// The same rule restricted to units of the given kind.
    pub fn with_unit_filter(self, unit_type: String) -> (r: Self)
        ensures
            r.spec_name() == self.spec_name(),
            r.spec_pattern() == self.spec_pattern(),
            r.spec_replacement() == self.spec_replacement(),
            r.spec_filter() == Some(unit_type@),
    {
        RegexHandler {
            name: self.name,
            pattern: self.pattern,
            replacement: self.replacement,
            unit_filter: Some(unit_type),
        }
    }
}

impl Handler for RegexHandler {
    /// Applicable to every unit, or to units of the filtered kind when a
    /// filter is set.
    open spec fn spec_can_handle(&self, unit: UnitView) -> bool {
        match self.spec_filter() {
            Some(f) => unit_kind(unit) == f,
            None => true,
        }
    }

    /// The unit with the rule applied to its text content.
    open spec fn spec_handle(&self, unit: UnitView) -> Option<UnitView> {
        Some(
            unit_with_content(
                unit,
                regex_replaced(self.spec_pattern(), unit_content(unit), self.spec_replacement()),
            ),
        )
    }

    fn can_handle(&self, unit: &MarkdownUnit) -> (r: bool) {
        match &self.unit_filter {
            Some(f) => str_eq(unit.unit_type(), f.as_str()),
            None => true,
        }
    }

    fn handle(&self, unit: MarkdownUnit, _context: &HandlerContext) -> (r: Result<
        Option<MarkdownUnit>,
        Error,
    >) {
        let mut unit = unit;
        let new_content = {
            let content = unit.content();
            let new_content = self.pattern.replace_all(content, self.replacement.as_str());
            if str_eq(new_content.as_str(), content) {
                None
            } else {
                Some(new_content)
            }
        };
        match new_content {
            Some(c) => {
                unit.set_content(c);
            },
            None => {
                proof {
                    lemma_unit_with_own_content(unit@);
                }
            },
        }
        Ok(Some(unit))
    }

    fn name(&self) -> (r: &str)
        ensures
            r@ == self.spec_name(),
    {
        self.name.as_str()
    }
}

/// Replacing a unit's content with the content it already has leaves the
/// unit unchanged.
proof fn lemma_unit_with_own_content(v: UnitView)
    ensures
        unit_with_content(v, unit_content(v)) == v,
{
}

} // verus!
