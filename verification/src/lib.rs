//! A small stylesheet engine for terminal user interfaces.
//!
//! Stylesheets are written in a CSS-like text format: each rule pairs a
//! selector (an optional element name plus class tags) with a body that sets
//! foreground/background colors and modifier flags.  Parsed stylesheets are
//! collected in an ordered store; a query for an (element, classes) pair
//! resolves the net style by cascading every matching rule in load and
//! declaration order.

use vstd::prelude::*;

mod grammar;
mod laws;
mod parser;
mod store;
mod style;
mod text;

pub use parser::{lemma_span_union_symmetric, merge, ParserCursor, Span, Spanned, SpannedResult};
pub use style::{Color, Modifier, Style};
pub use store::{Identifier, Stylesheet, StylesheetStore};
pub use grammar::{
    class, color, color_hex, color_name, comment, comment_close_only, consume_whitespace, expect,
    literal, modifier, parse_identifier, parse_style, parse_stylesheet, skip_comment, CommentError,
    ParseError,
};
pub use text::source_chars;
pub use laws::{
    lemma_cascade_color, lemma_cascade_mods, lemma_cascade_rules_idempotent,
    lemma_cascade_rules_push, lemma_cascade_sheets_push, lemma_duplicate_load,
    lemma_duplicate_sheet,
    lemma_override_and_retain, lemma_rule_count_push, lemma_single_hex_rule,
};

use grammar::{err_view, spec_stylesheet, GErr};
use store::{cascade_sheets, GRule};
use style::default_style;
use text::strip_cr;

verus! {

/// The outcome the stylesheet grammar assigns to one source text: carriage
/// returns are stripped and the rule list is parsed from the start.
pub open spec fn spec_parse(src: Seq<char>) -> Result<(Seq<GRule>, int), GErr> {
    spec_stylesheet(strip_cr(src), 0, Seq::empty())
}

/// Parse one stylesheet source text in full: a complete stylesheet, or the
/// first failure, span-tagged.  There is no recovery and no partial
/// stylesheet.
pub fn parse(source: &str) -> (r: Result<Stylesheet, Spanned<ParseError>>)
    ensures
        ({
            match spec_parse(source@) {
                Ok(g) => r matches Ok(sheet) && sheet@ == g.0,
                Err(g) => r matches Err(sp) && err_view(sp.node) == g.e && sp.span.start == g.lo
                    && sp.span.end == g.hi,
            }
        }),
{
    let chars = source_chars(source);
    let mut cursor = ParserCursor::new(chars);
    match parse_stylesheet(&mut cursor) {
        Ok(sp) => Ok(sp.node),
        Err(e) => Err(e),
    }
}

/// An unterminated block comment is an end-of-file failure: whenever a
/// parse fails and the failure consists of the unterminated-comment error
/// (alone, or as a union of such failures from both color branches), its
/// span is the one-element span just past the true end of the input.
pub proof fn lemma_unterminated_comment_spans_end(src: Seq<char>)
    ensures
        spec_parse(src) matches Err(g) ==> (comment_close_only(g.e) ==> g.lo == strip_cr(
            src,
        ).len() && g.hi == strip_cr(src).len() + 1),
{
    grammar::lemma_stylesheet_comment_close(strip_cr(src), 0, Seq::empty());
}

/// Parse a stylesheet source and, on success, append it to the store.  A
/// failure hands back the diagnostic and leaves the store untouched, so
/// previously loaded stylesheets stay in effect.
pub fn add_stylesheet(store: &mut StylesheetStore, source: &str) -> (r: Result<
    (),
    Spanned<ParseError>,
>)
    ensures
        ({
            match spec_parse(source@) {
                Ok(g) => r is Ok && final(store).sheets@.len() == old(store).sheets@.len() + 1
                    && final(store)@ == old(store)@.push(g.0),
                Err(g) => (r matches Err(sp) && err_view(sp.node) == g.e && sp.span.start == g.lo
                    && sp.span.end == g.hi) && *final(store) == *old(store),
            }
        }),
{
    match parse(source) {
        Ok(sheet) => {
            store.push_sheet(sheet);
            Ok(())
        },
        Err(e) => Err(e),
    }
}

/// Resolve the effective style of an (element, classes) query by cascading
/// every loaded stylesheet in load order and every rule in declaration
/// order.  Total: an empty store or an unmatched query yields the default
/// style, never an error.
pub fn get_style(store: &StylesheetStore, identifier: &str, classes: &Vec<String>) -> (r: Style)
    ensures
        r == cascade_sheets(store@, identifier@, classes.deep_view(), default_style()),
{
    store.get_style(identifier, classes)
}

} // verus!
