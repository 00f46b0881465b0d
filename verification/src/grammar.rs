//! The recursive-descent grammar layer: literals, comments and whitespace,
//! colors, modifier names, selectors, rule bodies and whole stylesheets.
//!
//! Every parsing function is specified against a spec-level twin that maps
//! the input characters and a starting position to the exact outcome: the
//! parsed value, the spans, the next cursor position, or the precise failure.

use vstd::prelude::*;

use crate::parser::{merge, ParserCursor, Span, Spanned, SpannedResult, pred_outcome};
use crate::style::{Color, Modifier, Style, spec_add_modifier, spec_remove_modifier, default_style};
use crate::store::{
    name_view, names_view, rules_view, GIdent, GName, GRule, Identifier, Stylesheet,
};
use crate::text::{
    char_whitespace, chars_to_string, hex_digit, hex_digit_value, ident_char, is_alphabetic,
    is_digit, is_whitespace, str_eq,
};

verus! {

/// A failure of a stylesheet parse, tagged with what was expected or which
/// vocabulary check failed.
#[derive(Debug)]
pub enum ParseError {
    InvalidColorHex(String),
    InvalidColorName(String),
    InvalidModifier(String),
    InvalidHexType(String),
    InvalidProperty(String),
    ExpectedHexString,
    ExpectedHashTag(char),
    ExpectedClassName,
    ExpectedProperty,
    ExpectedAssignment(char),
    ExpectedModifier,
    ExpectedColorName,
    ExpectedSemicolon,
    ExpectedBracketOpen(char),
    ExpectedBracketClose(char),
    ExpectedClassDot(char),
    ExpectedCommentClose,
    Union(Box<ParseError>, Box<ParseError>),
}

/// The spec-level shape of a `ParseError`, with strings as character
/// sequences.
pub ghost enum ErrV {
    InvalidColorHex(Seq<char>),
    InvalidColorName(Seq<char>),
    InvalidModifier(Seq<char>),
    InvalidHexType(Seq<char>),
    InvalidProperty(Seq<char>),
    ExpectedHexString,
    ExpectedHashTag(char),
    ExpectedClassName,
    ExpectedProperty,
    ExpectedAssignment(char),
    ExpectedModifier,
    ExpectedColorName,
    ExpectedSemicolon,
    ExpectedBracketOpen(char),
    ExpectedBracketClose(char),
    ExpectedClassDot(char),
    ExpectedCommentClose,
    Union(Box<ErrV>, Box<ErrV>),
}

pub open spec fn err_view(e: ParseError) -> ErrV
    decreases e,
{
    match e {
        ParseError::InvalidColorHex(s) => ErrV::InvalidColorHex(s@),
        ParseError::InvalidColorName(s) => ErrV::InvalidColorName(s@),
        ParseError::InvalidModifier(s) => ErrV::InvalidModifier(s@),
        ParseError::InvalidHexType(s) => ErrV::InvalidHexType(s@),
        ParseError::InvalidProperty(s) => ErrV::InvalidProperty(s@),
        ParseError::ExpectedHexString => ErrV::ExpectedHexString,
        ParseError::ExpectedHashTag(c) => ErrV::ExpectedHashTag(c),
        ParseError::ExpectedClassName => ErrV::ExpectedClassName,
        ParseError::ExpectedProperty => ErrV::ExpectedProperty,
        ParseError::ExpectedAssignment(c) => ErrV::ExpectedAssignment(c),
        ParseError::ExpectedModifier => ErrV::ExpectedModifier,
        ParseError::ExpectedColorName => ErrV::ExpectedColorName,
        ParseError::ExpectedSemicolon => ErrV::ExpectedSemicolon,
        ParseError::ExpectedBracketOpen(c) => ErrV::ExpectedBracketOpen(c),
        ParseError::ExpectedBracketClose(c) => ErrV::ExpectedBracketClose(c),
        ParseError::ExpectedClassDot(c) => ErrV::ExpectedClassDot(c),
        ParseError::ExpectedCommentClose => ErrV::ExpectedCommentClose,
        ParseError::Union(a, b) => ErrV::Union(Box::new(err_view(*a)), Box::new(err_view(*b))),
    }
}

/// How a single comment attempt ends: a comment was found and consumed, the
/// input was not a comment at all, or a block comment ran unterminated to the
/// end of the input.
pub ghost enum CommentOutcome {
    Found { next: int, lo: int, hi: int },
    NotComment { next: int, lo: int, hi: int },
    Unterminated,
}

/// Why a comment attempt failed.
#[derive(Clone, Copy, Debug, PartialEq, Eq, Structural)]
pub enum CommentError {
    NotComment,
    Unterminated,
}

/// First position at or after `pos` that does not continue an identifier.
pub open spec fn scan_ident(s: Seq<char>, pos: int) -> int
    decreases s.len() - pos,
{
    if pos < s.len() && ident_char(s[pos]) {
        scan_ident(s, pos + 1)
    } else {
        pos
    }
}

/// First position at or after `pos` that is not whitespace.
pub open spec fn scan_ws(s: Seq<char>, pos: int) -> int
    decreases s.len() - pos,
{
    if pos < s.len() && char_whitespace(s[pos]) {
        scan_ws(s, pos + 1)
    } else {
        pos
    }
}

/// First position at or after `pos` holding a newline, or the end of input.
pub open spec fn scan_line(s: Seq<char>, pos: int) -> int
    decreases s.len() - pos,
{
    if pos < s.len() && s[pos] != '\n' {
        scan_line(s, pos + 1)
    } else {
        pos
    }
}

/// Position just past the first `*/` at or after `pos`, which closes a
/// block comment whose inside starts at `pos`; `None` if no `*/` follows.
pub open spec fn scan_block(s: Seq<char>, pos: int) -> Option<int>
    decreases s.len() - pos,
{
    if pos >= s.len() {
        None
    } else if s[pos] == '*' && pos + 1 < s.len() && s[pos + 1] == '/' {
        Some(pos + 2)
    } else {
        scan_block(s, pos + 1)
    }
}

pub proof fn lemma_scan_ident_bounds(s: Seq<char>, pos: int)
    requires
        0 <= pos <= s.len(),
    ensures
        pos <= scan_ident(s, pos) <= s.len(),
    decreases s.len() - pos,
{
    if pos < s.len() && ident_char(s[pos]) {
        lemma_scan_ident_bounds(s, pos + 1);
    }
}

pub proof fn lemma_scan_ws_bounds(s: Seq<char>, pos: int)
    requires
        0 <= pos <= s.len(),
    ensures
        pos <= scan_ws(s, pos) <= s.len(),
    decreases s.len() - pos,
{
    if pos < s.len() && char_whitespace(s[pos]) {
        lemma_scan_ws_bounds(s, pos + 1);
    }
}

pub proof fn lemma_scan_line_bounds(s: Seq<char>, pos: int)
    requires
        0 <= pos <= s.len(),
    ensures
        pos <= scan_line(s, pos) <= s.len(),
    decreases s.len() - pos,
{
    if pos < s.len() && s[pos] != '\n' {
        lemma_scan_line_bounds(s, pos + 1);
    }
}

pub proof fn lemma_scan_block_bounds(s: Seq<char>, pos: int)
    requires
        0 <= pos <= s.len(),
        scan_block(s, pos) is Some,
    ensures
        pos < scan_block(s, pos)->0 <= s.len(),
    decreases s.len() - pos,
{
    if pos >= s.len() {
    } else if s[pos] == '*' && pos + 1 < s.len() && s[pos + 1] == '/' {
    } else {
        lemma_scan_block_bounds(s, pos + 1);
    }
}

/// Spec twin of `comment`: the exact outcome of one comment attempt at `pos`.
pub open spec fn spec_comment(s: Seq<char>, pos: int) -> CommentOutcome {
    if pos >= s.len() {
        CommentOutcome::NotComment { next: pos, lo: pos, hi: pos + 1 }
    } else if s[pos] != '/' {
        CommentOutcome::NotComment { next: pos + 1, lo: pos, hi: pos + 1 }
    } else if pos + 1 >= s.len() {
        // A lone `/` at the very end of the input counts as an (empty)
        // comment: only the slash is consumed.
        CommentOutcome::Found { next: pos + 1, lo: pos + 1, hi: pos + 2 }
    } else if s[pos + 1] == '/' {
        let e = scan_line(s, pos + 2);
        CommentOutcome::Found { next: e, lo: e, hi: e + 1 }
    } else if s[pos + 1] == '*' {
        match scan_block(s, pos + 2) {
            Some(e) => CommentOutcome::Found { next: e, lo: e, hi: e + 1 },
            None => CommentOutcome::Unterminated,
        }
    } else {
        CommentOutcome::NotComment { next: pos + 2, lo: pos + 1, hi: pos + 2 }
    }
}

pub proof fn lemma_spec_comment_bounds(s: Seq<char>, pos: int)
    requires
        0 <= pos <= s.len(),
    ensures
        spec_comment(s, pos) matches CommentOutcome::Found { next, .. } ==> pos < next <= s.len(),
        spec_comment(s, pos) matches CommentOutcome::NotComment { next, .. } ==> pos <= next
            <= s.len(),
{
    if pos < s.len() && s[pos] == '/' && pos + 1 < s.len() {
        if s[pos + 1] == '/' {
            lemma_scan_line_bounds(s, pos + 2);
        } else if s[pos + 1] == '*' {
            if scan_block(s, pos + 2) is Some {
                lemma_scan_block_bounds(s, pos + 2);
            }
        }
    }
}

/// Spec twin of `consume_whitespace`: skips whitespace runs interleaved with
/// comments.  `Ok(p)` is the position where real input resumes; `Err(w)`
/// means a block comment starting at the first non-whitespace position `w`
/// never closes.
pub open spec fn spec_ws(s: Seq<char>, pos: int) -> Result<int, int>
    decreases s.len() - pos,
        when 0 <= pos <= s.len()
        via spec_ws_decreases
{
    let w = scan_ws(s, pos);
    match spec_comment(s, w) {
        CommentOutcome::Found { next, .. } => spec_ws(s, next),
        CommentOutcome::NotComment { .. } => Ok(w),
        CommentOutcome::Unterminated => Err(w),
    }
}

#[via_fn]
proof fn spec_ws_decreases(s: Seq<char>, pos: int) {
    lemma_scan_ws_bounds(s, pos);
    lemma_spec_comment_bounds(s, scan_ws(s, pos));
}

pub proof fn lemma_spec_ws_bounds(s: Seq<char>, pos: int)
    requires
        0 <= pos <= s.len(),
    ensures
        spec_ws(s, pos) matches Ok(p) ==> pos <= p <= s.len(),
        spec_ws(s, pos) matches Err(w) ==> pos <= w <= s.len(),
    decreases s.len() - pos,
{
    lemma_scan_ws_bounds(s, pos);
    let w = scan_ws(s, pos);
    lemma_spec_comment_bounds(s, w);
    match spec_comment(s, w) {
        CommentOutcome::Found { next, .. } => {
            lemma_spec_ws_bounds(s, next);
        },
        _ => {},
    }
}

pub proof fn lemma_scan_ident_run(s: Seq<char>, pos: int, end: int)
    requires
        0 <= pos <= end <= s.len(),
        forall|i: int| pos <= i < end ==> ident_char(s[i]),
        end == s.len() || !ident_char(s[end]),
    ensures
        scan_ident(s, pos) == end,
    decreases end - pos,
{
    if pos < end {
        lemma_scan_ident_run(s, pos + 1, end);
    }
}

pub proof fn lemma_scan_ws_run(s: Seq<char>, pos: int, end: int)
    requires
        0 <= pos <= end <= s.len(),
        forall|i: int| pos <= i < end ==> char_whitespace(s[i]),
        end == s.len() || !char_whitespace(s[end]),
    ensures
        scan_ws(s, pos) == end,
    decreases end - pos,
{
    if pos < end {
        lemma_scan_ws_run(s, pos + 1, end);
    }
}

pub proof fn lemma_scan_line_run(s: Seq<char>, pos: int, end: int)
    requires
        0 <= pos <= end <= s.len(),
        forall|i: int| pos <= i < end ==> s[i] != '\n',
        end == s.len() || s[end] == '\n',
    ensures
        scan_line(s, pos) == end,
    decreases end - pos,
{
    if pos < end {
        lemma_scan_line_run(s, pos + 1, end);
    }
}

/// Spec-level success of a sub-parse: the value, its span `[lo, hi)` and the
/// position where parsing continues.
pub ghost struct GOk<V> {
    pub v: V,
    pub lo: int,
    pub hi: int,
    pub next: int,
}

/// Spec-level failure of a sub-parse: the error, its span `[lo, hi)` and the
/// cursor position at the moment of failure.
pub ghost struct GErr {
    pub e: ErrV,
    pub lo: int,
    pub hi: int,
    pub next: int,
}

/// The failure of an unterminated block comment, anchored just past the end
/// of the input; `w` is where the comment attempt started.
pub open spec fn comment_close_err(s: Seq<char>, w: int) -> GErr {
    GErr { e: ErrV::ExpectedCommentClose, lo: s.len() as int, hi: s.len() as int + 1, next: w }
}

/// Spec twin of `class`: a `.`-prefixed literal, with whitespace allowed
/// around the dot.
pub open spec fn spec_class(s: Seq<char>, pos: int) -> Result<GOk<Seq<char>>, GErr> {
    match spec_ws(s, pos) {
        Err(w) => Err(comment_close_err(s, w)),
        Ok(p1) => {
            if p1 >= s.len() {
                Err(GErr { e: ErrV::ExpectedClassDot('.'), lo: p1, hi: p1 + 1, next: p1 })
            } else if s[p1] != '.' {
                Err(GErr { e: ErrV::ExpectedClassDot(s[p1]), lo: p1, hi: p1 + 1, next: p1 + 1 })
            } else {
                match spec_ws(s, p1 + 1) {
                    Err(w) => Err(comment_close_err(s, w)),
                    Ok(p2) => {
                        let e = scan_ident(s, p2);
                        if e > p2 {
                            Ok(GOk { v: s.subrange(p2, e), lo: p2, hi: e, next: e })
                        } else {
                            Err(GErr { e: ErrV::ExpectedClassName, lo: p2, hi: p2, next: p2 })
                        }
                    },
                }
            }
        },
    }
}

/// The color value of each byte pair of a six-digit hex string.
pub open spec fn hex_pair(a: char, b: char) -> u8 {
    (hex_digit_value(a) * 16 + hex_digit_value(b)) as u8
}

/// All six characters are hex digits.
pub open spec fn hex6(d: Seq<char>) -> bool {
    forall|i: int| 0 <= i < 6 ==> hex_digit_value(#[trigger] d[i]) < 16
}

/// The RGB color a six-digit hex string denotes.
pub open spec fn hex6_color(d: Seq<char>) -> Color {
    Color::Rgb(hex_pair(d[0], d[1]), hex_pair(d[2], d[3]), hex_pair(d[4], d[5]))
}

/// The three-digit form expands each digit by doubling.
pub open spec fn doubled(l: Seq<char>) -> Seq<char> {
    seq![l[0], l[0], l[1], l[1], l[2], l[2]]
}

/// Spec twin of `color_hex`: `#` followed by exactly three or six hex digits.
pub open spec fn spec_color_hex(s: Seq<char>, pos: int) -> Result<GOk<Color>, GErr> {
    match spec_ws(s, pos) {
        Err(w) => Err(comment_close_err(s, w)),
        Ok(p1) => {
            if p1 >= s.len() {
                Err(GErr { e: ErrV::ExpectedHashTag('#'), lo: p1, hi: p1 + 1, next: p1 })
            } else if s[p1] != '#' {
                Err(GErr { e: ErrV::ExpectedHashTag(s[p1]), lo: p1, hi: p1 + 1, next: p1 + 1 })
            } else {
                match spec_ws(s, p1 + 1) {
                    Err(w) => Err(comment_close_err(s, w)),
                    Ok(p2) => {
                        let e = scan_ident(s, p2);
                        if e == p2 {
                            Err(GErr { e: ErrV::ExpectedHexString, lo: p2, hi: p2, next: p2 })
                        } else {
                            let lit = s.subrange(p2, e);
                            if lit.len() != 3 && lit.len() != 6 {
                                Err(
                                    GErr {
                                        e: ErrV::InvalidColorHex(lit),
                                        lo: p2,
                                        hi: e,
                                        next: e,
                                    },
                                )
                            } else {
                                let d = if lit.len() == 3 {
                                    doubled(lit)
                                } else {
                                    lit
                                };
                                if hex6(d) {
                                    Ok(GOk { v: hex6_color(d), lo: p2, hi: e, next: e })
                                } else {
                                    Err(
                                        GErr {
                                            e: ErrV::InvalidHexType(d),
                                            lo: p2,
                                            hi: e,
                                            next: e,
                                        },
                                    )
                                }
                            }
                        }
                    },
                }
            }
        },
    }
}

/// The fixed color palette: the value each name denotes, `Some(None)` for the
/// explicit `none`, or `None` for an unknown name.
pub open spec fn color_from_name(n: Seq<char>) -> Option<Option<Color>> {
    if n == "black"@ {
        Some(Some(Color::Black))
    } else if n == "gray"@ {
        Some(Some(Color::Gray))
    } else if n == "red"@ {
        Some(Some(Color::Red))
    } else if n == "green"@ {
        Some(Some(Color::Green))
    } else if n == "blue"@ {
        Some(Some(Color::Blue))
    } else if n == "yellow"@ {
        Some(Some(Color::Yellow))
    } else if n == "magenta"@ {
        Some(Some(Color::Magenta))
    } else if n == "cyan"@ {
        Some(Some(Color::Cyan))
    } else if n == "white"@ {
        Some(Some(Color::White))
    } else if n == "transparent"@ || n == "reset"@ {
        Some(Some(Color::Reset))
    } else if n == "light_red"@ || n == "lightred"@ {
        Some(Some(Color::LightRed))
    } else if n == "light_green"@ || n == "lightgreen"@ {
        Some(Some(Color::LightGreen))
    } else if n == "light_blue"@ || n == "lightblue"@ {
        Some(Some(Color::LightBlue))
    } else if n == "light_yellow"@ || n == "lightyellow"@ {
        Some(Some(Color::LightYellow))
    } else if n == "light_magenta"@ || n == "lightmagenta"@ {
        Some(Some(Color::LightMagenta))
    } else if n == "light_cyan"@ || n == "lightcyan"@ {
        Some(Some(Color::LightCyan))
    } else if n == "dark_gray"@ || n == "darkgray"@ {
        Some(Some(Color::DarkGray))
    } else if n == "none"@ {
        Some(None)
    } else {
        None
    }
}

/// Spec twin of `color_name`: a literal checked against the palette.
pub open spec fn spec_color_name(s: Seq<char>, pos: int) -> Result<GOk<Option<Color>>, GErr> {
    match spec_ws(s, pos) {
        Err(w) => Err(comment_close_err(s, w)),
        Ok(p1) => {
            let e = scan_ident(s, p1);
            if e == p1 {
                Err(GErr { e: ErrV::ExpectedColorName, lo: p1, hi: p1, next: p1 })
            } else {
                let n = s.subrange(p1, e);
                match color_from_name(n) {
                    Some(v) => Ok(GOk { v: v, lo: p1, hi: e, next: e }),
                    None => Err(GErr { e: ErrV::InvalidColorName(n), lo: p1, hi: e, next: e }),
                }
            }
        },
    }
}

/// The fixed modifier vocabulary: which flag each name denotes.
pub open spec fn modifier_from_name(n: Seq<char>) -> Option<Modifier> {
    if n == "bold"@ {
        Some(Modifier::Bold)
    } else if n == "dim"@ {
        Some(Modifier::Dim)
    } else if n == "italic"@ {
        Some(Modifier::Italic)
    } else if n == "underlined"@ {
        Some(Modifier::Underlined)
    } else if n == "slow_blink"@ {
        Some(Modifier::SlowBlink)
    } else if n == "rapid_blink"@ {
        Some(Modifier::RapidBlink)
    } else if n == "reversed"@ {
        Some(Modifier::Reversed)
    } else if n == "hidden"@ {
        Some(Modifier::Hidden)
    } else if n == "crossed_out"@ {
        Some(Modifier::CrossedOut)
    } else {
        None
    }
}

/// Spec twin of `modifier`: a literal checked against the modifier
/// vocabulary.
pub open spec fn spec_modifier(s: Seq<char>, pos: int) -> Result<GOk<Modifier>, GErr> {
    match spec_ws(s, pos) {
        Err(w) => Err(comment_close_err(s, w)),
        Ok(p1) => {
            let e = scan_ident(s, p1);
            if e == p1 {
                Err(GErr { e: ErrV::ExpectedModifier, lo: p1, hi: p1, next: p1 })
            } else {
                let n = s.subrange(p1, e);
                match modifier_from_name(n) {
                    Some(m) => Ok(GOk { v: m, lo: p1, hi: e, next: e }),
                    None => Err(GErr { e: ErrV::InvalidModifier(n), lo: p1, hi: e, next: e }),
                }
            }
        },
    }
}

/// Spec twin of `color`: try the hex form first; on failure rewind and try a
/// palette name; if both fail, the union failure carries both errors under
/// the span covering both attempts.
pub open spec fn spec_color(s: Seq<char>, pos: int) -> Result<GOk<Option<Color>>, GErr> {
    match spec_color_hex(s, pos) {
        Ok(g) => Ok(GOk { v: Some(g.v), lo: g.lo, hi: g.hi, next: g.next }),
        Err(g1) => match spec_color_name(s, pos) {
            Ok(g2) => Ok(g2),
            Err(g2) => Err(
                GErr {
                    e: ErrV::Union(Box::new(g1.e), Box::new(g2.e)),
                    lo: if g1.lo <= g2.lo {
                        g1.lo
                    } else {
                        g2.lo
                    },
                    hi: if g1.hi >= g2.hi {
                        g1.hi
                    } else {
                        g2.hi
                    },
                    next: g2.next,
                },
            ),
        },
    }
}

pub proof fn lemma_spec_class_bounds(s: Seq<char>, pos: int)
    requires
        0 <= pos <= s.len(),
    ensures
        spec_class(s, pos) matches Ok(g) ==> pos < g.next <= s.len(),
        spec_class(s, pos) matches Err(g) ==> pos <= g.next <= s.len(),
{
    lemma_spec_ws_bounds(s, pos);
    match spec_ws(s, pos) {
        Ok(p1) => {
            if p1 < s.len() && s[p1] == '.' {
                lemma_spec_ws_bounds(s, p1 + 1);
                match spec_ws(s, p1 + 1) {
                    Ok(p2) => {
                        lemma_scan_ident_bounds(s, p2);
                    },
                    Err(_) => {},
                }
            }
        },
        Err(_) => {},
    }
}

pub proof fn lemma_spec_color_hex_bounds(s: Seq<char>, pos: int)
    requires
        0 <= pos <= s.len(),
    ensures
        spec_color_hex(s, pos) matches Ok(g) ==> pos <= g.next <= s.len(),
        spec_color_hex(s, pos) matches Err(g) ==> pos <= g.next <= s.len(),
{
    lemma_spec_ws_bounds(s, pos);
    match spec_ws(s, pos) {
        Ok(p1) => {
            if p1 < s.len() && s[p1] == '#' {
                lemma_spec_ws_bounds(s, p1 + 1);
                match spec_ws(s, p1 + 1) {
                    Ok(p2) => {
                        lemma_scan_ident_bounds(s, p2);
                    },
                    Err(_) => {},
                }
            }
        },
        Err(_) => {},
    }
}

pub proof fn lemma_spec_color_name_bounds(s: Seq<char>, pos: int)
    requires
        0 <= pos <= s.len(),
    ensures
        spec_color_name(s, pos) matches Ok(g) ==> pos <= g.next <= s.len(),
        spec_color_name(s, pos) matches Err(g) ==> pos <= g.next <= s.len(),
{
    lemma_spec_ws_bounds(s, pos);
    match spec_ws(s, pos) {
        Ok(p1) => {
            lemma_scan_ident_bounds(s, p1);
        },
        Err(_) => {},
    }
}

pub proof fn lemma_spec_modifier_bounds(s: Seq<char>, pos: int)
    requires
        0 <= pos <= s.len(),
    ensures
        spec_modifier(s, pos) matches Ok(g) ==> pos <= g.next <= s.len(),
        spec_modifier(s, pos) matches Err(g) ==> pos <= g.next <= s.len(),
{
    lemma_spec_ws_bounds(s, pos);
    match spec_ws(s, pos) {
        Ok(p1) => {
            lemma_scan_ident_bounds(s, p1);
        },
        Err(_) => {},
    }
}

pub proof fn lemma_spec_color_bounds(s: Seq<char>, pos: int)
    requires
        0 <= pos <= s.len(),
    ensures
        spec_color(s, pos) matches Ok(g) ==> pos <= g.next <= s.len(),
        spec_color(s, pos) matches Err(g) ==> pos <= g.next <= s.len(),
{
    lemma_spec_color_hex_bounds(s, pos);
    lemma_spec_color_name_bounds(s, pos);
}

/// Spec twin of the class loop of `parse_identifier`: after whitespace, a
/// `{` or anything that is not a `.` ends the selector; each `.` starts one
/// more class.
pub open spec fn spec_sel_classes(s: Seq<char>, pos: int, acc: Seq<crate::store::GName>) -> Result<
    (Seq<crate::store::GName>, int),
    GErr,
>
    decreases s.len() - pos,
        when 0 <= pos <= s.len()
        via spec_sel_classes_decreases
{
    match spec_ws(s, pos) {
        Err(w) => Err(comment_close_err(s, w)),
        Ok(p1) => {
            if p1 < s.len() && s[p1] == '{' {
                Ok((acc, p1))
            } else if p1 < s.len() && s[p1] == '.' {
                match spec_class(s, p1) {
                    Ok(g) => spec_sel_classes(
                        s,
                        g.next,
                        acc.push(crate::store::GName { v: g.v, lo: g.lo, hi: g.hi }),
                    ),
                    Err(g) => Err(g),
                }
            } else {
                Ok((acc, p1))
            }
        },
    }
}

#[via_fn]
proof fn spec_sel_classes_decreases(s: Seq<char>, pos: int, acc: Seq<crate::store::GName>) {
    lemma_spec_ws_bounds(s, pos);
    match spec_ws(s, pos) {
        Ok(p1) => {
            if p1 < s.len() && s[p1] != '{' && s[p1] == '.' {
                lemma_spec_class_bounds(s, p1);
            }
        },
        Err(_) => {},
    }
}

pub proof fn lemma_spec_sel_classes_bounds(s: Seq<char>, pos: int, acc: Seq<crate::store::GName>)
    requires
        0 <= pos <= s.len(),
    ensures
        spec_sel_classes(s, pos, acc) matches Ok(g) ==> pos <= g.1 <= s.len(),
        spec_sel_classes(s, pos, acc) matches Err(g) ==> pos <= g.next <= s.len(),
    decreases s.len() - pos,
{
    lemma_spec_ws_bounds(s, pos);
    match spec_ws(s, pos) {
        Ok(p1) => {
            if p1 < s.len() && s[p1] == '{' {
            } else if p1 < s.len() && s[p1] == '.' {
                lemma_spec_class_bounds(s, p1);
                match spec_class(s, p1) {
                    Ok(g) => {
                        lemma_spec_sel_classes_bounds(
                            s,
                            g.next,
                            acc.push(crate::store::GName { v: g.v, lo: g.lo, hi: g.hi }),
                        );
                    },
                    Err(_) => {},
                }
            }
        },
        Err(_) => {},
    }
}

/// Spec twin of `parse_identifier`: an optional element literal followed by
/// zero or more classes; the selector's span runs from after the leading
/// whitespace to wherever the class loop stopped.
pub open spec fn spec_identifier(s: Seq<char>, pos: int) -> Result<GOk<crate::store::GIdent>, GErr> {
    match spec_ws(s, pos) {
        Err(w) => Err(comment_close_err(s, w)),
        Ok(p1) => {
            let e = scan_ident(s, p1);
            let element = if e > p1 {
                Some(crate::store::GName { v: s.subrange(p1, e), lo: p1, hi: e })
            } else {
                None
            };
            match spec_sel_classes(s, e, Seq::empty()) {
                Err(g) => Err(g),
                Ok(g) => Ok(
                    GOk {
                        v: crate::store::GIdent { element: element, classes: g.0 },
                        lo: p1,
                        hi: g.1,
                        next: g.1,
                    },
                ),
            }
        },
    }
}

pub proof fn lemma_spec_identifier_bounds(s: Seq<char>, pos: int)
    requires
        0 <= pos <= s.len(),
    ensures
        spec_identifier(s, pos) matches Ok(g) ==> pos <= g.next <= s.len(),
        spec_identifier(s, pos) matches Err(g) ==> pos <= g.next <= s.len(),
{
    lemma_spec_ws_bounds(s, pos);
    match spec_ws(s, pos) {
        Ok(p1) => {
            lemma_scan_ident_bounds(s, p1);
            lemma_spec_sel_classes_bounds(s, scan_ident(s, p1), Seq::empty());
        },
        Err(_) => {},
    }
}

/// Spec twin of the body loop of `parse_style`: `property ':' value`
/// entries separated by `;`, the last separator optional before the closing
/// `}`.
pub open spec fn spec_style_body(s: Seq<char>, pos: int, acc: Style) -> Result<(Style, int), GErr>
    decreases s.len() - pos,
        when 0 <= pos <= s.len()
        via spec_style_body_decreases
{
    match spec_ws(s, pos) {
        Err(w) => Err(comment_close_err(s, w)),
        Ok(p1) => {
            if p1 < s.len() && s[p1] == '}' {
                Ok((acc, p1 + 1))
            } else {
                let e = scan_ident(s, p1);
                if e == p1 {
                    Err(GErr { e: ErrV::ExpectedClassName, lo: p1, hi: p1, next: p1 })
                } else {
                    let prop = s.subrange(p1, e);
                    match spec_ws(s, e) {
                        Err(w) => Err(comment_close_err(s, w)),
                        Ok(p2) => {
                            if p2 >= s.len() {
                                Err(
                                    GErr {
                                        e: ErrV::ExpectedAssignment(':'),
                                        lo: p2,
                                        hi: p2 + 1,
                                        next: p2,
                                    },
                                )
                            } else if s[p2] != ':' {
                                Err(
                                    GErr {
                                        e: ErrV::ExpectedAssignment(s[p2]),
                                        lo: p2,
                                        hi: p2 + 1,
                                        next: p2 + 1,
                                    },
                                )
                            } else {
                                match spec_ws(s, p2 + 1) {
                                    Err(w) => Err(comment_close_err(s, w)),
                                    Ok(p3) => {
                                        match spec_style_value(s, p3, prop, acc, p1, e) {
                                            Err(g) => Err(g),
                                            Ok(g) => {
                                                let acc2 = g.0;
                                                let p4 = g.1;
                                                match spec_ws(s, p4) {
                                                    Err(w) => Err(comment_close_err(s, w)),
                                                    Ok(p5) => {
                                                        if p5 < s.len() && s[p5] == ';' {
                                                            spec_style_body(s, p5 + 1, acc2)
                                                        } else if p5 < s.len() && s[p5] == '}' {
                                                            Ok((acc2, p5 + 1))
                                                        } else if p5 >= s.len() {
                                                            Err(
                                                                GErr {
                                                                    e: ErrV::ExpectedBracketClose(' '),
                                                                    lo: p5,
                                                                    hi: p5 + 1,
                                                                    next: p5,
                                                                },
                                                            )
                                                        } else {
                                                            Err(
                                                                GErr {
                                                                    e: ErrV::ExpectedSemicolon,
                                                                    lo: p5,
                                                                    hi: p5 + 1,
                                                                    next: p5,
                                                                },
                                                            )
                                                        }
                                                    },
                                                }
                                            },
                                        }
                                    },
                                }
                            }
                        },
                    }
                }
            }
        },
    }
}

/// One `property: value` entry's effect: which value grammar runs and how
/// the style accumulator changes; an unrecognized property is the failure,
/// under the property literal's span.
pub open spec fn spec_style_value(
    s: Seq<char>,
    pos: int,
    prop: Seq<char>,
    acc: Style,
    plo: int,
    phi: int,
) -> Result<(Style, int), GErr> {
    if prop == "bg"@ {
        match spec_color(s, pos) {
            Ok(g) => Ok((Style { bg: g.v, ..acc }, g.next)),
            Err(g) => Err(g),
        }
    } else if prop == "fg"@ {
        match spec_color(s, pos) {
            Ok(g) => Ok((Style { fg: g.v, ..acc }, g.next)),
            Err(g) => Err(g),
        }
    } else if prop == "add-modifier"@ {
        match spec_modifier(s, pos) {
            Ok(g) => Ok((spec_add_modifier(acc, g.v), g.next)),
            Err(g) => Err(g),
        }
    } else if prop == "remove-modifier"@ {
        match spec_modifier(s, pos) {
            Ok(g) => Ok((spec_remove_modifier(acc, g.v), g.next)),
            Err(g) => Err(g),
        }
    } else {
        Err(GErr { e: ErrV::InvalidProperty(prop), lo: plo, hi: phi, next: pos })
    }
}

pub proof fn lemma_spec_style_value_bounds(
    s: Seq<char>,
    pos: int,
    prop: Seq<char>,
    acc: Style,
    plo: int,
    phi: int,
)
    requires
        0 <= pos <= s.len(),
    ensures
        spec_style_value(s, pos, prop, acc, plo, phi) matches Ok(g) ==> pos <= g.1 <= s.len(),
        spec_style_value(s, pos, prop, acc, plo, phi) matches Err(g) ==> g.next == pos
            || pos <= g.next <= s.len(),
{
    lemma_spec_color_bounds(s, pos);
    lemma_spec_modifier_bounds(s, pos);
}

#[via_fn]
proof fn spec_style_body_decreases(s: Seq<char>, pos: int, acc: Style) {
    lemma_spec_ws_bounds(s, pos);
    match spec_ws(s, pos) {
        Ok(p1) => {
            if !(p1 < s.len() && s[p1] == '}') {
                lemma_scan_ident_bounds(s, p1);
                let e = scan_ident(s, p1);
                if e != p1 {
                    let prop = s.subrange(p1, e);
                    lemma_spec_ws_bounds(s, e);
                    match spec_ws(s, e) {
                        Ok(p2) => {
                            if p2 < s.len() && s[p2] == ':' {
                                lemma_spec_ws_bounds(s, p2 + 1);
                                match spec_ws(s, p2 + 1) {
                                    Ok(p3) => {
                                        lemma_spec_style_value_bounds(s, p3, prop, acc, p1, e);
                                        match spec_style_value(s, p3, prop, acc, p1, e) {
                                            Ok(g) => {
                                                lemma_spec_ws_bounds(s, g.1);
                                            },
                                            Err(_) => {},
                                        }
                                    },
                                    Err(_) => {},
                                }
                            }
                        },
                        Err(_) => {},
                    }
                }
            }
        },
        Err(_) => {},
    }
}

pub proof fn lemma_spec_style_body_bounds(s: Seq<char>, pos: int, acc: Style)
    requires
        0 <= pos <= s.len(),
    ensures
        spec_style_body(s, pos, acc) matches Ok(g) ==> pos <= g.1 <= s.len(),
        spec_style_body(s, pos, acc) matches Err(g) ==> pos <= g.next <= s.len(),
    decreases s.len() - pos,
{
    lemma_spec_ws_bounds(s, pos);
    match spec_ws(s, pos) {
        Ok(p1) => {
            if p1 < s.len() && s[p1] == '}' {
            } else {
                lemma_scan_ident_bounds(s, p1);
                let e = scan_ident(s, p1);
                if e != p1 {
                    let prop = s.subrange(p1, e);
                    lemma_spec_ws_bounds(s, e);
                    match spec_ws(s, e) {
                        Ok(p2) => {
                            if p2 < s.len() && s[p2] == ':' {
                                lemma_spec_ws_bounds(s, p2 + 1);
                                match spec_ws(s, p2 + 1) {
                                    Ok(p3) => {
                                        lemma_spec_style_value_bounds(s, p3, prop, acc, p1, e);
                                        match spec_style_value(s, p3, prop, acc, p1, e) {
                                            Ok(g) => {
                                                lemma_spec_ws_bounds(s, g.1);
                                                match spec_ws(s, g.1) {
                                                    Ok(p5) => {
                                                        if p5 < s.len() && s[p5] == ';' {
                                                            lemma_spec_style_body_bounds(
                                                                s,
                                                                p5 + 1,
                                                                g.0,
                                                            );
                                                        }
                                                    },
                                                    Err(_) => {},
                                                }
                                            },
                                            Err(_) => {},
                                        }
                                    },
                                    Err(_) => {},
                                }
                            }
                        },
                        Err(_) => {},
                    }
                }
            }
        },
        Err(_) => {},
    }
}

/// Spec twin of `parse_style`: `{`, the body entries, `}`; the rule's span
/// runs from the opening brace to just past the closing one.
pub open spec fn spec_style(s: Seq<char>, pos: int) -> Result<GOk<Style>, GErr> {
    match spec_ws(s, pos) {
        Err(w) => Err(comment_close_err(s, w)),
        Ok(p1) => {
            if p1 >= s.len() {
                Err(GErr { e: ErrV::ExpectedBracketOpen('{'), lo: p1, hi: p1 + 1, next: p1 })
            } else if s[p1] != '{' {
                Err(GErr { e: ErrV::ExpectedBracketOpen(s[p1]), lo: p1, hi: p1 + 1, next: p1 + 1 })
            } else {
                match spec_style_body(s, p1 + 1, default_style()) {
                    Err(g) => Err(g),
                    Ok(g) => Ok(GOk { v: g.0, lo: p1, hi: g.1, next: g.1 }),
                }
            }
        },
    }
}

pub proof fn lemma_spec_style_bounds(s: Seq<char>, pos: int)
    requires
        0 <= pos <= s.len(),
    ensures
        spec_style(s, pos) matches Ok(g) ==> pos < g.next <= s.len(),
        spec_style(s, pos) matches Err(g) ==> pos <= g.next <= s.len(),
{
    lemma_spec_ws_bounds(s, pos);
    match spec_ws(s, pos) {
        Ok(p1) => {
            if p1 < s.len() && s[p1] == '{' {
                lemma_spec_style_body_bounds(s, p1 + 1, default_style());
            }
        },
        Err(_) => {},
    }
}

/// Spec twin of `parse_stylesheet`: selector and rule body pairs separated
/// by whitespace and comments, until the end of the input.
pub open spec fn spec_stylesheet(s: Seq<char>, pos: int, acc: Seq<crate::store::GRule>) -> Result<
    (Seq<crate::store::GRule>, int),
    GErr,
>
    decreases s.len() - pos,
        when 0 <= pos <= s.len()
        via spec_stylesheet_decreases
{
    match spec_ws(s, pos) {
        Err(w) => Err(comment_close_err(s, w)),
        Ok(p1) => {
            if p1 >= s.len() {
                Ok((acc, p1))
            } else {
                match spec_identifier(s, p1) {
                    Err(g) => Err(g),
                    Ok(gid) => {
                        match spec_ws(s, gid.next) {
                            Err(w) => Err(comment_close_err(s, w)),
                            Ok(p2) => {
                                match spec_style(s, p2) {
                                    Err(g) => Err(g),
                                    Ok(gst) => spec_stylesheet(
                                        s,
                                        gst.next,
                                        acc.push(crate::store::GRule { sel: gid.v, style: gst.v }),
                                    ),
                                }
                            },
                        }
                    },
                }
            }
        },
    }
}

#[via_fn]
proof fn spec_stylesheet_decreases(s: Seq<char>, pos: int, acc: Seq<crate::store::GRule>) {
    lemma_spec_ws_bounds(s, pos);
    match spec_ws(s, pos) {
        Ok(p1) => {
            if p1 < s.len() {
                lemma_spec_identifier_bounds(s, p1);
                match spec_identifier(s, p1) {
                    Ok(gid) => {
                        lemma_spec_ws_bounds(s, gid.next);
                        match spec_ws(s, gid.next) {
                            Ok(p2) => {
                                lemma_spec_style_bounds(s, p2);
                            },
                            Err(_) => {},
                        }
                    },
                    Err(_) => {},
                }
            }
        },
        Err(_) => {},
    }
}

/// The failure consists of nothing but the unterminated-block-comment
/// error: that error itself, or a union of such failures from several
/// branches.
pub open spec fn comment_close_only(e: ErrV) -> bool
    decreases e,
{
    match e {
        ErrV::ExpectedCommentClose => true,
        ErrV::Union(a, b) => comment_close_only(*a) && comment_close_only(*b),
        _ => false,
    }
}

pub proof fn lemma_class_comment_close(s: Seq<char>, pos: int)
    requires
        0 <= pos <= s.len(),
    ensures
        spec_class(s, pos) matches Err(g) ==> (comment_close_only(g.e) ==> g.lo == s.len()
            && g.hi == s.len() + 1),
{
}

pub proof fn lemma_color_hex_comment_close(s: Seq<char>, pos: int)
    requires
        0 <= pos <= s.len(),
    ensures
        spec_color_hex(s, pos) matches Err(g) ==> (comment_close_only(g.e) ==> g.lo == s.len()
            && g.hi == s.len() + 1),
{
}

pub proof fn lemma_color_name_comment_close(s: Seq<char>, pos: int)
    requires
        0 <= pos <= s.len(),
    ensures
        spec_color_name(s, pos) matches Err(g) ==> (comment_close_only(g.e) ==> g.lo == s.len()
            && g.hi == s.len() + 1),
{
}

pub proof fn lemma_modifier_comment_close(s: Seq<char>, pos: int)
    requires
        0 <= pos <= s.len(),
    ensures
        spec_modifier(s, pos) matches Err(g) ==> (comment_close_only(g.e) ==> g.lo == s.len()
            && g.hi == s.len() + 1),
{
}

pub proof fn lemma_color_comment_close(s: Seq<char>, pos: int)
    requires
        0 <= pos <= s.len(),
    ensures
        spec_color(s, pos) matches Err(g) ==> (comment_close_only(g.e) ==> g.lo == s.len()
            && g.hi == s.len() + 1),
{
    lemma_color_hex_comment_close(s, pos);
    lemma_color_name_comment_close(s, pos);
}

pub proof fn lemma_sel_classes_comment_close(s: Seq<char>, pos: int, acc: Seq<crate::store::GName>)
    requires
        0 <= pos <= s.len(),
    ensures
        spec_sel_classes(s, pos, acc) matches Err(g) ==> (comment_close_only(g.e) ==> g.lo
            == s.len() && g.hi == s.len() + 1),
    decreases s.len() - pos,
{
    lemma_spec_ws_bounds(s, pos);
    match spec_ws(s, pos) {
        Ok(p1) => {
            if p1 < s.len() && s[p1] == '{' {
            } else if p1 < s.len() && s[p1] == '.' {
                lemma_spec_class_bounds(s, p1);
                lemma_class_comment_close(s, p1);
                match spec_class(s, p1) {
                    Ok(g) => {
                        lemma_sel_classes_comment_close(
                            s,
                            g.next,
                            acc.push(crate::store::GName { v: g.v, lo: g.lo, hi: g.hi }),
                        );
                    },
                    Err(_) => {},
                }
            }
        },
        Err(_) => {},
    }
}

pub proof fn lemma_identifier_comment_close(s: Seq<char>, pos: int)
    requires
        0 <= pos <= s.len(),
    ensures
        spec_identifier(s, pos) matches Err(g) ==> (comment_close_only(g.e) ==> g.lo == s.len()
            && g.hi == s.len() + 1),
{
    lemma_spec_ws_bounds(s, pos);
    match spec_ws(s, pos) {
        Ok(p1) => {
            lemma_scan_ident_bounds(s, p1);
            lemma_sel_classes_comment_close(s, scan_ident(s, p1), Seq::empty());
        },
        Err(_) => {},
    }
}

pub proof fn lemma_style_value_comment_close(
    s: Seq<char>,
    pos: int,
    prop: Seq<char>,
    acc: Style,
    plo: int,
    phi: int,
)
    requires
        0 <= pos <= s.len(),
    ensures
        spec_style_value(s, pos, prop, acc, plo, phi) matches Err(g) ==> (comment_close_only(
            g.e,
        ) ==> g.lo == s.len() && g.hi == s.len() + 1),
{
    lemma_color_comment_close(s, pos);
    lemma_modifier_comment_close(s, pos);
}

pub proof fn lemma_style_body_comment_close(s: Seq<char>, pos: int, acc: Style)
    requires
        0 <= pos <= s.len(),
    ensures
        spec_style_body(s, pos, acc) matches Err(g) ==> (comment_close_only(g.e) ==> g.lo
            == s.len() && g.hi == s.len() + 1),
    decreases s.len() - pos,
{
    lemma_spec_ws_bounds(s, pos);
    match spec_ws(s, pos) {
        Ok(p1) => {
            if p1 < s.len() && s[p1] == '}' {
            } else {
                lemma_scan_ident_bounds(s, p1);
                let e = scan_ident(s, p1);
                if e != p1 {
                    let prop = s.subrange(p1, e);
                    lemma_spec_ws_bounds(s, e);
                    match spec_ws(s, e) {
                        Ok(p2) => {
                            if p2 < s.len() && s[p2] == ':' {
                                lemma_spec_ws_bounds(s, p2 + 1);
                                match spec_ws(s, p2 + 1) {
                                    Ok(p3) => {
                                        lemma_spec_style_value_bounds(s, p3, prop, acc, p1, e);
                                        lemma_style_value_comment_close(s, p3, prop, acc, p1, e);
                                        match spec_style_value(s, p3, prop, acc, p1, e) {
                                            Ok(g) => {
                                                lemma_spec_ws_bounds(s, g.1);
                                                match spec_ws(s, g.1) {
                                                    Ok(p5) => {
                                                        if p5 < s.len() && s[p5] == ';' {
                                                            lemma_style_body_comment_close(
                                                                s,
                                                                p5 + 1,
                                                                g.0,
                                                            );
                                                        }
                                                    },
                                                    Err(_) => {},
                                                }
                                            },
                                            Err(_) => {},
                                        }
                                    },
                                    Err(_) => {},
                                }
                            }
                        },
                        Err(_) => {},
                    }
                }
            }
        },
        Err(_) => {},
    }
}

pub proof fn lemma_style_comment_close(s: Seq<char>, pos: int)
    requires
        0 <= pos <= s.len(),
    ensures
        spec_style(s, pos) matches Err(g) ==> (comment_close_only(g.e) ==> g.lo == s.len()
            && g.hi == s.len() + 1),
{
    lemma_spec_ws_bounds(s, pos);
    match spec_ws(s, pos) {
        Ok(p1) => {
            if p1 < s.len() && s[p1] == '{' {
                lemma_style_body_comment_close(s, p1 + 1, default_style());
            }
        },
        Err(_) => {},
    }
}

/// Every failure of a whole-stylesheet parse that consists of the
/// unterminated-block-comment error carries the one-element span just past
/// the end of the input.
pub proof fn lemma_stylesheet_comment_close(s: Seq<char>, pos: int, acc: Seq<crate::store::GRule>)
    requires
        0 <= pos <= s.len(),
    ensures
        spec_stylesheet(s, pos, acc) matches Err(g) ==> (comment_close_only(g.e) ==> g.lo
            == s.len() && g.hi == s.len() + 1),
    decreases s.len() - pos,
{
    lemma_spec_ws_bounds(s, pos);
    match spec_ws(s, pos) {
        Ok(p1) => {
            if p1 < s.len() {
                lemma_spec_identifier_bounds(s, p1);
                lemma_identifier_comment_close(s, p1);
                match spec_identifier(s, p1) {
                    Ok(gid) => {
                        lemma_spec_ws_bounds(s, gid.next);
                        match spec_ws(s, gid.next) {
                            Ok(p2) => {
                                lemma_spec_style_bounds(s, p2);
                                lemma_style_comment_close(s, p2);
                                match spec_style(s, p2) {
                                    Ok(gst) => {
                                        lemma_stylesheet_comment_close(
                                            s,
                                            gst.next,
                                            acc.push(
                                                crate::store::GRule { sel: gid.v, style: gst.v },
                                            ),
                                        );
                                    },
                                    Err(_) => {},
                                }
                            },
                            Err(_) => {},
                        }
                    },
                    Err(_) => {},
                }
            }
        },
        Err(_) => {},
    }
}

/// Consume one expected character; any other character, or missing input,
/// is the failure, under the span of the offending position.  The cursor
/// advances past a present character even when it mismatches.
pub fn expect(parser: &mut ParserCursor<char>, expected: char) -> (r: SpannedResult<(), char>)
    requires
        old(parser).wf(),
    ensures
        final(parser).wf(),
        final(parser).input == old(parser).input,
        ({
            let s = old(parser).input@;
            let p = old(parser).pos as int;
            &&& (p < s.len() ==> final(parser).pos == p + 1 && (if s[p] == expected {
                r matches Ok(sp) && sp.span.start == p && sp.span.end == p + 1
            } else {
                r matches Err(sp) && sp.node == s[p] && sp.span.start == p && sp.span.end == p + 1
            }))
            &&& (p >= s.len() ==> final(parser).pos == p && (r matches Err(sp) && sp.node
                == expected && sp.span.start == p && sp.span.end == p + 1))
        }),
{
    match parser.next() {
        Some(e) => {
            if e.node == expected {
                Ok(Spanned::new((), e.span))
            } else {
                Err(Spanned::new(e.node, e.span))
            }
        },
        None => Err(Spanned::new(expected, parser.span())),
    }
}

/// A literal: the maximal run of alphanumeric, `_` or `-` characters.  An
/// empty run is the failure, under the zero-width span at the position.
pub fn literal(parser: &mut ParserCursor<char>) -> (r: SpannedResult<String, ()>)
    requires
        old(parser).wf(),
    ensures
        final(parser).wf(),
        final(parser).input == old(parser).input,
        ({
            let s = old(parser).input@;
            let p = old(parser).pos as int;
            let e = scan_ident(s, p);
            &&& p <= e <= s.len()
            &&& final(parser).pos == e
            &&& (e > p ==> (r matches Ok(sp) && sp.node@ == s.subrange(p, e) && sp.span.start == p
                && sp.span.end == e))
            &&& (e == p ==> (r matches Err(sp) && sp.span.start == p && sp.span.end == p))
        }),
{
    let ghost s = old(parser).input@;
    let ghost p = old(parser).pos as int;
    let f = |c: char, seen: &Vec<char>| -> (b: bool)
        ensures
            b == ident_char(c),
        { is_alphabetic(c) || is_digit(c) || c == '_' || c == '-' };
    let ghost gf = f;
    let k = parser.take_while(f);
    proof {
        let e = k.span.end as int;
        assert forall|i: int| p <= i < e implies ident_char(s[i]) by {
            assert(pred_outcome(gf, s, p, i, true));
            let v = choose|v: Vec<char>|
                v@ == s.subrange(p, i) && call_ensures(gf, (s[i], &v), true);
        }
        if e < s.len() {
            assert(pred_outcome(gf, s, p, e, false));
            let v = choose|v: Vec<char>|
                v@ == s.subrange(p, e) && call_ensures(gf, (s[e], &v), false);
        }
        lemma_scan_ident_run(s, p, e);
    }
    if k.node.len() == 0 {
        Err(Spanned::new((), k.span))
    } else {
        let string = chars_to_string(&k.node);
        Ok(Spanned::new(string, k.span))
    }
}

/// One comment attempt: `//` runs to the end of the line, `/* ... */` must be
/// terminated.  A `/` that opens no comment is `NotComment`; a block comment
/// that never closes is `Unterminated`, detected at the end of the input.
pub fn comment(parser: &mut ParserCursor<char>) -> (r: SpannedResult<(), CommentError>)
    requires
        old(parser).wf(),
    ensures
        final(parser).wf(),
        final(parser).input == old(parser).input,
        ({
            let s = old(parser).input@;
            let p = old(parser).pos as int;
            match spec_comment(s, p) {
                CommentOutcome::Found { next, lo, hi } => final(parser).pos == next && (r matches
                Ok(sp) && sp.span.start == lo && sp.span.end == hi),
                CommentOutcome::NotComment { next, lo, hi } => final(parser).pos == next && (
                r matches Err(sp) && sp.node == CommentError::NotComment && sp.span.start == lo
                    && sp.span.end == hi),
                CommentOutcome::Unterminated => final(parser).pos == s.len() && (r matches Err(sp)
                    && sp.node == CommentError::Unterminated && sp.span.start == s.len()
                    && sp.span.end == s.len() + 1),
            }
        }),
{
    let ghost s = old(parser).input@;
    let ghost p0 = old(parser).pos as int;
    match expect(parser, '/') {
        Ok(_) => {},
        Err(e) => {
            return Err(Spanned::new(CommentError::NotComment, e.span));
        },
    }
    match parser.next() {
        Some(c) => {
            if c.node == '/' {
                let f = |ch: char, seen: &Vec<char>| -> (b: bool)
                    ensures
                        b == (ch != '\n'),
                    { ch != '\n' };
                let ghost gf = f;
                let k = parser.take_while(f);
                proof {
                    let e = k.span.end as int;
                    assert forall|i: int| p0 + 2 <= i < e implies s[i] != '\n' by {
                        assert(pred_outcome(gf, s, p0 + 2, i, true));
                        let v = choose|v: Vec<char>|
                            v@ == s.subrange(p0 + 2, i) && call_ensures(gf, (s[i], &v), true);
                    }
                    if e < s.len() {
                        assert(pred_outcome(gf, s, p0 + 2, e, false));
                        let v = choose|v: Vec<char>|
                            v@ == s.subrange(p0 + 2, e) && call_ensures(gf, (s[e], &v), false);
                    }
                    lemma_scan_line_run(s, p0 + 2, e);
                }
            } else if c.node == '*' {
                loop
                    invariant_except_break
                        scan_block(s, p0 + 2) == scan_block(s, parser.pos as int),
                    invariant
                        parser.wf(),
                        parser.input == old(parser).input,
                        s == old(parser).input@,
                        p0 == old(parser).pos as int,
                        p0 + 2 <= parser.pos as int <= s.len(),
                        p0 + 2 <= s.len(),
                        s[p0] == '/',
                        s[p0 + 1] == '*',
                    ensures
                        parser.wf(),
                        parser.input == old(parser).input,
                        scan_block(s, p0 + 2) == Some(parser.pos as int),
                    decreases s.len() - parser.pos,
                {
                    let ghost q = parser.pos as int;
                    match parser.next() {
                        Some(c1) => {
                            if c1.node == '*' {
                                match parser.peek() {
                                    Some(c2) => {
                                        if c2.node == '/' {
                                            parser.advance(1);
                                            proof {
                                                assert(scan_block(s, q) == Some(q + 2));
                                            }
                                            break ;
                                        }
                                        proof {
                                            assert(scan_block(s, q) == scan_block(s, q + 1));
                                        }
                                    },
                                    None => {
                                        proof {
                                            assert(scan_block(s, q) == scan_block(s, q + 1));
                                        }
                                    },
                                }
                            } else {
                                proof {
                                    assert(scan_block(s, q) == scan_block(s, q + 1));
                                }
                            }
                        },
                        None => {
                            proof {
                                assert(scan_block(s, q) is None);
                            }
                            return Err(Spanned::new(CommentError::Unterminated, parser.span()));
                        },
                    }
                }
            } else {
                return Err(Spanned::new(CommentError::NotComment, c.span));
            }
        },
        None => {},
    }
    Ok(Spanned::new((), parser.span()))
}

/// A `.`-prefixed class literal, with whitespace allowed around the dot.
pub fn class(parser: &mut ParserCursor<char>) -> (r: SpannedResult<String, ParseError>)
    requires
        old(parser).wf(),
    ensures
        final(parser).wf(),
        final(parser).input == old(parser).input,
        ({
            let s = old(parser).input@;
            let p = old(parser).pos as int;
            match spec_class(s, p) {
                Ok(g) => final(parser).pos == g.next && (r matches Ok(sp) && sp.node@ == g.v
                    && sp.span.start == g.lo && sp.span.end == g.hi),
                Err(g) => final(parser).pos == g.next && (r matches Err(sp) && err_view(sp.node)
                    == g.e && sp.span.start == g.lo && sp.span.end == g.hi),
            }
        }),
{
    match consume_whitespace(parser) {
        Ok(_) => {},
        Err(e) => {
            return Err(e);
        },
    }
    match expect(parser, '.') {
        Ok(_) => {},
        Err(e) => {
            return Err(Spanned::new(ParseError::ExpectedClassDot(e.node), e.span));
        },
    }
    match consume_whitespace(parser) {
        Ok(_) => {},
        Err(e) => {
            return Err(e);
        },
    }
    match literal(parser) {
        Ok(sp) => Ok(sp),
        Err(e) => Err(Spanned::new(ParseError::ExpectedClassName, e.span)),
    }
}

/// An explicit hex color: `#` followed by exactly three or six hex digits;
/// the three-digit form expands each digit by doubling.
pub fn color_hex(parser: &mut ParserCursor<char>) -> (r: SpannedResult<Color, ParseError>)
    requires
        old(parser).wf(),
    ensures
        final(parser).wf(),
        final(parser).input == old(parser).input,
        ({
            let s = old(parser).input@;
            let p = old(parser).pos as int;
            match spec_color_hex(s, p) {
                Ok(g) => final(parser).pos == g.next && (r matches Ok(sp) && sp.node == g.v
                    && sp.span.start == g.lo && sp.span.end == g.hi),
                Err(g) => final(parser).pos == g.next && (r matches Err(sp) && err_view(sp.node)
                    == g.e && sp.span.start == g.lo && sp.span.end == g.hi),
            }
        }),
{
    match consume_whitespace(parser) {
        Ok(_) => {},
        Err(e) => {
            return Err(e);
        },
    }
    match expect(parser, '#') {
        Ok(_) => {},
        Err(e) => {
            return Err(Spanned::new(ParseError::ExpectedHashTag(e.node), e.span));
        },
    }
    match consume_whitespace(parser) {
        Ok(_) => {},
        Err(e) => {
            return Err(e);
        },
    }
    let lit = match literal(parser) {
        Ok(sp) => sp,
        Err(e) => {
            return Err(Spanned::new(ParseError::ExpectedHexString, e.span));
        },
    };
    let chars = crate::text::str_chars(lit.node.as_str());
    let digits: Vec<char>;
    if chars.len() == 3 {
        let mut d: Vec<char> = Vec::new();
        d.push(chars[0]);
        d.push(chars[0]);
        d.push(chars[1]);
        d.push(chars[1]);
        d.push(chars[2]);
        d.push(chars[2]);
        proof {
            assert(d@ =~= doubled(chars@));
        }
        digits = d;
    } else if chars.len() == 6 {
        digits = chars;
    } else {
        return Err(Spanned::new(ParseError::InvalidColorHex(lit.node), lit.span));
    }
    let h0 = hex_digit(digits[0]);
    let h1 = hex_digit(digits[1]);
    let h2 = hex_digit(digits[2]);
    let h3 = hex_digit(digits[3]);
    let h4 = hex_digit(digits[4]);
    let h5 = hex_digit(digits[5]);
    if h0 < 16 && h1 < 16 && h2 < 16 && h3 < 16 && h4 < 16 && h5 < 16 {
        Ok(
            Spanned::new(
                Color::Rgb(
                    (h0 * 16 + h1) as u8,
                    (h2 * 16 + h3) as u8,
                    (h4 * 16 + h5) as u8,
                ),
                lit.span,
            ),
        )
    } else {
        let text = chars_to_string(&digits);
        Err(Spanned::new(ParseError::InvalidHexType(text), lit.span))
    }
}

/// A named color from the fixed palette, `none` included.
pub fn color_name(parser: &mut ParserCursor<char>) -> (r: SpannedResult<Option<Color>, ParseError>)
    requires
        old(parser).wf(),
    ensures
        final(parser).wf(),
        final(parser).input == old(parser).input,
        ({
            let s = old(parser).input@;
            let p = old(parser).pos as int;
            match spec_color_name(s, p) {
                Ok(g) => final(parser).pos == g.next && (r matches Ok(sp) && sp.node == g.v
                    && sp.span.start == g.lo && sp.span.end == g.hi),
                Err(g) => final(parser).pos == g.next && (r matches Err(sp) && err_view(sp.node)
                    == g.e && sp.span.start == g.lo && sp.span.end == g.hi),
            }
        }),
{
    match consume_whitespace(parser) {
        Ok(_) => {},
        Err(e) => {
            return Err(e);
        },
    }
    let lit = match literal(parser) {
        Ok(sp) => sp,
        Err(e) => {
            return Err(Spanned::new(ParseError::ExpectedColorName, e.span));
        },
    };
    let n = lit.node.as_str();
    let c: Option<Color> = if crate::text::str_eq(n, "black") {
        Some(Color::Black)
    } else if crate::text::str_eq(n, "gray") {
        Some(Color::Gray)
    } else if crate::text::str_eq(n, "red") {
        Some(Color::Red)
    } else if crate::text::str_eq(n, "green") {
        Some(Color::Green)
    } else if crate::text::str_eq(n, "blue") {
        Some(Color::Blue)
    } else if crate::text::str_eq(n, "yellow") {
        Some(Color::Yellow)
    } else if crate::text::str_eq(n, "magenta") {
        Some(Color::Magenta)
    } else if crate::text::str_eq(n, "cyan") {
        Some(Color::Cyan)
    } else if crate::text::str_eq(n, "white") {
        Some(Color::White)
    } else if crate::text::str_eq(n, "transparent") || crate::text::str_eq(n, "reset") {
        Some(Color::Reset)
    } else if crate::text::str_eq(n, "light_red") || crate::text::str_eq(n, "lightred") {
        Some(Color::LightRed)
    } else if crate::text::str_eq(n, "light_green") || crate::text::str_eq(n, "lightgreen") {
        Some(Color::LightGreen)
    } else if crate::text::str_eq(n, "light_blue") || crate::text::str_eq(n, "lightblue") {
        Some(Color::LightBlue)
    } else if crate::text::str_eq(n, "light_yellow") || crate::text::str_eq(n, "lightyellow") {
        Some(Color::LightYellow)
    } else if crate::text::str_eq(n, "light_magenta") || crate::text::str_eq(n, "lightmagenta") {
        Some(Color::LightMagenta)
    } else if crate::text::str_eq(n, "light_cyan") || crate::text::str_eq(n, "lightcyan") {
        Some(Color::LightCyan)
    } else if crate::text::str_eq(n, "dark_gray") || crate::text::str_eq(n, "darkgray") {
        Some(Color::DarkGray)
    } else if crate::text::str_eq(n, "none") {
        return Ok(Spanned::new(None, lit.span));
    } else {
        return Err(Spanned::new(ParseError::InvalidColorName(lit.node), lit.span));
    };
    Ok(Spanned::new(c, lit.span))
}

/// A modifier name from the fixed vocabulary.
pub fn modifier(parser: &mut ParserCursor<char>) -> (r: SpannedResult<Modifier, ParseError>)
    requires
        old(parser).wf(),
    ensures
        final(parser).wf(),
        final(parser).input == old(parser).input,
        ({
            let s = old(parser).input@;
            let p = old(parser).pos as int;
            match spec_modifier(s, p) {
                Ok(g) => final(parser).pos == g.next && (r matches Ok(sp) && sp.node == g.v
                    && sp.span.start == g.lo && sp.span.end == g.hi),
                Err(g) => final(parser).pos == g.next && (r matches Err(sp) && err_view(sp.node)
                    == g.e && sp.span.start == g.lo && sp.span.end == g.hi),
            }
        }),
{
    match consume_whitespace(parser) {
        Ok(_) => {},
        Err(e) => {
            return Err(e);
        },
    }
    let lit = match literal(parser) {
        Ok(sp) => sp,
        Err(e) => {
            return Err(Spanned::new(ParseError::ExpectedModifier, e.span));
        },
    };
    let n = lit.node.as_str();
    let m: Modifier = if crate::text::str_eq(n, "bold") {
        Modifier::Bold
    } else if crate::text::str_eq(n, "dim") {
        Modifier::Dim
    } else if crate::text::str_eq(n, "italic") {
        Modifier::Italic
    } else if crate::text::str_eq(n, "underlined") {
        Modifier::Underlined
    } else if crate::text::str_eq(n, "slow_blink") {
        Modifier::SlowBlink
    } else if crate::text::str_eq(n, "rapid_blink") {
        Modifier::RapidBlink
    } else if crate::text::str_eq(n, "reversed") {
        Modifier::Reversed
    } else if crate::text::str_eq(n, "hidden") {
        Modifier::Hidden
    } else if crate::text::str_eq(n, "crossed_out") {
        Modifier::CrossedOut
    } else {
        return Err(Spanned::new(ParseError::InvalidModifier(lit.node), lit.span));
    };
    Ok(Spanned::new(m, lit.span))
}

/// A color value: the hex form, or, after rewinding, a palette name; when
/// both branches fail the union failure carries both errors under the span
/// covering both attempts.
pub fn color(parser: &mut ParserCursor<char>) -> (r: SpannedResult<Option<Color>, ParseError>)
    requires
        old(parser).wf(),
    ensures
        final(parser).wf(),
        final(parser).input == old(parser).input,
        ({
            let s = old(parser).input@;
            let p = old(parser).pos as int;
            match spec_color(s, p) {
                Ok(g) => final(parser).pos == g.next && (r matches Ok(sp) && sp.node == g.v
                    && sp.span.start == g.lo && sp.span.end == g.hi),
                Err(g) => final(parser).pos == g.next && (r matches Err(sp) && err_view(sp.node)
                    == g.e && sp.span.start == g.lo && sp.span.end == g.hi),
            }
        }),
{
    let saved = parser.position();
    match color_hex(parser) {
        Ok(sp) => Ok(Spanned::new(Some(sp.node), sp.span)),
        Err(e1) => {
            parser.set_position(saved);
            match color_name(parser) {
                Ok(sp) => Ok(sp),
                Err(e2) => {
                    let span = merge(&e1.span, &e2.span);
                    Err(
                        Spanned::new(
                            ParseError::Union(Box::new(e1.node), Box::new(e2.node)),
                            span,
                        ),
                    )
                },
            }
        },
    }
}

/// Try to skip one comment: `Ok(true)` when one was consumed, `Ok(false)`
/// (position restored) when no comment starts here, and the unterminated
/// block comment failure, anchored past the end of the input, otherwise.
pub fn skip_comment(parser: &mut ParserCursor<char>) -> (r: Result<bool, Spanned<ParseError>>)
    requires
        old(parser).wf(),
    ensures
        final(parser).wf(),
        final(parser).input == old(parser).input,
        ({
            let s = old(parser).input@;
            let p = old(parser).pos as int;
            match spec_comment(s, p) {
                CommentOutcome::Found { next, .. } => final(parser).pos == next && (r matches Ok(b)
                    && b == true),
                CommentOutcome::NotComment { .. } => final(parser).pos == p && (r matches Ok(b) && b
                    == false),
                CommentOutcome::Unterminated => final(parser).pos == p && (r matches Err(sp)
                    && sp.node matches ParseError::ExpectedCommentClose && sp.span.start == s.len()
                    && sp.span.end == s.len() + 1),
            }
        }),
{
    let saved = parser.position();
    match comment(parser) {
        Ok(_) => Ok(true),
        Err(e) => {
            parser.set_position(saved);
            match e.node {
                CommentError::NotComment => Ok(false),
                CommentError::Unterminated => Err(
                    Spanned::new(ParseError::ExpectedCommentClose, e.span),
                ),
            }
        },
    }
}

/// Skip whitespace runs interleaved with comments.  The only failure is a
/// block comment that never closes.
pub fn consume_whitespace(parser: &mut ParserCursor<char>) -> (r: Result<(), Spanned<ParseError>>)
    requires
        old(parser).wf(),
    ensures
        final(parser).wf(),
        final(parser).input == old(parser).input,
        ({
            let s = old(parser).input@;
            let p = old(parser).pos as int;
            match spec_ws(s, p) {
                Ok(next) => p <= next <= s.len() && final(parser).pos == next && r is Ok,
                Err(w) => p <= w <= s.len() && final(parser).pos == w && (r matches Err(sp)
                    && sp.node matches ParseError::ExpectedCommentClose && sp.span.start == s.len()
                    && sp.span.end == s.len() + 1),
            }
        }),
{
    let ghost s = old(parser).input@;
    let ghost p = old(parser).pos as int;
    proof {
        lemma_spec_ws_bounds(s, p);
    }
    loop
        invariant
            parser.wf(),
            parser.input == old(parser).input,
            s == old(parser).input@,
            p == old(parser).pos as int,
            0 <= p <= s.len(),
            (spec_ws(s, p) matches Ok(n) ==> p <= n <= s.len()),
            (spec_ws(s, p) matches Err(w) ==> p <= w <= s.len()),
            0 <= parser.pos as int <= s.len(),
            spec_ws(s, p) == spec_ws(s, parser.pos as int),
        ensures
            parser.wf(),
            parser.input == old(parser).input,
            (spec_ws(s, p) matches Ok(next) && next == parser.pos as int),
        decreases s.len() - parser.pos,
    {
        let ghost q = parser.pos as int;
        let f = |c: char, seen: &Vec<char>| -> (b: bool)
            ensures
                b == char_whitespace(c),
            { is_whitespace(c) };
        let ghost gf = f;
        let k = parser.take_while(f);
        proof {
            let e = k.span.end as int;
            assert forall|i: int| q <= i < e implies char_whitespace(s[i]) by {
                assert(pred_outcome(gf, s, q, i, true));
                let v = choose|v: Vec<char>|
                    v@ == s.subrange(q, i) && call_ensures(gf, (s[i], &v), true);
            }
            if e < s.len() {
                assert(pred_outcome(gf, s, q, e, false));
                let v = choose|v: Vec<char>|
                    v@ == s.subrange(q, e) && call_ensures(gf, (s[e], &v), false);
            }
            lemma_scan_ws_run(s, q, e);
        }
        let ghost w = parser.pos as int;
        match skip_comment(parser) {
            Ok(true) => {
                proof {
                    lemma_spec_comment_bounds(s, w);
                    assert(spec_ws(s, q) == spec_ws(s, parser.pos as int));
                }
            },
            Ok(false) => {
                proof {
                    assert(spec_ws(s, q) == Ok::<int, int>(w));
                }
                break ;
            },
            Err(e) => {
                proof {
                    assert(spec_ws(s, q) == Err::<int, int>(w));
                }
                return Err(e);
            },
        }
    }
    Ok(())
}

/// A selector: an optional element literal followed by zero or more
/// `.`-prefixed classes, ending before `{` or at the first character that
/// starts neither a class nor a rule body.
pub fn parse_identifier(parser: &mut ParserCursor<char>) -> (r: SpannedResult<
    Identifier,
    ParseError,
>)
    requires
        old(parser).wf(),
    ensures
        final(parser).wf(),
        final(parser).input == old(parser).input,
        ({
            let s = old(parser).input@;
            let p = old(parser).pos as int;
            match spec_identifier(s, p) {
                Ok(g) => final(parser).pos == g.next && (r matches Ok(sp) && sp.node@ == g.v
                    && sp.span.start == g.lo && sp.span.end == g.hi),
                Err(g) => final(parser).pos == g.next && (r matches Err(sp) && err_view(sp.node)
                    == g.e && sp.span.start == g.lo && sp.span.end == g.hi),
            }
        }),
{
    let ghost s = old(parser).input@;
    let ghost p0 = old(parser).pos as int;
    match consume_whitespace(parser) {
        Ok(_) => {},
        Err(e) => {
            return Err(e);
        },
    }
    let start = parser.position();
    let ghost p1 = start as int;
    let element: Option<Spanned<String>> = match literal(parser) {
        Ok(sp) => Some(sp),
        Err(_) => None,
    };
    let ghost e0 = parser.pos as int;
    let mut classes: Vec<Spanned<String>> = Vec::new();
    proof {
        assert(names_view(classes@) =~= Seq::<GName>::empty());
    }
    loop
        invariant_except_break
            spec_sel_classes(s, e0, Seq::empty()) == spec_sel_classes(
                s,
                parser.pos as int,
                names_view(classes@),
            ),
        invariant
            parser.wf(),
            parser.input == old(parser).input,
            s == old(parser).input@,
            p0 == old(parser).pos as int,
            0 <= p0 <= s.len(),
            spec_ws(s, p0) == Ok::<int, int>(p1),
            0 <= p1 <= s.len(),
            e0 == scan_ident(s, p1),
            0 <= e0 <= s.len(),
            0 <= parser.pos as int <= s.len(),
        ensures
            parser.wf(),
            parser.input == old(parser).input,
            (spec_sel_classes(s, e0, Seq::empty()) matches Ok(g) && g.0 == names_view(classes@)
                && g.1 == parser.pos as int),
        decreases s.len() - parser.pos,
    {
        let ghost q = parser.pos as int;
        let ghost accv = names_view(classes@);
        match consume_whitespace(parser) {
            Ok(_) => {},
            Err(e) => {
                proof {
                    assert(spec_sel_classes(s, q, accv) is Err);
                }
                return Err(e);
            },
        }
        let stop: bool = match parser.peek() {
            Some(c) => {
                if c.node == '{' {
                    true
                } else {
                    c.node != '.'
                }
            },
            None => { true },
        };
        if stop {
            break ;
        }
        proof {
            lemma_spec_class_bounds(s, parser.pos as int);
        }
        match class(parser) {
            Ok(sp) => {
                let ghost oldcl = classes@;
                let ghost gname = name_view(sp);
                classes.push(sp);
                proof {
                    assert(names_view(classes@) =~= names_view(oldcl).push(gname));
                }
            },
            Err(e) => {
                return Err(e);
            },
        }
    }
    let endpos = parser.position();
    Ok(Spanned::new(Identifier { element, classes }, Span { start, end: endpos }))
}

/// A rule body: `{`, then `property ':' value` entries separated by `;`
/// (the separator optional before the closing brace), then `}`.  The
/// recognized properties are `bg`, `fg`, `add-modifier` and
/// `remove-modifier`; anything else is the invalid-property failure under
/// the property literal's span.
pub fn parse_style(parser: &mut ParserCursor<char>) -> (r: SpannedResult<Style, ParseError>)
    requires
        old(parser).wf(),
    ensures
        final(parser).wf(),
        final(parser).input == old(parser).input,
        ({
            let s = old(parser).input@;
            let p = old(parser).pos as int;
            match spec_style(s, p) {
                Ok(g) => final(parser).pos == g.next && (r matches Ok(sp) && sp.node == g.v
                    && sp.span.start == g.lo && sp.span.end == g.hi),
                Err(g) => final(parser).pos == g.next && (r matches Err(sp) && err_view(sp.node)
                    == g.e && sp.span.start == g.lo && sp.span.end == g.hi),
            }
        }),
{
    let ghost s = old(parser).input@;
    let ghost p0 = old(parser).pos as int;
    match consume_whitespace(parser) {
        Ok(_) => {},
        Err(e) => {
            return Err(e);
        },
    }
    let start = parser.position();
    let ghost gstart = start as int;
    match expect(parser, '{') {
        Ok(_) => {},
        Err(e) => {
            return Err(Spanned::new(ParseError::ExpectedBracketOpen(e.node), e.span));
        },
    }
    let mut style = Style::default();
    loop
        invariant_except_break
            spec_style_body(s, gstart + 1, default_style()) == spec_style_body(
                s,
                parser.pos as int,
                style,
            ),
        invariant
            parser.wf(),
            parser.input == old(parser).input,
            s == old(parser).input@,
            p0 == old(parser).pos as int,
            0 <= p0 <= s.len(),
            spec_ws(s, p0) == Ok::<int, int>(gstart),
            0 <= gstart < s.len(),
            s[gstart] == '{',
            0 <= parser.pos as int <= s.len(),
        ensures
            parser.wf(),
            parser.input == old(parser).input,
            (spec_style_body(s, gstart + 1, default_style()) matches Ok(g) && g.0 == style && g.1
                == parser.pos as int),
        decreases s.len() - parser.pos,
    {
        let ghost q = parser.pos as int;
        let ghost acc0 = style;
        match consume_whitespace(parser) {
            Ok(_) => {},
            Err(e) => {
                return Err(e);
            },
        }
        let ghost w1 = parser.pos as int;
        let closing: bool = match parser.peek() {
            Some(c) => c.node == '}',
            None => false,
        };
        if closing {
            parser.advance(1);
            break ;
        }
        let prop = match literal(parser) {
            Ok(sp) => sp,
            Err(e) => {
                return Err(Spanned::new(ParseError::ExpectedClassName, e.span));
            },
        };
        match consume_whitespace(parser) {
            Ok(_) => {},
            Err(e) => {
                return Err(e);
            },
        }
        match expect(parser, ':') {
            Ok(_) => {},
            Err(e) => {
                return Err(Spanned::new(ParseError::ExpectedAssignment(e.node), e.span));
            },
        }
        match consume_whitespace(parser) {
            Ok(_) => {},
            Err(e) => {
                return Err(e);
            },
        }
        let ghost p3 = parser.pos as int;
        if str_eq(prop.node.as_str(), "bg") {
            proof {
                lemma_spec_color_bounds(s, p3);
            }
            match color(parser) {
                Ok(sp) => {
                    style.bg = sp.node;
                },
                Err(e) => {
                    return Err(e);
                },
            }
        } else if str_eq(prop.node.as_str(), "fg") {
            proof {
                lemma_spec_color_bounds(s, p3);
            }
            match color(parser) {
                Ok(sp) => {
                    style.fg = sp.node;
                },
                Err(e) => {
                    return Err(e);
                },
            }
        } else if str_eq(prop.node.as_str(), "add-modifier") {
            proof {
                lemma_spec_modifier_bounds(s, p3);
            }
            match modifier(parser) {
                Ok(sp) => {
                    style = style.add_modifier(sp.node);
                },
                Err(e) => {
                    return Err(e);
                },
            }
        } else if str_eq(prop.node.as_str(), "remove-modifier") {
            proof {
                lemma_spec_modifier_bounds(s, p3);
            }
            match modifier(parser) {
                Ok(sp) => {
                    style = style.remove_modifier(sp.node);
                },
                Err(e) => {
                    return Err(e);
                },
            }
        } else {
            return Err(Spanned::new(ParseError::InvalidProperty(prop.node), prop.span));
        }
        match consume_whitespace(parser) {
            Ok(_) => {},
            Err(e) => {
                return Err(e);
            },
        }
        match parser.peek() {
            Some(c) => {
                if c.node == ';' {
                    parser.advance(1);
                } else if c.node == '}' {
                    parser.advance(1);
                    break ;
                } else {
                    return Err(Spanned::new(ParseError::ExpectedSemicolon, parser.span()));
                }
            },
            None => {
                return Err(Spanned::new(ParseError::ExpectedBracketClose(' '), parser.span()));
            },
        }
    }
    let endpos = parser.position();
    Ok(Spanned::new(style, Span { start, end: endpos }))
}

/// A whole stylesheet: selector and rule body pairs, separated and
/// surrounded by whitespace and comments, until the end of the input.  Any
/// failure aborts the entire parse; there is no recovery and no partial
/// stylesheet.
pub fn parse_stylesheet(parser: &mut ParserCursor<char>) -> (r: SpannedResult<
    Stylesheet,
    ParseError,
>)
    requires
        old(parser).wf(),
    ensures
        final(parser).wf(),
        final(parser).input == old(parser).input,
        ({
            let s = old(parser).input@;
            let p = old(parser).pos as int;
            match spec_stylesheet(s, p, Seq::empty()) {
                Ok(g) => final(parser).pos == g.1 && (r matches Ok(sp) && sp.node@ == g.0
                    && sp.span.start == g.1 && sp.span.end == g.1 + 1),
                Err(g) => final(parser).pos == g.next && (r matches Err(sp) && err_view(sp.node)
                    == g.e && sp.span.start == g.lo && sp.span.end == g.hi),
            }
        }),
{
    let ghost s = old(parser).input@;
    let ghost p0 = old(parser).pos as int;
    let mut rules: Vec<(Identifier, Style)> = Vec::new();
    proof {
        assert(rules_view(rules@) =~= Seq::<GRule>::empty());
    }
    loop
        invariant_except_break
            spec_stylesheet(s, p0, Seq::empty()) == spec_stylesheet(
                s,
                parser.pos as int,
                rules_view(rules@),
            ),
        invariant
            parser.wf(),
            parser.input == old(parser).input,
            s == old(parser).input@,
            p0 == old(parser).pos as int,
            0 <= p0 <= s.len(),
            0 <= parser.pos as int <= s.len(),
        ensures
            parser.wf(),
            parser.input == old(parser).input,
            (spec_stylesheet(s, p0, Seq::empty()) matches Ok(g) && g.0 == rules_view(rules@) && g.1
                == parser.pos as int),
        decreases s.len() - parser.pos,
    {
        let ghost q = parser.pos as int;
        match consume_whitespace(parser) {
            Ok(_) => {},
            Err(e) => {
                return Err(e);
            },
        }
        if parser.is_eof() {
            break ;
        }
        let ghost w1 = parser.pos as int;
        proof {
            lemma_spec_identifier_bounds(s, w1);
        }
        let identifier = match parse_identifier(parser) {
            Ok(sp) => sp,
            Err(e) => {
                return Err(e);
            },
        };
        match consume_whitespace(parser) {
            Ok(_) => {},
            Err(e) => {
                return Err(e);
            },
        }
        let ghost p2 = parser.pos as int;
        proof {
            lemma_spec_style_bounds(s, p2);
        }
        let style = match parse_style(parser) {
            Ok(sp) => sp,
            Err(e) => {
                return Err(e);
            },
        };
        let ghost oldr = rules@;
        let ghost gid = identifier.node@;
        let ghost gst = style.node;
        rules.push((identifier.node, style.node));
        proof {
            assert(rules_view(rules@) =~= rules_view(oldr).push(GRule { sel: gid, style: gst }));
        }
    }
    let sheet_span = parser.span();
    Ok(Spanned::new(Stylesheet { rules }, sheet_span))
}

} // verus!
