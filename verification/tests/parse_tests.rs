use cssparser::{
    class, color, color_hex, color_name, comment, consume_whitespace, literal, modifier, parse,
    parse_identifier, parse_style, parse_stylesheet, Color, CommentError, Modifier, ParseError,
    ParserCursor,
};

fn cursor(src: &str) -> ParserCursor<char> {
    ParserCursor::new(src.chars().filter(|c| *c != '\r').collect())
}

#[test]
fn hex_three_digits_expand_by_doubling() {
    let mut c = cursor("#f0a");
    let got = color_hex(&mut c).unwrap();
    assert_eq!(got.node, Color::Rgb(0xff, 0x00, 0xaa));
}

#[test]
fn hex_six_digits_parse_directly() {
    let mut c = cursor("#12ab3C");
    let got = color_hex(&mut c).unwrap();
    assert_eq!(got.node, Color::Rgb(0x12, 0xab, 0x3c));
}

#[test]
fn hex_wrong_digit_count_is_invalid_color_hex() {
    let mut c = cursor("#abcd");
    let err = color_hex(&mut c).unwrap_err();
    match err.node {
        ParseError::InvalidColorHex(text) => assert_eq!(text, "abcd"),
        other => panic!("wrong error: {:?}", other),
    }
}

#[test]
fn hex_bad_digit_is_invalid_hex_type() {
    let mut c = cursor("#zzz");
    let err = color_hex(&mut c).unwrap_err();
    match err.node {
        // The three-digit form is expanded before the digits are read.
        ParseError::InvalidHexType(text) => assert_eq!(text, "zzzzzz"),
        other => panic!("wrong error: {:?}", other),
    }
}

#[test]
fn hex_missing_hash_is_expected_hashtag() {
    let mut c = cursor("red");
    let err = color_hex(&mut c).unwrap_err();
    assert!(matches!(err.node, ParseError::ExpectedHashTag('r')));
}

#[test]
fn hex_empty_after_hash_is_expected_hex_string() {
    let mut c = cursor("#;");
    let err = color_hex(&mut c).unwrap_err();
    assert!(matches!(err.node, ParseError::ExpectedHexString));
}

#[test]
fn color_names_cover_the_palette() {
    let table: &[(&str, Color)] = &[
        ("black", Color::Black),
        ("gray", Color::Gray),
        ("red", Color::Red),
        ("green", Color::Green),
        ("blue", Color::Blue),
        ("yellow", Color::Yellow),
        ("magenta", Color::Magenta),
        ("cyan", Color::Cyan),
        ("white", Color::White),
        ("transparent", Color::Reset),
        ("reset", Color::Reset),
        ("light_red", Color::LightRed),
        ("lightred", Color::LightRed),
        ("light_green", Color::LightGreen),
        ("lightgreen", Color::LightGreen),
        ("light_blue", Color::LightBlue),
        ("lightblue", Color::LightBlue),
        ("light_yellow", Color::LightYellow),
        ("lightyellow", Color::LightYellow),
        ("light_magenta", Color::LightMagenta),
        ("lightmagenta", Color::LightMagenta),
        ("light_cyan", Color::LightCyan),
        ("lightcyan", Color::LightCyan),
        ("dark_gray", Color::DarkGray),
        ("darkgray", Color::DarkGray),
    ];
    for (name, expected) in table {
        let mut c = cursor(name);
        let got = color_name(&mut c).unwrap();
        assert_eq!(got.node, Some(*expected), "palette entry {}", name);
    }
}

#[test]
fn color_name_none_is_explicitly_unset() {
    let mut c = cursor("none");
    let got = color_name(&mut c).unwrap();
    assert_eq!(got.node, None);
}

#[test]
fn unknown_color_name_is_invalid_color_name() {
    let mut c = cursor("reds");
    let err = color_name(&mut c).unwrap_err();
    match err.node {
        ParseError::InvalidColorName(text) => assert_eq!(text, "reds"),
        other => panic!("wrong error: {:?}", other),
    }
}

#[test]
fn missing_color_name_is_expected_color_name() {
    let mut c = cursor("");
    let err = color_name(&mut c).unwrap_err();
    assert!(matches!(err.node, ParseError::ExpectedColorName));
}

#[test]
fn color_falls_back_from_hex_to_name() {
    let mut c = cursor("cyan");
    let got = color(&mut c).unwrap();
    assert_eq!(got.node, Some(Color::Cyan));
}

#[test]
fn color_failure_unions_both_branches() {
    let mut c = cursor("123zz");
    let err = color(&mut c).unwrap_err();
    match err.node {
        ParseError::Union(first, second) => {
            assert!(matches!(*first, ParseError::ExpectedHashTag('1')));
            assert!(matches!(*second, ParseError::InvalidColorName(_)));
        },
        other => panic!("wrong error: {:?}", other),
    }
}

#[test]
fn modifiers_cover_the_vocabulary() {
    let table: &[(&str, Modifier)] = &[
        ("bold", Modifier::Bold),
        ("dim", Modifier::Dim),
        ("italic", Modifier::Italic),
        ("underlined", Modifier::Underlined),
        ("slow_blink", Modifier::SlowBlink),
        ("rapid_blink", Modifier::RapidBlink),
        ("reversed", Modifier::Reversed),
        ("hidden", Modifier::Hidden),
        ("crossed_out", Modifier::CrossedOut),
    ];
    for (name, expected) in table {
        let mut c = cursor(name);
        let got = modifier(&mut c).unwrap();
        assert_eq!(got.node, *expected, "modifier {}", name);
    }
}

#[test]
fn unknown_modifier_is_invalid_modifier() {
    let mut c = cursor("blink");
    let err = modifier(&mut c).unwrap_err();
    match err.node {
        ParseError::InvalidModifier(text) => assert_eq!(text, "blink"),
        other => panic!("wrong error: {:?}", other),
    }
}

#[test]
fn missing_modifier_is_expected_modifier() {
    let mut c = cursor("{");
    let err = modifier(&mut c).unwrap_err();
    assert!(matches!(err.node, ParseError::ExpectedModifier));
}

#[test]
fn literal_takes_maximal_ident_run() {
    let mut c = cursor("abc-d_1 rest");
    let got = literal(&mut c).unwrap();
    assert_eq!(got.node, "abc-d_1");
    assert_eq!(got.span.start, 0);
    assert_eq!(got.span.end, 7);
    assert_eq!(c.position(), 7);
}

#[test]
fn empty_literal_fails_without_consuming() {
    let mut c = cursor("{x");
    assert!(literal(&mut c).is_err());
    assert_eq!(c.position(), 0);
}

#[test]
fn class_parses_dot_prefixed_literal() {
    let mut c = cursor(" . selected rest");
    let got = class(&mut c).unwrap();
    assert_eq!(got.node, "selected");
}

#[test]
fn class_without_dot_is_expected_class_dot() {
    let mut c = cursor("x");
    let err = class(&mut c).unwrap_err();
    assert!(matches!(err.node, ParseError::ExpectedClassDot('x')));
}

#[test]
fn class_without_name_is_expected_class_name() {
    let mut c = cursor(". {");
    let err = class(&mut c).unwrap_err();
    assert!(matches!(err.node, ParseError::ExpectedClassName));
}

#[test]
fn line_comments_and_block_comments_are_skipped() {
    let mut c = cursor("  // note\n  /* block */  x");
    assert!(consume_whitespace(&mut c).is_ok());
    let got = c.peek().unwrap();
    assert_eq!(got.node, 'x');
}

#[test]
fn unterminated_block_comment_fails_at_end_of_input() {
    let src = "  /* never closed";
    let mut c = cursor(src);
    let err = consume_whitespace(&mut c).unwrap_err();
    assert!(matches!(err.node, ParseError::ExpectedCommentClose));
    assert_eq!(err.span.start, src.chars().count());
    assert_eq!(err.span.end, src.chars().count() + 1);
}

#[test]
fn unterminated_comment_rejects_the_whole_file() {
    let src = "a { fg: red; }\n/* oops";
    let err = parse(src).unwrap_err();
    assert!(matches!(err.node, ParseError::ExpectedCommentClose));
    assert!(err.span.start >= src.chars().count());
}

#[test]
fn block_comment_closes_at_first_terminator() {
    // Extra stars before the closing slash still terminate the comment.
    let mut c = cursor("/* **/x");
    assert!(comment(&mut c).is_ok());
    assert_eq!(c.peek().unwrap().node, 'x');
    let mut c = cursor("/***/y");
    assert!(comment(&mut c).is_ok());
    assert_eq!(c.peek().unwrap().node, 'y');
    // The first `*/` ends the comment; what follows is ordinary input.
    let mut c = cursor("/* a */ b */");
    assert!(comment(&mut c).is_ok());
    assert_eq!(c.position(), 7);
    // A sheet whose comments lean on these shapes parses fully.
    let mut store = cssparser::StylesheetStore::new();
    assert!(cssparser::add_stylesheet(&mut store, "/***/ a { fg: red; } /* **/").is_ok());
}

#[test]
fn lone_slash_at_end_of_input_counts_as_comment() {
    let mut c = cursor("/");
    assert!(comment(&mut c).is_ok());
    assert!(c.is_eof());
}

#[test]
fn slash_before_other_text_is_not_a_comment() {
    let mut c = cursor("/x");
    let err = comment(&mut c).unwrap_err();
    assert_eq!(err.node, CommentError::NotComment);
}

#[test]
fn identifier_with_element_and_classes() {
    let mut c = cursor("playlist-item .selected . downloading {");
    let got = parse_identifier(&mut c).unwrap();
    let id = got.node;
    assert_eq!(id.element.unwrap().node, "playlist-item");
    let names: Vec<String> = id.classes.into_iter().map(|sp| sp.node).collect();
    assert_eq!(names, vec!["selected".to_string(), "downloading".to_string()]);
}

#[test]
fn identifier_may_be_empty() {
    let mut c = cursor("{");
    let got = parse_identifier(&mut c).unwrap();
    assert!(got.node.element.is_none());
    assert!(got.node.classes.is_empty());
}

#[test]
fn style_body_allows_trailing_entry_without_semicolon() {
    let mut c = cursor("{ fg: red; bg: #010203 }");
    let got = parse_style(&mut c).unwrap();
    assert_eq!(got.node.fg, Some(Color::Red));
    assert_eq!(got.node.bg, Some(Color::Rgb(0x01, 0x02, 0x03)));
}

#[test]
fn missing_semicolon_is_expected_semicolon() {
    let mut c = cursor("{ fg: red bg: blue; }");
    let err = parse_style(&mut c).unwrap_err();
    assert!(matches!(err.node, ParseError::ExpectedSemicolon));
}

#[test]
fn missing_colon_is_expected_assignment() {
    let mut c = cursor("{ fg red; }");
    let err = parse_style(&mut c).unwrap_err();
    assert!(matches!(err.node, ParseError::ExpectedAssignment('r')));
}

#[test]
fn unclosed_body_is_expected_bracket_close() {
    let mut c = cursor("{ fg: red");
    let err = parse_style(&mut c).unwrap_err();
    assert!(matches!(err.node, ParseError::ExpectedBracketClose(' ')));
}

#[test]
fn missing_open_brace_is_expected_bracket_open() {
    let mut c = cursor("x");
    let err = parse_style(&mut c).unwrap_err();
    assert!(matches!(err.node, ParseError::ExpectedBracketOpen('x')));
}

#[test]
fn invalid_property_error_carries_the_text() {
    let mut c = cursor("{ colour: red; }");
    let err = parse_style(&mut c).unwrap_err();
    match err.node {
        ParseError::InvalidProperty(text) => assert_eq!(text, "colour"),
        other => panic!("wrong error: {:?}", other),
    }
}

#[test]
fn stylesheet_parses_multiple_rules_in_order() {
    let mut c = cursor("a { fg: red; }\n.x { bg: blue; }\n");
    let got = parse_stylesheet(&mut c).unwrap();
    assert_eq!(got.node.rules.len(), 2);
    assert_eq!(got.node.rules[0].0.element.as_ref().unwrap().node, "a");
    assert_eq!(got.node.rules[0].1.fg, Some(Color::Red));
    assert_eq!(got.node.rules[1].0.classes[0].node, "x");
    assert_eq!(got.node.rules[1].1.bg, Some(Color::Blue));
}

#[test]
fn empty_source_is_an_empty_stylesheet() {
    let sheet = parse("   // only a comment\n").unwrap();
    assert!(sheet.rules.is_empty());
}

#[test]
fn parse_failure_reports_span_of_offending_text() {
    let src = "a { colour: red; }";
    let err = parse(src).unwrap_err();
    // The span points at the property literal `colour`.
    assert_eq!(err.span.start, 4);
    assert_eq!(err.span.end, 10);
}

#[test]
fn unicode_letters_and_whitespace_are_honored() {
    let mut c = cursor("\u{e9}lan\u{a0}rest");
    let got = literal(&mut c).unwrap();
    assert_eq!(got.node, "\u{e9}lan");
    let mut c = cursor("\u{a0}\u{2003}\t x");
    assert!(consume_whitespace(&mut c).is_ok());
    assert_eq!(c.peek().unwrap().node, 'x');
}

#[test]
fn unterminated_comment_before_value_spans_end() {
    // The whitespace pass before the value runs into the comment; the whole
    // file is rejected with the end-of-input failure.
    let src = "a { fg: /* open";
    let err = parse(src).unwrap_err();
    assert!(matches!(err.node, ParseError::ExpectedCommentClose));
    assert_eq!(err.span.start, src.chars().count());
    assert_eq!(err.span.end, src.chars().count() + 1);
}

#[test]
fn unterminated_comment_in_both_color_branches_unions_and_spans_end() {
    // Entered at the comment itself, both color branches fail the same way;
    // the union failure still points just past the true end of the input.
    let src = "/* open";
    let mut c = cursor(src);
    let err = color(&mut c).unwrap_err();
    match err.node {
        ParseError::Union(first, second) => {
            assert!(matches!(*first, ParseError::ExpectedCommentClose));
            assert!(matches!(*second, ParseError::ExpectedCommentClose));
        },
        other => panic!("wrong error: {:?}", other),
    }
    assert_eq!(err.span.start, src.chars().count());
    assert_eq!(err.span.end, src.chars().count() + 1);
}

#[test]
fn shortest_block_comment_and_opener_star_reuse() {
    let mut c = cursor("/**/z");
    assert!(comment(&mut c).is_ok());
    assert_eq!(c.peek().unwrap().node, 'z');
    // The opener's `*` cannot double as the closer's star.
    let mut c = cursor("/*/");
    assert_eq!(comment(&mut c).unwrap_err().node, CommentError::Unterminated);
}
