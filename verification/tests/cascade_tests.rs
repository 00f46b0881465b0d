use cssparser::{add_stylesheet, get_style, Color, Style, StylesheetStore};

fn classes(names: &[&str]) -> Vec<String> {
    names.iter().map(|s| s.to_string()).collect()
}

#[test]
fn end_to_end_two_rules() {
    let mut store = StylesheetStore::new();
    let src = ".selected.downloading { fg: #ffaa00; add-modifier: bold; }\n\
               playlist-item { bg: #000000; }\n";
    assert!(add_stylesheet(&mut store, src).is_ok());
    let style = get_style(&store, "playlist-item", &classes(&["selected", "downloading"]));
    assert_eq!(style.bg, Some(Color::Rgb(0x00, 0x00, 0x00)));
    assert_eq!(style.fg, Some(Color::Rgb(0xff, 0xaa, 0x00)));
    assert_eq!(style.add_modifiers, 0x1);
    assert_eq!(style.sub_modifiers, 0);
}

#[test]
fn hex_only_rule_resolves_to_exactly_those_components() {
    let mut store = StylesheetStore::new();
    assert!(add_stylesheet(&mut store, "a { fg: #102030; bg: #405060; }").is_ok());
    let style = get_style(&store, "a", &classes(&[]));
    assert_eq!(
        style,
        Style {
            fg: Some(Color::Rgb(0x10, 0x20, 0x30)),
            bg: Some(Color::Rgb(0x40, 0x50, 0x60)),
            add_modifiers: 0,
            sub_modifiers: 0,
        }
    );
}

#[test]
fn class_match_is_order_independent_superset() {
    let mut store = StylesheetStore::new();
    assert!(add_stylesheet(&mut store, ".a.b { fg: red; }").is_ok());
    let style = get_style(&store, "whatever", &classes(&["b", "a", "c"]));
    assert_eq!(style.fg, Some(Color::Red));
    // A query missing one of the selector's classes does not match.
    let style = get_style(&store, "whatever", &classes(&["b", "c"]));
    assert_eq!(style.fg, None);
}

#[test]
fn later_fg_overrides_earlier_bg_retained() {
    let mut store = StylesheetStore::new();
    let src = "item { fg: #111111; bg: #222222; }\n\
               item { fg: #333333; }\n";
    assert!(add_stylesheet(&mut store, src).is_ok());
    let style = get_style(&store, "item", &classes(&[]));
    assert_eq!(style.fg, Some(Color::Rgb(0x33, 0x33, 0x33)));
    assert_eq!(style.bg, Some(Color::Rgb(0x22, 0x22, 0x22)));
}

#[test]
fn invalid_property_rejects_file_but_keeps_earlier_sheets() {
    let mut store = StylesheetStore::new();
    assert!(add_stylesheet(&mut store, "a { bg: red; }").is_ok());
    let result = add_stylesheet(&mut store, "b { colour: red; }");
    let err = result.unwrap_err();
    match err.node {
        cssparser::ParseError::InvalidProperty(name) => assert_eq!(name, "colour"),
        other => panic!("wrong error: {:?}", other),
    }
    assert_eq!(store.sheets.len(), 1);
    let style = get_style(&store, "a", &classes(&[]));
    assert_eq!(style.bg, Some(Color::Red));
    let style = get_style(&store, "b", &classes(&[]));
    assert_eq!(style, Style::default());
}

#[test]
fn duplicate_load_doubles_rules_but_not_outcomes() {
    let mut store = StylesheetStore::new();
    let src = "a { fg: red; add-modifier: bold; }\n.x { remove-modifier: dim; bg: #010203; }";
    assert!(add_stylesheet(&mut store, src).is_ok());
    let rules_once: usize = store.sheets.iter().map(|s| s.rules.len()).sum();
    let style_a = get_style(&store, "a", &classes(&[]));
    let style_x = get_style(&store, "q", &classes(&["x"]));
    assert!(add_stylesheet(&mut store, src).is_ok());
    let rules_twice: usize = store.sheets.iter().map(|s| s.rules.len()).sum();
    assert_eq!(rules_twice, 2 * rules_once);
    assert_eq!(get_style(&store, "a", &classes(&[])), style_a);
    assert_eq!(get_style(&store, "q", &classes(&["x"])), style_x);
}

#[test]
fn empty_selector_matches_everything() {
    let mut store = StylesheetStore::new();
    assert!(add_stylesheet(&mut store, "{ add-modifier: italic; }").is_ok());
    let style = get_style(&store, "anything", &classes(&["any", "classes"]));
    assert_eq!(style.add_modifiers, 0x4);
}

#[test]
fn element_must_match_exactly() {
    let mut store = StylesheetStore::new();
    assert!(add_stylesheet(&mut store, "item { fg: blue; }").is_ok());
    assert_eq!(get_style(&store, "item", &classes(&[])).fg, Some(Color::Blue));
    assert_eq!(get_style(&store, "items", &classes(&[])).fg, None);
    assert_eq!(get_style(&store, "ite", &classes(&[])).fg, None);
}

#[test]
fn add_then_remove_modifier_moves_between_sets() {
    let mut store = StylesheetStore::new();
    let src = "a { add-modifier: bold; }\na { remove-modifier: bold; add-modifier: dim; }";
    assert!(add_stylesheet(&mut store, src).is_ok());
    let style = get_style(&store, "a", &classes(&[]));
    assert_eq!(style.add_modifiers, 0x2);
    assert_eq!(style.sub_modifiers, 0x1);
}

#[test]
fn empty_store_yields_default_style() {
    let store = StylesheetStore::new();
    let style = get_style(&store, "nothing", &classes(&["loaded"]));
    assert_eq!(style, Style::default());
}

#[test]
fn carriage_returns_are_stripped_before_parsing() {
    let mut store = StylesheetStore::new();
    assert!(add_stylesheet(&mut store, "a {\r\n fg: green;\r\n}\r\n").is_ok());
    assert_eq!(get_style(&store, "a", &classes(&[])).fg, Some(Color::Green));
}

#[test]
fn patch_merges_explicit_fields_only() {
    let base = Style {
        fg: Some(Color::Red),
        bg: Some(Color::Blue),
        add_modifiers: 0x1,
        sub_modifiers: 0x2,
    };
    let over = Style { fg: Some(Color::White), bg: None, add_modifiers: 0x2, sub_modifiers: 0x1 };
    let merged = base.patch(over);
    assert_eq!(merged.fg, Some(Color::White));
    assert_eq!(merged.bg, Some(Color::Blue));
    assert_eq!(merged.add_modifiers, 0x2);
    assert_eq!(merged.sub_modifiers, 0x1);
}
