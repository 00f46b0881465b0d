//! Selectors, parsed stylesheets, the append-only store, and the cascade
//! that resolves the effective style of a query.

use vstd::prelude::*;

use crate::parser::Spanned;
use crate::style::{default_style, spec_patch, Style};
use crate::text::str_eq;

verus! {

/// A selector: an optional element name plus the class tags a query must
/// carry.  Order of the classes is irrelevant to matching but preserved from
/// the source for diagnostics.
#[derive(Debug)]
pub struct Identifier {
    pub element: Option<Spanned<String>>,
    pub classes: Vec<Spanned<String>>,
}

/// Spec-level shape of a span-tagged name.
pub ghost struct GName {
    pub v: Seq<char>,
    pub lo: int,
    pub hi: int,
}

/// Spec-level shape of a selector.
pub ghost struct GIdent {
    pub element: Option<GName>,
    pub classes: Seq<GName>,
}

/// Spec-level shape of one rule: a selector and the style edit it applies.
pub ghost struct GRule {
    pub sel: GIdent,
    pub style: Style,
}

pub open spec fn name_view(sp: Spanned<String>) -> GName {
    GName { v: sp.node@, lo: sp.span.start as int, hi: sp.span.end as int }
}

/// The spec-level shape of a list of span-tagged names.
pub open spec fn names_view(v: Seq<Spanned<String>>) -> Seq<GName> {
    v.map(|i: int, sp: Spanned<String>| name_view(sp))
}

impl View for Identifier {
    type V = GIdent;

    open spec fn view(&self) -> GIdent {
        GIdent {
            element: match self.element {
                Some(sp) => Some(name_view(sp)),
                None => None,
            },
            classes: names_view(self.classes@),
        }
    }
}

/// An ordered list of rules from one source file, in declaration order;
/// immutable after construction.
#[derive(Debug)]
pub struct Stylesheet {
    pub rules: Vec<(Identifier, Style)>,
}

/// The spec-level shape of a rule list.
pub open spec fn rules_view(rs: Seq<(Identifier, Style)>) -> Seq<GRule> {
    rs.map(|i: int, r: (Identifier, Style)| GRule { sel: r.0@, style: r.1 })
}

impl View for Stylesheet {
    type V = Seq<GRule>;

    open spec fn view(&self) -> Seq<GRule> {
        rules_view(self.rules@)
    }
}

/// The ordered, append-only collection of loaded stylesheets, in load order.
#[derive(Debug)]
pub struct StylesheetStore {
    pub sheets: Vec<Stylesheet>,
}

impl View for StylesheetStore {
    type V = Seq<Seq<GRule>>;

    open spec fn view(&self) -> Seq<Seq<GRule>> {
        self.sheets@.map(|i: int, sh: Stylesheet| sh@)
    }
}

/// `c` occurs in the query's class list, by exact string equality.
pub open spec fn class_present(classes: Seq<Seq<char>>, c: Seq<char>) -> bool {
    exists|j: int| 0 <= j < classes.len() && classes[j] == c
}

/// A rule matches a query iff its element, when present, equals the queried
/// element exactly, and every class of the selector is present in the query's
/// class set; extra query classes are ignored, and order never matters.
pub open spec fn sel_matches(sel: GIdent, element: Seq<char>, classes: Seq<Seq<char>>) -> bool {
    &&& (sel.element matches Some(e) ==> e.v == element)
    &&& (forall|k: int|
        0 <= k < sel.classes.len() ==> class_present(classes, #[trigger] sel.classes[k].v))
}

/// Fold the rules in declaration order over `acc`, patching it with each
/// matching rule's style.
pub open spec fn cascade_rules(
    rules: Seq<GRule>,
    element: Seq<char>,
    classes: Seq<Seq<char>>,
    acc: Style,
) -> Style
    decreases rules.len(),
{
    if rules.len() == 0 {
        acc
    } else {
        let acc2 = if sel_matches(rules[0].sel, element, classes) {
            spec_patch(acc, rules[0].style)
        } else {
            acc
        };
        cascade_rules(rules.drop_first(), element, classes, acc2)
    }
}

/// Fold whole stylesheets in load order.
pub open spec fn cascade_sheets(
    sheets: Seq<Seq<GRule>>,
    element: Seq<char>,
    classes: Seq<Seq<char>>,
    acc: Style,
) -> Style
    decreases sheets.len(),
{
    if sheets.len() == 0 {
        acc
    } else {
        cascade_sheets(
            sheets.drop_first(),
            element,
            classes,
            cascade_rules(sheets[0], element, classes, acc),
        )
    }
}

/// Whether `x` occurs in `list`, by exact string equality.
fn contains_string(list: &Vec<String>, x: &String) -> (r: bool)
    ensures
        r == class_present(list.deep_view(), x@),
{
    let mut j: usize = 0;
    while j < list.len()
        invariant
            j <= list@.len(),
            forall|i: int| 0 <= i < j ==> list.deep_view()[i] != x@,
        decreases list@.len() - j,
    {
        if str_eq(list[j].as_str(), x.as_str()) {
            assert(list.deep_view()[j as int] == x@);
            return true;
        }
        j = j + 1;
    }
    false
}

/// Whether a selector matches the queried element and class set.
fn matches_query(id: &Identifier, identifier: &str, classes: &Vec<String>) -> (r: bool)
    ensures
        r == sel_matches(id@, identifier@, classes.deep_view()),
{
    match &id.element {
        Some(sp) => {
            if !str_eq(sp.node.as_str(), identifier) {
                return false;
            }
        },
        None => {},
    }
    let mut k: usize = 0;
    while k < id.classes.len()
        invariant
            k <= id.classes@.len(),
            id@.element matches Some(e) ==> e.v == identifier@,
            forall|i: int|
                0 <= i < k ==> class_present(classes.deep_view(), #[trigger] id@.classes[i].v),
        decreases id.classes@.len() - k,
    {
        if !contains_string(classes, &id.classes[k].node) {
            assert(!class_present(classes.deep_view(), id@.classes[k as int].v));
            return false;
        }
        k = k + 1;
    }
    true
}

impl Stylesheet {
    /// Patch `on` with every rule of this sheet that matches the query, in
    /// declaration order.
    pub fn get(&self, identifier: &str, classes: &Vec<String>, on: &mut Style)
        ensures
            *final(on) == cascade_rules(self@, identifier@, classes.deep_view(), *old(on)),
    {
        let ghost rules = self@;
        let ghost element = identifier@;
        let ghost cls = classes.deep_view();
        proof {
            assert(rules.skip(0) =~= rules);
        }
        let mut i: usize = 0;
        while i < self.rules.len()
            invariant
                i <= self.rules@.len(),
                rules == self@,
                element == identifier@,
                cls == classes.deep_view(),
                rules.len() == self.rules@.len(),
                cascade_rules(rules.skip(i as int), element, cls, *on) == cascade_rules(
                    rules,
                    element,
                    cls,
                    *old(on),
                ),
            decreases self.rules@.len() - i,
        {
            let ghost before = *on;
            let matched = matches_query(&self.rules[i].0, identifier, classes);
            if matched {
                *on = on.patch(self.rules[i].1);
            }
            proof {
                assert(rules.skip(i as int).drop_first() =~= rules.skip(i + 1));
                assert(rules.skip(i as int)[0] == rules[i as int]);
            }
            i = i + 1;
        }
        proof {
            assert(rules.skip(rules.len() as int) =~= Seq::<GRule>::empty());
        }
    }
}

impl StylesheetStore {
    /// An empty store.
    pub fn new() -> (r: StylesheetStore)
        ensures
            r@ == Seq::<Seq<GRule>>::empty(),
            r.sheets@.len() == 0,
    {
        StylesheetStore { sheets: Vec::new() }
    }

    /// Append one parsed stylesheet; existing sheets and their order are
    /// untouched.
    pub fn push_sheet(&mut self, sheet: Stylesheet)
        ensures
            final(self).sheets@ == old(self).sheets@.push(sheet),
            final(self)@ == old(self)@.push(sheet@),
    {
        self.sheets.push(sheet);
        proof {
            assert(final(self)@ =~= old(self)@.push(sheet@));
        }
    }

    /// Resolve the effective style of a query by cascading every loaded
    /// sheet in load order; total, and the default style when nothing
    /// matches.
    pub fn get_style(&self, identifier: &str, classes: &Vec<String>) -> (r: Style)
        ensures
            r == cascade_sheets(self@, identifier@, classes.deep_view(), default_style()),
    {
        let ghost sheets = self@;
        let ghost element = identifier@;
        let ghost cls = classes.deep_view();
        let mut style = Style::default();
        proof {
            assert(sheets.skip(0) =~= sheets);
        }
        let mut i: usize = 0;
        while i < self.sheets.len()
            invariant
                i <= self.sheets@.len(),
                sheets == self@,
                element == identifier@,
                cls == classes.deep_view(),
                sheets.len() == self.sheets@.len(),
                cascade_sheets(sheets.skip(i as int), element, cls, style) == cascade_sheets(
                    sheets,
                    element,
                    cls,
                    default_style(),
                ),
            decreases self.sheets@.len() - i,
        {
            self.sheets[i].get(identifier, classes, &mut style);
            proof {
                assert(sheets.skip(i as int).drop_first() =~= sheets.skip(i + 1));
                assert(sheets.skip(i as int)[0] == sheets[i as int]);
            }
            i = i + 1;
        }
        proof {
            assert(sheets.skip(sheets.len() as int) =~= Seq::<Seq<GRule>>::empty());
        }
        style
    }
}

/// The number of rules in a sequence of sheets.
pub open spec fn rule_count_of(sheets: Seq<Seq<GRule>>) -> int
    decreases sheets.len(),
{
    if sheets.len() == 0 {
        0
    } else {
        sheets[0].len() + rule_count_of(sheets.drop_first())
    }
}

} // verus!
