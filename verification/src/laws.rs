//! Laws of the cascade: what one matching rule resolves to, how a later rule
//! overrides an earlier one, and why loading the same stylesheet twice
//! changes no query's outcome.

use vstd::prelude::*;

use crate::store::{
    cascade_rules, cascade_sheets, rule_count_of, sel_matches, GRule, StylesheetStore,
};
use crate::style::{default_style, spec_patch, Color, Style};

verus! {

/// Folding one more rule at the end of the list patches the fold of the
/// rest, when the rule matches, and changes nothing otherwise.
pub proof fn lemma_cascade_rules_push(
    rules: Seq<GRule>,
    r: GRule,
    element: Seq<char>,
    classes: Seq<Seq<char>>,
    acc: Style,
)
    ensures
        cascade_rules(rules.push(r), element, classes, acc) == ({
            let x = cascade_rules(rules, element, classes, acc);
            if sel_matches(r.sel, element, classes) {
                spec_patch(x, r.style)
            } else {
                x
            }
        }),
    decreases rules.len(),
{
    if rules.len() == 0 {
        let stepped = if sel_matches(r.sel, element, classes) {
            spec_patch(acc, r.style)
        } else {
            acc
        };
        assert(rules.push(r)[0] == r);
        assert(rules.push(r).drop_first() =~= Seq::<GRule>::empty());
        assert(cascade_rules(rules.push(r), element, classes, acc) == cascade_rules(
            Seq::<GRule>::empty(),
            element,
            classes,
            stepped,
        ));
        assert(cascade_rules(Seq::<GRule>::empty(), element, classes, stepped) == stepped);
        assert(cascade_rules(rules, element, classes, acc) == acc);
    } else {
        assert(rules.push(r)[0] == rules[0]);
        assert(rules.push(r).drop_first() =~= rules.drop_first().push(r));
        let acc2 = if sel_matches(rules[0].sel, element, classes) {
            spec_patch(acc, rules[0].style)
        } else {
            acc
        };
        assert(cascade_rules(rules.push(r), element, classes, acc) == cascade_rules(
            rules.drop_first().push(r),
            element,
            classes,
            acc2,
        ));
        assert(cascade_rules(rules, element, classes, acc) == cascade_rules(
            rules.drop_first(),
            element,
            classes,
            acc2,
        ));
        lemma_cascade_rules_push(rules.drop_first(), r, element, classes, acc2);
    }
}

/// The color a rule's style asserts on one side.
pub open spec fn style_color(st: Style, fg_side: bool) -> Option<Color> {
    if fg_side {
        st.fg
    } else {
        st.bg
    }
}

/// The last word the rule list has on one color side: the color set by the
/// last matching rule that asserts that side, or `None` when no matching
/// rule touches it.
pub open spec fn net_color(
    rules: Seq<GRule>,
    element: Seq<char>,
    classes: Seq<Seq<char>>,
    fg_side: bool,
) -> Option<Option<Color>>
    decreases rules.len(),
{
    if rules.len() == 0 {
        None
    } else {
        let r = rules.last();
        if sel_matches(r.sel, element, classes) && style_color(r.style, fg_side) is Some {
            Some(style_color(r.style, fg_side))
        } else {
            net_color(rules.drop_last(), element, classes, fg_side)
        }
    }
}

/// A cascade's color on one side is the rule list's last word on it, or the
/// accumulator's color when the rules leave it alone.
pub proof fn lemma_cascade_color(
    rules: Seq<GRule>,
    element: Seq<char>,
    classes: Seq<Seq<char>>,
    acc: Style,
    fg_side: bool,
)
    ensures
        style_color(cascade_rules(rules, element, classes, acc), fg_side) == (match net_color(
            rules,
            element,
            classes,
            fg_side,
        ) {
            Some(v) => v,
            None => style_color(acc, fg_side),
        }),
    decreases rules.len(),
{
    if rules.len() > 0 {
        let rs = rules.drop_last();
        let r = rules.last();
        assert(rs.push(r) =~= rules);
        lemma_cascade_rules_push(rs, r, element, classes, acc);
        lemma_cascade_color(rs, element, classes, acc, fg_side);
    }
}

/// The net effect of a rule list on the modifier bit sets: the final add and
/// sub bits of the touched positions, and the mask of touched positions.
pub ghost struct NetMods {
    pub add: u16,
    pub sub: u16,
    pub touched: u16,
}

pub open spec fn net_mods(rules: Seq<GRule>, element: Seq<char>, classes: Seq<Seq<char>>) -> NetMods
    decreases rules.len(),
{
    if rules.len() == 0 {
        NetMods { add: 0, sub: 0, touched: 0 }
    } else {
        let m = net_mods(rules.drop_last(), element, classes);
        let r = rules.last();
        if sel_matches(r.sel, element, classes) {
            NetMods {
                add: (m.add & !r.style.sub_modifiers) | r.style.add_modifiers,
                sub: (m.sub & !r.style.add_modifiers) | r.style.sub_modifiers,
                touched: m.touched | r.style.add_modifiers | r.style.sub_modifiers,
            }
        } else {
            m
        }
    }
}

/// A cascade's modifier sets keep the accumulator's bits on untouched
/// positions and take the rule list's net bits on touched ones.
pub proof fn lemma_cascade_mods(
    rules: Seq<GRule>,
    element: Seq<char>,
    classes: Seq<Seq<char>>,
    acc: Style,
)
    ensures
        ({
            let m = net_mods(rules, element, classes);
            let x = cascade_rules(rules, element, classes, acc);
            &&& x.add_modifiers == (acc.add_modifiers & !m.touched) | m.add
            &&& x.sub_modifiers == (acc.sub_modifiers & !m.touched) | m.sub
            &&& m.add & !m.touched == 0
            &&& m.sub & !m.touched == 0
        }),
    decreases rules.len(),
{
    let m = net_mods(rules, element, classes);
    let x = cascade_rules(rules, element, classes, acc);
    if rules.len() == 0 {
        let a = acc.add_modifiers;
        let b = acc.sub_modifiers;
        assert((a & !0u16) | 0u16 == a && (b & !0u16) | 0u16 == b && 0u16 & !0u16 == 0u16) by (bit_vector);
    } else {
        let rs = rules.drop_last();
        let r = rules.last();
        assert(rs.push(r) =~= rules);
        lemma_cascade_rules_push(rs, r, element, classes, acc);
        lemma_cascade_mods(rs, element, classes, acc);
        let m0 = net_mods(rs, element, classes);
        let y = cascade_rules(rs, element, classes, acc);
        if sel_matches(r.sel, element, classes) {
            let aa = acc.add_modifiers;
            let bb = acc.sub_modifiers;
            let ya = y.add_modifiers;
            let yb = y.sub_modifiers;
            let ma = m0.add;
            let ms = m0.sub;
            let mt = m0.touched;
            let ra = r.style.add_modifiers;
            let rs_ = r.style.sub_modifiers;
            assert((ya == (aa & !mt) | ma && ma & !mt == 0) ==> ((ya & !rs_) | ra) == ((aa & !(mt
                | ra | rs_)) | ((ma & !rs_) | ra))) by (bit_vector);
            assert((yb == (bb & !mt) | ms && ms & !mt == 0) ==> ((yb & !ra) | rs_) == ((bb & !(mt
                | ra | rs_)) | ((ms & !ra) | rs_))) by (bit_vector);
            assert(ma & !mt == 0 ==> ((ma & !rs_) | ra) & !(mt | ra | rs_) == 0) by (bit_vector);
            assert(ms & !mt == 0 ==> ((ms & !ra) | rs_) & !(mt | ra | rs_) == 0) by (bit_vector);
        }
    }
}

/// Applying the same rule list a second time changes nothing: every color
/// keeps its last word and every modifier bit keeps its last toucher.
pub proof fn lemma_cascade_rules_idempotent(
    rules: Seq<GRule>,
    element: Seq<char>,
    classes: Seq<Seq<char>>,
    acc: Style,
)
    ensures
        cascade_rules(rules, element, classes, cascade_rules(rules, element, classes, acc))
            == cascade_rules(rules, element, classes, acc),
{
    let x = cascade_rules(rules, element, classes, acc);
    let y = cascade_rules(rules, element, classes, x);
    lemma_cascade_color(rules, element, classes, acc, true);
    lemma_cascade_color(rules, element, classes, x, true);
    lemma_cascade_color(rules, element, classes, acc, false);
    lemma_cascade_color(rules, element, classes, x, false);
    lemma_cascade_mods(rules, element, classes, acc);
    lemma_cascade_mods(rules, element, classes, x);
    let m = net_mods(rules, element, classes);
    let xa = x.add_modifiers;
    let xb = x.sub_modifiers;
    let aa = acc.add_modifiers;
    let bb = acc.sub_modifiers;
    let ma = m.add;
    let ms = m.sub;
    let mt = m.touched;
    assert((xa == (aa & !mt) | ma && ma & !mt == 0) ==> ((xa & !mt) | ma) == xa) by (bit_vector);
    assert((xb == (bb & !mt) | ms && ms & !mt == 0) ==> ((xb & !mt) | ms) == xb) by (bit_vector);
    assert(y =~= x);
}

/// Folding one more sheet at the end cascades it over the fold of the rest.
pub proof fn lemma_cascade_sheets_push(
    sheets: Seq<Seq<GRule>>,
    sheet: Seq<GRule>,
    element: Seq<char>,
    classes: Seq<Seq<char>>,
    acc: Style,
)
    ensures
        cascade_sheets(sheets.push(sheet), element, classes, acc) == cascade_rules(
            sheet,
            element,
            classes,
            cascade_sheets(sheets, element, classes, acc),
        ),
    decreases sheets.len(),
{
    if sheets.len() == 0 {
        assert(sheets.push(sheet)[0] == sheet);
        assert(sheets.push(sheet).drop_first() =~= Seq::<Seq<GRule>>::empty());
        let folded = cascade_rules(sheet, element, classes, acc);
        assert(cascade_sheets(sheets.push(sheet), element, classes, acc) == cascade_sheets(
            Seq::<Seq<GRule>>::empty(),
            element,
            classes,
            folded,
        ));
        assert(cascade_sheets(Seq::<Seq<GRule>>::empty(), element, classes, folded) == folded);
        assert(cascade_sheets(sheets, element, classes, acc) == acc);
    } else {
        assert(sheets.push(sheet)[0] == sheets[0]);
        assert(sheets.push(sheet).drop_first() =~= sheets.drop_first().push(sheet));
        let acc2 = cascade_rules(sheets[0], element, classes, acc);
        assert(cascade_sheets(sheets.push(sheet), element, classes, acc) == cascade_sheets(
            sheets.drop_first().push(sheet),
            element,
            classes,
            acc2,
        ));
        assert(cascade_sheets(sheets, element, classes, acc) == cascade_sheets(
            sheets.drop_first(),
            element,
            classes,
            acc2,
        ));
        lemma_cascade_sheets_push(sheets.drop_first(), sheet, element, classes, acc2);
    }
}

/// Appending one sheet adds exactly its rules to the stored rule count.
pub proof fn lemma_rule_count_push(sheets: Seq<Seq<GRule>>, sheet: Seq<GRule>)
    ensures
        rule_count_of(sheets.push(sheet)) == rule_count_of(sheets) + sheet.len(),
    decreases sheets.len(),
{
    if sheets.len() == 0 {
        assert(sheets.push(sheet)[0] == sheet);
        assert(sheets.push(sheet).drop_first() =~= Seq::<Seq<GRule>>::empty());
        assert(rule_count_of(sheets.push(sheet)) == sheet.len() + rule_count_of(
            Seq::<Seq<GRule>>::empty(),
        ));
        assert(rule_count_of(Seq::<Seq<GRule>>::empty()) == 0);
        assert(rule_count_of(sheets) == 0);
    } else {
        assert(sheets.push(sheet)[0] == sheets[0]);
        assert(sheets.push(sheet).drop_first() =~= sheets.drop_first().push(sheet));
        assert(rule_count_of(sheets.push(sheet)) == sheets[0].len() + rule_count_of(
            sheets.drop_first().push(sheet),
        ));
        assert(rule_count_of(sheets) == sheets[0].len() + rule_count_of(sheets.drop_first()));
        lemma_rule_count_push(sheets.drop_first(), sheet);
    }
}

/// Loading the same stylesheet twice adds its rule count a second time (so a
/// store that held only that sheet doubles its rule count) but leaves every
/// query's resolved style unchanged.
pub proof fn lemma_duplicate_sheet(
    sheets: Seq<Seq<GRule>>,
    sheet: Seq<GRule>,
    element: Seq<char>,
    classes: Seq<Seq<char>>,
)
    ensures
        rule_count_of(sheets.push(sheet).push(sheet)) == rule_count_of(sheets.push(sheet))
            + sheet.len(),
        cascade_sheets(sheets.push(sheet).push(sheet), element, classes, default_style())
            == cascade_sheets(sheets.push(sheet), element, classes, default_style()),
{
    lemma_rule_count_push(sheets.push(sheet), sheet);
    lemma_cascade_sheets_push(sheets, sheet, element, classes, default_style());
    lemma_cascade_sheets_push(sheets.push(sheet), sheet, element, classes, default_style());
    lemma_cascade_rules_idempotent(
        sheet,
        element,
        classes,
        cascade_sheets(sheets, element, classes, default_style()),
    );
}

/// A single matching rule that only sets explicit colors resolves, from the
/// default accumulator, to exactly that rule's style: its RGB components and
/// nothing else.
pub proof fn lemma_single_hex_rule(rule: GRule, element: Seq<char>, classes: Seq<Seq<char>>)
    requires
        sel_matches(rule.sel, element, classes),
        rule.style.add_modifiers == 0,
        rule.style.sub_modifiers == 0,
        rule.style.fg matches Some(c) ==> c is Rgb,
        rule.style.bg matches Some(c) ==> c is Rgb,
    ensures
        cascade_sheets(seq![seq![rule]], element, classes, default_style()) == rule.style,
{
    let sheet = seq![rule];
    let folded = cascade_rules(sheet, element, classes, default_style());
    assert(seq![sheet][0] == sheet);
    assert(seq![sheet].drop_first() =~= Seq::<Seq<GRule>>::empty());
    assert(cascade_sheets(seq![sheet], element, classes, default_style()) == cascade_sheets(
        Seq::<Seq<GRule>>::empty(),
        element,
        classes,
        folded,
    ));
    assert(cascade_sheets(Seq::<Seq<GRule>>::empty(), element, classes, folded) == folded);
    assert(sheet[0] == rule);
    assert(sheet.drop_first() =~= Seq::<GRule>::empty());
    let stepped = spec_patch(default_style(), rule.style);
    assert(folded == cascade_rules(Seq::<GRule>::empty(), element, classes, stepped));
    assert(cascade_rules(Seq::<GRule>::empty(), element, classes, stepped) == stepped);
    let a = rule.style.add_modifiers;
    let b = rule.style.sub_modifiers;
    assert((0u16 & !b) | a == a && (0u16 & !a) | b == b) by (bit_vector);
    assert(stepped =~= rule.style);
}

/// Given two rules for the same selector, the later rule's explicitly-set
/// foreground overrides the earlier one's, while an earlier background the
/// later rule leaves unset is retained.
pub proof fn lemma_override_and_retain(
    first: GRule,
    second: GRule,
    element: Seq<char>,
    classes: Seq<Seq<char>>,
)
    requires
        sel_matches(first.sel, element, classes),
        sel_matches(second.sel, element, classes),
        second.style.fg is Some,
        second.style.bg is None,
    ensures
        ({
            let resolved = cascade_sheets(
                seq![seq![first, second]],
                element,
                classes,
                default_style(),
            );
            resolved.fg == second.style.fg && resolved.bg == first.style.bg
        }),
{
    let sheet = seq![first, second];
    let folded = cascade_rules(sheet, element, classes, default_style());
    assert(seq![sheet][0] == sheet);
    assert(seq![sheet].drop_first() =~= Seq::<Seq<GRule>>::empty());
    assert(cascade_sheets(seq![sheet], element, classes, default_style()) == cascade_sheets(
        Seq::<Seq<GRule>>::empty(),
        element,
        classes,
        folded,
    ));
    assert(cascade_sheets(Seq::<Seq<GRule>>::empty(), element, classes, folded) == folded);
    assert(sheet[0] == first);
    assert(sheet.drop_first() =~= seq![second]);
    let after_first = spec_patch(default_style(), first.style);
    assert(folded == cascade_rules(seq![second], element, classes, after_first));
    assert(seq![second][0] == second);
    assert(seq![second].drop_first() =~= Seq::<GRule>::empty());
    let after_second = spec_patch(after_first, second.style);
    assert(cascade_rules(seq![second], element, classes, after_first) == cascade_rules(
        Seq::<GRule>::empty(),
        element,
        classes,
        after_second,
    ));
    assert(cascade_rules(Seq::<GRule>::empty(), element, classes, after_second) == after_second);
}

/// Loading the same parsed stylesheet into a store twice leaves every
/// query's resolved style as it was after the first load, while the stored
/// rule count grows by the sheet's rule count a second time.
pub proof fn lemma_duplicate_load(
    before: StylesheetStore,
    once: StylesheetStore,
    twice: StylesheetStore,
    sheet: Seq<GRule>,
    element: Seq<char>,
    classes: Seq<Seq<char>>,
)
    requires
        once@ == before@.push(sheet),
        twice@ == once@.push(sheet),
    ensures
        rule_count_of(twice@) == rule_count_of(once@) + sheet.len(),
        cascade_sheets(twice@, element, classes, default_style()) == cascade_sheets(
            once@,
            element,
            classes,
            default_style(),
        ),
{
    lemma_duplicate_sheet(before@, sheet, element, classes);
}

} // verus!
