//! The style model: colors, modifier flags, and the `patch` merge that the
//! cascade folds over matching rules.

use vstd::prelude::*;

verus! {

/// A color value: an explicit RGB triplet, one of the fixed named palette, or
/// the terminal's default (`Reset`).
#[derive(Clone, Copy, Debug, PartialEq, Eq, Structural)]
pub enum Color {
    Rgb(u8, u8, u8),
    Black,
    Gray,
    Red,
    Green,
    Blue,
    Yellow,
    Magenta,
    Cyan,
    White,
    Reset,
    LightRed,
    LightGreen,
    LightBlue,
    LightYellow,
    LightMagenta,
    LightCyan,
    DarkGray,
}

/// One modifier flag from the fixed vocabulary.
#[derive(Clone, Copy, Debug, PartialEq, Eq, Structural)]
pub enum Modifier {
    Bold,
    Dim,
    Italic,
    Underlined,
    SlowBlink,
    RapidBlink,
    Reversed,
    Hidden,
    CrossedOut,
}

impl Modifier {
    /// The single bit this flag occupies in a modifier set.
    pub open spec fn spec_bit(self) -> u16 {
        match self {
            Modifier::Bold => 0x1,
            Modifier::Dim => 0x2,
            Modifier::Italic => 0x4,
            Modifier::Underlined => 0x8,
            Modifier::SlowBlink => 0x10,
            Modifier::RapidBlink => 0x20,
            Modifier::Reversed => 0x40,
            Modifier::Hidden => 0x80,
            Modifier::CrossedOut => 0x100,
        }
    }

    #[verifier::when_used_as_spec(spec_bit)]
    pub fn bit(self) -> (r: u16)
        ensures
            r == self.spec_bit(),
    {
        match self {
            Modifier::Bold => 0x1,
            Modifier::Dim => 0x2,
            Modifier::Italic => 0x4,
            Modifier::Underlined => 0x8,
            Modifier::SlowBlink => 0x10,
            Modifier::RapidBlink => 0x20,
            Modifier::Reversed => 0x40,
            Modifier::Hidden => 0x80,
            Modifier::CrossedOut => 0x100,
        }
    }
}

/// A style edit: optional foreground and background colors, plus bit sets of
/// modifier flags to switch on (`add_modifiers`) and off (`sub_modifiers`).
#[derive(Clone, Copy, Debug, PartialEq, Eq)]
#[verifier::ext_equal]
pub struct Style {
    pub fg: Option<Color>,
    pub bg: Option<Color>,
    pub add_modifiers: u16,
    pub sub_modifiers: u16,
}

/// The all-unset style: no colors asserted, no modifier edits.
pub open spec fn default_style() -> Style {
    Style { fg: None, bg: None, add_modifiers: 0, sub_modifiers: 0 }
}

/// `over` patched onto `base`: explicitly-set colors of `over` win, its
/// added flags join the add-set and leave the sub-set, and its removed flags
/// join the sub-set and leave the add-set.
pub open spec fn spec_patch(base: Style, over: Style) -> Style {
    Style {
        fg: if over.fg is Some {
            over.fg
        } else {
            base.fg
        },
        bg: if over.bg is Some {
            over.bg
        } else {
            base.bg
        },
        add_modifiers: (base.add_modifiers & !over.sub_modifiers) | over.add_modifiers,
        sub_modifiers: (base.sub_modifiers & !over.add_modifiers) | over.sub_modifiers,
    }
}

pub open spec fn spec_add_modifier(s: Style, m: Modifier) -> Style {
    Style {
        add_modifiers: s.add_modifiers | m.spec_bit(),
        sub_modifiers: s.sub_modifiers & !m.spec_bit(),
        ..s
    }
}

pub open spec fn spec_remove_modifier(s: Style, m: Modifier) -> Style {
    Style {
        add_modifiers: s.add_modifiers & !m.spec_bit(),
        sub_modifiers: s.sub_modifiers | m.spec_bit(),
        ..s
    }
}

impl Default for Style {
    /// The accumulator every cascade starts from.
    fn default() -> (r: Style)
        ensures
            r == default_style(),
    {
        Style { fg: None, bg: None, add_modifiers: 0, sub_modifiers: 0 }
    }
}

impl Style {
    /// Patch this style with a later edit: `other`'s explicitly-set fields
    /// win, fields it leaves unset keep this style's values.
    pub fn patch(self, other: Style) -> (r: Style)
        ensures
            r == spec_patch(self, other),
    {
        Style {
            fg: if other.fg.is_some() {
                other.fg
            } else {
                self.fg
            },
            bg: if other.bg.is_some() {
                other.bg
            } else {
                self.bg
            },
            add_modifiers: (self.add_modifiers & !other.sub_modifiers) | other.add_modifiers,
            sub_modifiers: (self.sub_modifiers & !other.add_modifiers) | other.sub_modifiers,
        }
    }

    /// Switch one modifier flag on, cancelling a pending removal of it.
    pub fn add_modifier(self, m: Modifier) -> (r: Style)
        ensures
            r == spec_add_modifier(self, m),
    {
        let b = m.bit();
        Style { add_modifiers: self.add_modifiers | b, sub_modifiers: self.sub_modifiers & !b, ..self }
    }

    /// Switch one modifier flag off, cancelling a pending addition of it.
    pub fn remove_modifier(self, m: Modifier) -> (r: Style)
        ensures
            r == spec_remove_modifier(self, m),
    {
        let b = m.bit();
        Style { add_modifiers: self.add_modifiers & !b, sub_modifiers: self.sub_modifiers | b, ..self }
    }
}

} // verus!
