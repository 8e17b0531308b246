//! How the calculator's keypad buttons are styled, by label.
use vstd::prelude::*;
use crate::text::chars_of;

verus! {

#[derive(Debug, Clone, Copy, PartialEq, Eq, Structural)]
pub enum ButtonVariant {
    Primary,
    Plain,
    Danger,
    /// Distinct from `Plain` without being a primary/danger action — e.g.
    /// a calculator's operator keys standing apart from its digit keys.
    Operator,
}

/// Classifies a calculator button for consistent visual styling.
#[derive(Debug, Clone, Copy, PartialEq, Eq, Structural)]
pub enum ButtonKind {
    /// The equals (confirm) button.
    Equals,
    /// Arithmetic operator buttons (+, -, *, /).
    Operator,
    /// Destructive/clear buttons (C, CE, ⌫).
    Clear,
    /// Digit and decimal point buttons.
    Digit,
}

pub open spec fn is_operator_label(s: Seq<char>) -> bool {
    s == seq!['/'] || s == seq!['*'] || s == seq!['-'] || s == seq!['+']
}

pub open spec fn is_clear_label(s: Seq<char>) -> bool {
    s == seq!['C'] || s == seq!['C', 'E'] || s == seq!['\u{232B}']
}

/// The kind of the keypad button with label `s`.
pub open spec fn kind_for_label(s: Seq<char>) -> ButtonKind {
    if s == seq!['='] {
        ButtonKind::Equals
    } else if is_operator_label(s) {
        ButtonKind::Operator
    } else if is_clear_label(s) {
        ButtonKind::Clear
    } else {
        ButtonKind::Digit
    }
}

/// The framework button variant of the keypad button with label `s`.
pub open spec fn variant_for_label(s: Seq<char>) -> ButtonVariant {
    match kind_for_label(s) {
        ButtonKind::Equals => ButtonVariant::Primary,
        ButtonKind::Clear => ButtonVariant::Danger,
        ButtonKind::Operator => ButtonVariant::Operator,
        ButtonKind::Digit => ButtonVariant::Plain,
    }
}

impl ButtonKind {
    pub fn from_label(label: &str) -> (k: ButtonKind)
        ensures
            k == kind_for_label(label@),
    {
        let cs = chars_of(label);
        if cs.len() == 1 && cs[0] == '=' {
            assert(cs@ =~= seq!['=']);
            ButtonKind::Equals
        } else if cs.len() == 1 && (cs[0] == '/' || cs[0] == '*' || cs[0] == '-' || cs[0] == '+') {
            assert(cs@ =~= seq![cs@[0]]);
            assert(cs@ != seq!['=']);
            ButtonKind::Operator
        } else if (cs.len() == 1 && (cs[0] == 'C' || cs[0] == '\u{232B}')) || (cs.len() == 2 && cs[0]
            == 'C' && cs[1] == 'E') {
            if cs.len() == 1 {
                assert(cs@ =~= seq![cs@[0]]);
            } else {
                assert(cs@ =~= seq!['C', 'E']);
            }
            assert(cs@ != seq!['=']);
            assert(!is_operator_label(cs@));
            ButtonKind::Clear
        } else {
            assert(!is_clear_label(cs@)) by {
                if cs@ == seq!['C'] || cs@ == seq!['\u{232B}'] {
                    assert(cs@[0] == seq!['C'][0] || cs@[0] == seq!['\u{232B}'][0]);
                }
                if cs@ == seq!['C', 'E'] {
                    assert(cs@[1] == 'E');
                }
            }
            assert(!is_operator_label(cs@)) by {
                if is_operator_label(cs@) {
                    assert(cs@.len() == 1);
                }
            }
            assert(cs@ != seq!['=']) by {
                if cs@ == seq!['='] {
                    assert(cs@[0] == '=');
                }
            }
            ButtonKind::Digit
        }
    }

    /// Background colour as a `0xRRGGBB` value.
    pub fn bg_color(self) -> (rgb: u32)
        ensures
            rgb == match self {
                ButtonKind::Equals => 0x2563ebu32,
                ButtonKind::Operator => 0x3f3f46u32,
                ButtonKind::Clear => 0x7f1d1du32,
                ButtonKind::Digit => 0x27272au32,
            },
    {
        match self {
            ButtonKind::Equals => 0x2563eb,
            ButtonKind::Operator => 0x3f3f46,
            ButtonKind::Clear => 0x7f1d1d,
            ButtonKind::Digit => 0x27272a,
        }
    }

    /// Hover colour as a `0xRRGGBB` value.
    pub fn hover_color(self) -> (rgb: u32)
        ensures
            rgb == match self {
                ButtonKind::Equals => 0x3b82f6u32,
                ButtonKind::Operator => 0x52525bu32,
                ButtonKind::Clear => 0x991b1bu32,
                ButtonKind::Digit => 0x3f3f46u32,
            },
    {
        match self {
            ButtonKind::Equals => 0x3b82f6,
            ButtonKind::Operator => 0x52525b,
            ButtonKind::Clear => 0x991b1b,
            ButtonKind::Digit => 0x3f3f46,
        }
    }
}

impl ButtonVariant {
    /// The variant of the keypad button with label `label`: `=` is primary,
    /// the clear keys are danger, the operators stand apart, the rest plain.
    pub fn for_label(label: &str) -> (v: ButtonVariant)
        ensures
            v == variant_for_label(label@),
    {
        match ButtonKind::from_label(label) {
            ButtonKind::Equals => ButtonVariant::Primary,
            ButtonKind::Clear => ButtonVariant::Danger,
            ButtonKind::Operator => ButtonVariant::Operator,
            ButtonKind::Digit => ButtonVariant::Plain,
        }
    }
}

} // verus!
