//! The light/dark mode of the notes app's theme.
use vstd::prelude::*;

verus! {

#[derive(Debug, Clone, Copy, PartialEq, Eq, Structural)]
pub enum ThemeMode {
    Light,
    Dark,
}

impl ThemeMode {
    pub fn is_dark(self) -> (b: bool)
        ensures
            b == (self == ThemeMode::Dark),
    {
        match self {
            ThemeMode::Dark => true,
            ThemeMode::Light => false,
        }
    }

    /// The mode that the theme toggle switches to: dark after light, light
    /// after dark.
    pub fn toggled(self) -> (next: ThemeMode)
        ensures
            next == (if self == ThemeMode::Dark { ThemeMode::Light } else { ThemeMode::Dark }),
    {
        if self.is_dark() {
            ThemeMode::Light
        } else {
            ThemeMode::Dark
        }
    }
}

/// Toggling the theme twice gives back the mode it started from.
pub proof fn lemma_toggle_twice(mode: ThemeMode)
    ensures
        (if (if mode == ThemeMode::Dark { ThemeMode::Light } else { ThemeMode::Dark })
            == ThemeMode::Dark { ThemeMode::Light } else { ThemeMode::Dark }) == mode,
{
}

} // verus!
