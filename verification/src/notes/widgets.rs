//! Styling variants of the notes app's buttons.
use vstd::prelude::*;

verus! {

#[derive(Debug, Clone, Copy, PartialEq, Eq, Structural)]
pub enum ButtonVariant {
    Primary,
    Plain,
    Danger,
}

} // verus!
