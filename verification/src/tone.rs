//! The semantic tones and severities widgets are tinted with.

use vstd::prelude::*;

verus! {

/// A semantic tint: neutral or one of the five status colors.
#[derive(Clone, Copy, Debug, PartialEq, Eq, Structural)]
pub enum Tone {
    Neutral,
    Accent,
    Success,
    Warning,
    Danger,
    Info,
}

/// How serious an annotation or message is.
#[derive(Clone, Copy, Debug, PartialEq, Eq, Structural)]
pub enum Severity {
    Success,
    Warning,
    Danger,
    Info,
}

} // verus!
