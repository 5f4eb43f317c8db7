//! Overlay options: the modal's panel widths and the sheet's edge.

use vstd::prelude::*;

verus! {

/// Modal panel widths.
#[derive(Clone, Copy, Debug, PartialEq, Eq, Structural)]
pub enum ModalWidth {
    Md,
    Lg,
    Xl,
}

impl ModalWidth {
    /// The panel width in points.
    pub fn points(self) -> (p: u32)
        ensures
            p == match self {
                ModalWidth::Md => 480u32,
                ModalWidth::Lg => 720u32,
                ModalWidth::Xl => 960u32,
            },
    {
        match self {
            ModalWidth::Md => 480,
            ModalWidth::Lg => 720,
            ModalWidth::Xl => 960,
        }
    }
}

impl Default for ModalWidth {
    fn default() -> (w: ModalWidth)
        ensures
            w == ModalWidth::Md,
    {
        ModalWidth::Md
    }
}

/// Which screen edge a sheet slides in from.
#[derive(Clone, Copy, Debug, PartialEq, Eq, Structural)]
pub enum Side {
    Left,
    Right,
}

impl Default for Side {
    fn default() -> (s: Side)
        ensures
            s == Side::Right,
    {
        Side::Right
    }
}

} // verus!
