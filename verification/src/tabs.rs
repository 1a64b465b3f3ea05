//! Which view of the data is shown, and where the pivot controls sit.
use vstd::prelude::*;

verus! {

/// Which view of the data is active when the pivot tab is enabled.
#[derive(Clone, Copy, Debug, PartialEq, Eq, Structural)]
pub enum GridTab {
    /// The flat data grid.
    Grid,
    /// The pivot view.
    Pivot,
}

impl Default for GridTab {
    fn default() -> (r: Self)
        ensures
            r == GridTab::Grid,
    {
        GridTab::Grid
    }
}

/// Side of the pivot grid where the control panel is rendered.
#[derive(Clone, Copy, Debug, PartialEq, Eq, Structural)]
pub enum PivotSidebarPosition {
    /// Controls before the pivot grid.
    Left,
    /// Controls after the pivot grid.
    Right,
}

impl Default for PivotSidebarPosition {
    fn default() -> (r: Self)
        ensures
            r == PivotSidebarPosition::Left,
    {
        PivotSidebarPosition::Left
    }
}

} // verus!
