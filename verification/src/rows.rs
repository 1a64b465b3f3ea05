//! What the painter shows for a display row: its section and its number.
use vstd::prelude::*;
use crate::grouping::{GridDisplayRow, RowGroup};
use crate::state::GridState;

verus! {

impl GridState {
    /// The section whose header is shown at display row `display_row`.
    pub fn group(&self, display_row: usize) -> (r: Option<&RowGroup>)
        ensures
            r == (if display_row < self.display_rows@.len() {
                match self.display_rows@[display_row as int] {
                    GridDisplayRow::GroupHeader { group } => if group < self.row_groups@.len() {
                        Some(&self.row_groups@[group as int])
                    } else {
                        None
                    },
                    _ => None,
                }
            } else {
                None
            }),
    {
        if display_row < self.display_rows.len() {
            match self.display_rows[display_row] {
                GridDisplayRow::GroupHeader { group } => if group < self.row_groups.len() {
                    Some(&self.row_groups[group])
                } else {
                    None
                },
                _ => None,
            }
        } else {
            None
        }
    }

    /// The 1-based number shown in the row gutter: a data row's position in
    /// the display order (section headers do not count), else the display
    /// row itself.
    pub fn row_number(&self, display_row: usize) -> (n: usize)
        requires
            display_row < usize::MAX,
            display_row < self.display_rows@.len() ==> (self.display_rows@[display_row as int] matches GridDisplayRow::Data { flat_row, .. }
                ==> flat_row < usize::MAX),
        ensures
            n == (if display_row < self.display_rows@.len() {
                match self.display_rows@[display_row as int] {
                    GridDisplayRow::Data { flat_row, .. } => flat_row + 1,
                    _ => display_row + 1,
                }
            } else {
                display_row + 1
            }),
    {
        if display_row < self.display_rows.len() {
            match self.display_rows[display_row] {
                GridDisplayRow::Data { flat_row, .. } => flat_row + 1,
                _ => display_row + 1,
            }
        } else {
            display_row + 1
        }
    }
}

} // verus!
