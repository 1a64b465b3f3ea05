//! Pieces of the debug status line: which column and row a hit lies on, and
//! their rendering.
use vstd::prelude::*;
use crate::selection::HitResult;
use crate::text::{decimal, push_decimal};
use crate::text_input::push_str;

verus! {

/// `(column, row)` that a hit lies on: both for a cell, the row for a row
/// header, the column for a header or sort button.
pub open spec fn hit_col_row(hit: Option<HitResult>) -> (Option<usize>, Option<usize>) {
    match hit {
        Some(HitResult::Cell(r, c)) => (Some(c), Some(r)),
        Some(HitResult::RowHeader(r)) => (None, Some(r)),
        Some(HitResult::ColumnHeader(c)) => (Some(c), None),
        Some(HitResult::SortButton(c)) => (Some(c), None),
        _ => (None, None),
    }
}

/// Column and row of a hit (see [`hit_col_row`]).
pub fn col_row_from_hit(hit: Option<HitResult>) -> (r: (Option<usize>, Option<usize>))
    ensures
        r == hit_col_row(hit),
{
    match hit {
        Some(HitResult::Cell(r, c)) => (Some(c), Some(r)),
        Some(HitResult::RowHeader(r)) => (None, Some(r)),
        Some(HitResult::ColumnHeader(c)) | Some(HitResult::SortButton(c)) => (Some(c), None),
        _ => (None, None),
    }
}

/// `(col C, row R)`, `(col C)`, `(row R)`, or an em dash when neither.
pub open spec fn col_row_text(c: Option<usize>, r: Option<usize>) -> Seq<char> {
    match (c, r) {
        (Some(c), Some(r)) => "(col "@ + decimal(c as nat) + ", row "@ + decimal(r as nat) + ")"@,
        (Some(c), None) => "(col "@ + decimal(c as nat) + ")"@,
        (None, Some(r)) => "(row "@ + decimal(r as nat) + ")"@,
        (None, None) => "\u{2014}"@,
    }
}

/// Render a column/row pair for the status line (see [`col_row_text`]).
pub fn fmt_cr(c: Option<usize>, r: Option<usize>) -> (s: String)
    ensures
        s@ == col_row_text(c, r),
{
    let mut out = String::new();
    match (c, r) {
        (Some(c), Some(r)) => {
            push_str(&mut out, "(col ");
            push_decimal(&mut out, c);
            push_str(&mut out, ", row ");
            push_decimal(&mut out, r);
            push_str(&mut out, ")");
        },
        (Some(c), None) => {
            push_str(&mut out, "(col ");
            push_decimal(&mut out, c);
            push_str(&mut out, ")");
        },
        (None, Some(r)) => {
            push_str(&mut out, "(row ");
            push_decimal(&mut out, r);
            push_str(&mut out, ")");
        },
        (None, None) => {
            push_str(&mut out, "\u{2014}");
        },
    }
    assert(out@ =~= col_row_text(c, r));
    out
}

} // verus!
