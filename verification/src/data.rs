//! Cell values, column metadata and the rectangular row store the grid reads.
use vstd::prelude::*;

verus! {

/// Logical type of a column; selects formatting and the filter operator set.
#[derive(Clone, Copy, Debug, PartialEq, Eq, Hash, Structural)]
pub enum ColumnKind {
    Integer,
    Decimal,
    Text,
    Date,
    Boolean,
}

/// One cell of the grid.
#[derive(Clone, Debug, PartialEq, Eq)]
pub enum CellValue {
    Integer(i64),
    Text(String),
    /// A calendar date as a day number (days since 1970-01-01).
    Date(i64),
    Boolean(bool),
    Null,
}

/// A copy of `cell` that is equal to it.
pub fn copy_cell(cell: &CellValue) -> (r: CellValue)
    ensures
        r == *cell,
{
    match cell {
        CellValue::Integer(v) => CellValue::Integer(*v),
        CellValue::Text(s) => CellValue::Text(s.clone()),
        CellValue::Date(d) => CellValue::Date(*d),
        CellValue::Boolean(b) => CellValue::Boolean(*b),
        CellValue::Null => CellValue::Null,
    }
}

/// Column metadata: its name and logical kind.
#[derive(Clone, Debug)]
pub struct Column {
    pub name: String,
    pub kind: ColumnKind,
}

/// Rejection of non-rectangular row data.
#[derive(Clone, Debug, PartialEq, Eq, Structural)]
pub enum GridDataError {
    /// Row `row_index` has `actual` cells where `expected` were required.
    RaggedRow { row_index: usize, expected: usize, actual: usize },
}

/// Every row of `rows` has exactly `width` cells.
pub open spec fn rectangular(rows: Seq<Vec<CellValue>>, width: nat) -> bool {
    forall|i: int| 0 <= i < rows.len() ==> #[trigger] rows[i].len() == width
}

/// Index of the first row of `rows` whose length differs from `width`, if any.
pub open spec fn first_ragged(rows: Seq<Vec<CellValue>>, width: nat) -> Option<int>
    decreases rows.len(),
{
    if rows.len() == 0 {
        None
    } else if rows[0].len() != width {
        Some(0)
    } else {
        match first_ragged(rows.drop_first(), width) {
            Some(i) => Some(i + 1),
            None => None,
        }
    }
}

pub proof fn lemma_first_ragged(rows: Seq<Vec<CellValue>>, width: nat)
    ensures
        first_ragged(rows, width) is None <==> rectangular(rows, width),
        first_ragged(rows, width) matches Some(i) ==> {
            &&& 0 <= i < rows.len()
            &&& rows[i].len() != width
            &&& rectangular(rows.take(i), width)
        },
    decreases rows.len(),
{
    if rows.len() > 0 {
        lemma_first_ragged(rows.drop_first(), width);
        if rows[0].len() == width {
            if first_ragged(rows.drop_first(), width) is None {
                assert forall|i: int| 0 <= i < rows.len() implies #[trigger] rows[i].len() == width by {
                    if i > 0 {
                        assert(rows[i] == rows.drop_first()[i - 1]);
                    }
                }
            } else {
                let j = first_ragged(rows.drop_first(), width)->0;
                assert forall|i: int| 0 <= i < j + 1 implies #[trigger] rows.take(j + 1)[i].len() == width by {
                    if i > 0 {
                        assert(rows.take(j + 1)[i] == rows.drop_first().take(j)[i - 1]);
                    }
                }
            }
        }
    }
}

/// Find the first row whose length is not `width`.
pub fn find_ragged_row(rows: &Vec<Vec<CellValue>>, width: usize) -> (r: Option<usize>)
    ensures
        r matches Some(i) ==> first_ragged(rows@, width as nat) == Some(i as int),
        r is None ==> first_ragged(rows@, width as nat) is None,
{
    proof {
        lemma_first_ragged(rows@, width as nat);
    }
    let mut i: usize = 0;
    while i < rows.len()
        invariant
            i <= rows.len(),
            rectangular(rows@.take(i as int), width as nat),
        decreases rows.len() - i,
    {
        if rows[i].len() != width {
            proof {
                assert(rows@.take(i as int) =~= rows@.take(i as int));
                lemma_first_ragged_at(rows@, width as nat, i as int);
            }
            return Some(i);
        }
        assert(rows@.take(i as int + 1) =~= rows@.take(i as int).push(rows@[i as int]));
        i += 1;
    }
    assert(rows@.take(i as int) =~= rows@);
    None
}

/// If the first `i` rows are full and row `i` is ragged, row `i` is the first ragged one.
proof fn lemma_first_ragged_at(rows: Seq<Vec<CellValue>>, width: nat, i: int)
    requires
        0 <= i < rows.len(),
        rectangular(rows.take(i), width),
        rows[i].len() != width,
    ensures
        first_ragged(rows, width) == Some(i),
    decreases i,
{
    if i > 0 {
        assert(rows.take(i)[0] == rows[0]);
        let tail = rows.drop_first();
        assert forall|k: int| 0 <= k < i - 1 implies #[trigger] tail.take(i - 1)[k].len() == width by {
            assert(tail.take(i - 1)[k] == rows.take(i)[k + 1]);
        }
        lemma_first_ragged_at(tail, width, i - 1);
    }
}

/// Columns plus rectangular row data.
#[derive(Clone, Debug)]
pub struct GridData {
    pub columns: Vec<Column>,
    pub rows: Vec<Vec<CellValue>>,
}

impl GridData {
    /// Every row has one cell per column.
    pub open spec fn wf(&self) -> bool {
        rectangular(self.rows@, self.columns@.len())
    }

    /// Build grid data, rejecting the first row whose length differs from the
    /// column count.
    pub fn new(columns: Vec<Column>, rows: Vec<Vec<CellValue>>) -> (r: Result<Self, GridDataError>)
        ensures
            rectangular(rows@, columns@.len()) ==> (r matches Ok(d) && d.columns == columns && d.rows == rows),
            !rectangular(rows@, columns@.len()) ==> (r matches Err(GridDataError::RaggedRow { row_index, expected, actual })
                && first_ragged(rows@, columns@.len()) == Some(row_index as int)
                && expected == columns@.len()
                && actual == rows@[row_index as int].len()),
    {
        proof {
            lemma_first_ragged(rows@, columns@.len());
        }
        match find_ragged_row(&rows, columns.len()) {
            Some(i) => Err(GridDataError::RaggedRow { row_index: i, expected: columns.len(), actual: rows[i].len() }),
            None => Ok(GridData { columns, rows }),
        }
    }
}

} // verus!
