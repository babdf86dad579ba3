//! Typed cells of the row-oriented persistence format.
//!
//! The table-store collaborator types every cell as an integer, a string,
//! or an empty cell. The row format uses integers for image ids, the
//! string `"-"` as the sentinel for "no image on this channel", and empty
//! cells for "no tile recorded here". Any other string is malformed data.

use vstd::prelude::*;

verus! {

/// One persisted table cell, as the table store types them.
#[derive(Clone, Debug, PartialEq)]
pub enum Cell {
    Int(i64),
    Str(String),
    Empty,
}

/// The abstract value of a cell, as the row format reads it: an integer,
/// the `"-"` sentinel, some other (malformed) string, or an empty cell.
#[derive(Clone, Copy, Debug, PartialEq, Eq)]
pub enum CellVal {
    Int(i64),
    Dash,
    Other,
    Empty,
}

impl View for Cell {
    type V = CellVal;

    open spec fn view(&self) -> CellVal {
        match self {
            Cell::Int(v) => CellVal::Int(*v),
            Cell::Str(s) => if s@ == "-"@ {
                CellVal::Dash
            } else {
                CellVal::Other
            },
            Cell::Empty => CellVal::Empty,
        }
    }
}

impl Cell {
    /// The `"-"` sentinel cell.
    pub fn dash() -> (c: Cell)
        ensures
            c@ == CellVal::Dash,
    {
        Cell::Str("-".to_owned())
    }

    /// Read off the abstract value this cell carries.
    pub fn classify(&self) -> (v: CellVal)
        ensures
            v == self@,
    {
        match self {
            Cell::Int(i) => CellVal::Int(*i),
            Cell::Str(s) => {
                let d: String = "-".to_owned();
                if *s == d {
                    CellVal::Dash
                } else {
                    CellVal::Other
                }
            },
            Cell::Empty => CellVal::Empty,
        }
    }
}

/// The abstract values of a sequence of cells.
pub open spec fn cells_view(s: Seq<Cell>) -> Seq<CellVal> {
    s.map_values(|c: Cell| c@)
}

/// The abstract values of a sequence of rows of cells.
pub open spec fn rows_view(rs: Seq<Vec<Cell>>) -> Seq<Seq<CellVal>> {
    rs.map_values(|r: Vec<Cell>| cells_view(r@))
}

/// A typed data-format error raised while parsing persisted rows.
#[derive(Clone, Copy, Debug, PartialEq, Eq)]
pub enum DataError {
    /// A required integer field of a row is missing, of the wrong type, or
    /// out of the range the row format allows.
    MalformedRow,
    /// A bg/fg cell is neither an integer, the `"-"` sentinel, nor empty.
    MalformedCell,
}

impl DataError {
    /// A descriptive message for the error.
    pub fn message(&self) -> (m: &'static str)
        ensures
            *self is MalformedRow ==> m@ == "invalid chunk data"@,
            *self is MalformedCell ==> m@ == "invalid tile entry"@,
    {
        match self {
            DataError::MalformedRow => "invalid chunk data",
            DataError::MalformedCell => "invalid tile entry",
        }
    }
}

} // verus!
