use vstd::prelude::*;

use crate::json::{Json, JsonView};

verus! {

/// Declared target type of a mapped column.
#[derive(Clone, Copy, Debug, PartialEq, Eq)]
pub enum TypeTag {
    Bool,
    Int64,
    Text,
    TimestampEpochMillis,
    TimestampIso8601,
    RawJson,
}

/// Spec-level shape of a typed cell; a timestamp is an absolute UTC
/// instant counted in whole seconds since 1970-01-01T00:00:00Z.
pub enum CellView {
    Bool(bool),
    Int64(int),
    Text(Seq<char>),
    Timestamp(int),
    Json(JsonView),
    Null,
}

/// One typed value of a produced row.
#[derive(Debug, PartialEq)]
pub enum Cell {
    Bool(bool),
    Int64(i64),
    Text(String),
    Timestamp(i64),
    Json(Json),
    Null,
}

impl View for Cell {
    type V = CellView;

    open spec fn view(&self) -> CellView {
        match self {
            Cell::Bool(b) => CellView::Bool(*b),
            Cell::Int64(i) => CellView::Int64(*i as int),
            Cell::Text(s) => CellView::Text(s@),
            Cell::Timestamp(t) => CellView::Timestamp(*t as int),
            Cell::Json(j) => CellView::Json(j@),
            Cell::Null => CellView::Null,
        }
    }
}

} // verus!
