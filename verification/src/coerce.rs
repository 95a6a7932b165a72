use vstd::prelude::*;

use crate::cell::{Cell, CellView, TypeTag};
use crate::error::{ErrorView, OrbFdwError};
use crate::json::{Json, JsonView};
use crate::time::{
    epoch_millis_val, epoch_millis_valid, iso_instant, iso_valid, millis_to_secs,
    parse_epoch_millis_secs, parse_iso8601,
};

verus! {

/// What coercing a resolved value to a declared type yields.
///
/// An absent input stays absent. A scalar tag accepts exactly its own
/// JSON type and tolerates any other as absent (upstream schema
/// drift). The timestamp tags demand a string of the right shape and
/// report any other input as `InvalidTimestampFormat`, carrying the
/// offending string (an empty payload when the input was no string at
/// all). `RawJson` wraps the value verbatim.
pub open spec fn coerce_spec(v: Option<JsonView>, t: TypeTag) -> Result<
    Option<CellView>,
    ErrorView,
> {
    match v {
        Option::None => Result::Ok(Option::None),
        Option::Some(jv) => match t {
            TypeTag::Bool => match jv {
                JsonView::Bool(b) => Result::Ok(Option::Some(CellView::Bool(b))),
                _ => Result::Ok(Option::None),
            },
            TypeTag::Int64 => match jv {
                JsonView::Int(i) => Result::Ok(Option::Some(CellView::Int64(i))),
                _ => Result::Ok(Option::None),
            },
            TypeTag::Text => match jv {
                JsonView::Str(s) => Result::Ok(Option::Some(CellView::Text(s))),
                _ => Result::Ok(Option::None),
            },
            TypeTag::TimestampEpochMillis => match jv {
                JsonView::Str(s) => if epoch_millis_valid(s) {
                    Result::Ok(
                        Option::Some(CellView::Timestamp(millis_to_secs(epoch_millis_val(s)))),
                    )
                } else {
                    Result::Err(ErrorView::InvalidTimestampFormat(s))
                },
                _ => Result::Err(ErrorView::InvalidTimestampFormat(Seq::empty())),
            },
            TypeTag::TimestampIso8601 => match jv {
                JsonView::Str(s) => if iso_valid(s) {
                    Result::Ok(Option::Some(CellView::Timestamp(iso_instant(s))))
                } else {
                    Result::Err(ErrorView::InvalidTimestampFormat(s))
                },
                _ => Result::Err(ErrorView::InvalidTimestampFormat(Seq::empty())),
            },
            TypeTag::RawJson => Result::Ok(Option::Some(CellView::Json(jv))),
        },
    }
}

/// View of an optional borrowed JSON value.
pub open spec fn opt_json_view(v: Option<&Json>) -> Option<JsonView> {
    match v {
        Option::Some(j) => Option::Some(j@),
        Option::None => Option::None,
    }
}

/// View of a coercion result.
pub open spec fn coerce_result_view(r: Result<Option<Cell>, OrbFdwError>) -> Result<
    Option<CellView>,
    ErrorView,
> {
    match r {
        Result::Ok(Option::Some(c)) => Result::Ok(Option::Some(c@)),
        Result::Ok(Option::None) => Result::Ok(Option::None),
        Result::Err(e) => Result::Err(e@),
    }
}

/// Converts a resolved JSON value (or its absence) into a typed cell
/// per the declared target type.
pub fn coerce(v: Option<&Json>, t: TypeTag) -> (r: Result<Option<Cell>, OrbFdwError>)
    ensures
        coerce_result_view(r) == coerce_spec(opt_json_view(v), t),
{
    let j = match v {
        Option::Some(j) => j,
        Option::None => {
            return Result::Ok(Option::None);
        },
    };
    match t {
        TypeTag::Bool => match j {
            Json::Bool(b) => Result::Ok(Option::Some(Cell::Bool(*b))),
            _ => Result::Ok(Option::None),
        },
        TypeTag::Int64 => match j {
            Json::Int(i) => Result::Ok(Option::Some(Cell::Int64(*i))),
            _ => Result::Ok(Option::None),
        },
        TypeTag::Text => match j {
            Json::Str(s) => Result::Ok(Option::Some(Cell::Text(s.clone()))),
            _ => Result::Ok(Option::None),
        },
        TypeTag::TimestampEpochMillis => match j {
            Json::Str(s) => match parse_epoch_millis_secs(s.as_str()) {
                Option::Some(secs) => Result::Ok(Option::Some(Cell::Timestamp(secs))),
                Option::None => Result::Err(OrbFdwError::InvalidTimestampFormat(s.clone())),
            },
            _ => Result::Err(OrbFdwError::InvalidTimestampFormat(String::new())),
        },
        TypeTag::TimestampIso8601 => match j {
            Json::Str(s) => match parse_iso8601(s.as_str()) {
                Option::Some(secs) => Result::Ok(Option::Some(Cell::Timestamp(secs))),
                Option::None => Result::Err(OrbFdwError::InvalidTimestampFormat(s.clone())),
            },
            _ => Result::Err(OrbFdwError::InvalidTimestampFormat(String::new())),
        },
        TypeTag::RawJson => Result::Ok(Option::Some(Cell::Json(j.deep_clone()))),
    }
}

/// Coercion of an absent value is absent, never an error, whatever
/// the declared type.
pub proof fn lemma_coerce_absent(t: TypeTag)
    ensures
        coerce_spec(Option::None, t) == Result::<Option<CellView>, ErrorView>::Ok(
            Option::<CellView>::None,
        ),
{
}

} // verus!
