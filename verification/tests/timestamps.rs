use orb_fdw::cell::{Cell, TypeTag};
use orb_fdw::coerce::coerce;
use orb_fdw::error::OrbFdwError;
use orb_fdw::json::Json;
use orb_fdw::project::project;
use orb_fdw::schema::schema_for;
use orb_fdw::time::{parse_epoch_millis_secs, parse_iso8601};

#[test]
fn iso_epoch_is_zero() {
    assert_eq!(parse_iso8601("1970-01-01T00:00:00Z"), Some(0));
}

#[test]
fn iso_new_year_2023() {
    assert_eq!(parse_iso8601("2023-01-01T00:00:00Z"), Some(1672531200));
}

#[test]
fn iso_coerces_to_utc_instant() {
    let v = Json::Str("2023-01-01T00:00:00Z".to_string());
    let got = coerce(Some(&v), TypeTag::TimestampIso8601);
    assert_eq!(got, Ok(Some(Cell::Timestamp(1672531200))));
}

#[test]
fn iso_malformed_is_invalid_timestamp_format() {
    let v = Json::Str("not-a-date".to_string());
    let got = coerce(Some(&v), TypeTag::TimestampIso8601);
    assert_eq!(got, Err(OrbFdwError::InvalidTimestampFormat("not-a-date".to_string())));
}

#[test]
fn iso_malformed_drops_column_keeps_row() {
    let record = Json::Obj(vec![
        ("id".to_string(), Json::Str("c1".to_string())),
        ("created_at".to_string(), Json::Str("not-a-date".to_string())),
    ]);
    let schema = schema_for(&"customers".to_string()).unwrap();
    let cols = vec!["user_id".to_string(), "created_at".to_string()];
    let (row, err) = project(&record, &schema, &cols);
    assert_eq!(row.cols.len(), 2);
    assert_eq!(row.cols[0], ("user_id".to_string(), Some(Cell::Text("c1".to_string()))));
    assert_eq!(row.cols[1], ("created_at".to_string(), None));
    assert_eq!(err, Some(OrbFdwError::InvalidTimestampFormat("not-a-date".to_string())));
}

#[test]
fn iso_non_string_is_invalid_timestamp_format() {
    let got = coerce(Some(&Json::Int(1672531200)), TypeTag::TimestampIso8601);
    assert_eq!(got, Err(OrbFdwError::InvalidTimestampFormat(String::new())));
}

#[test]
fn iso_offsets_shift_the_instant() {
    assert_eq!(parse_iso8601("2023-01-01T05:30:00+05:30"), Some(1672531200));
    assert_eq!(parse_iso8601("2022-12-31T19:00:00-05:00"), Some(1672531200));
}

#[test]
fn iso_fraction_is_truncated() {
    assert_eq!(parse_iso8601("2023-01-01T00:00:00.999Z"), Some(1672531200));
    assert_eq!(parse_iso8601("2023-01-01T00:00:00.000001Z"), Some(1672531200));
}

#[test]
fn iso_lowercase_and_space_separators() {
    assert_eq!(parse_iso8601("2023-01-01t00:00:00z"), Some(1672531200));
    assert_eq!(parse_iso8601("2023-01-01 00:00:00Z"), Some(1672531200));
}

#[test]
fn iso_rejects_bad_fields() {
    assert_eq!(parse_iso8601("2023-13-01T00:00:00Z"), None);
    assert_eq!(parse_iso8601("2023-00-01T00:00:00Z"), None);
    assert_eq!(parse_iso8601("2023-01-32T00:00:00Z"), None);
    assert_eq!(parse_iso8601("2023-01-01T24:00:00Z"), None);
    assert_eq!(parse_iso8601("2023-01-01T00:60:00Z"), None);
    assert_eq!(parse_iso8601("2023-01-01T00:00:00"), None);
    assert_eq!(parse_iso8601("2023-01-01T00:00:00.Z"), None);
    assert_eq!(parse_iso8601("2023-01-01T00:00:00+25:00"), None);
}

#[test]
fn iso_leap_years() {
    assert_eq!(parse_iso8601("2024-02-29T00:00:00Z"), Some(1709164800));
    assert_eq!(parse_iso8601("2023-02-29T00:00:00Z"), None);
    assert_eq!(parse_iso8601("2000-02-29T00:00:00Z"), Some(951782400));
    assert_eq!(parse_iso8601("1900-02-29T00:00:00Z"), None);
}

#[test]
fn iso_before_the_epoch() {
    assert_eq!(parse_iso8601("1969-12-31T23:59:59Z"), Some(-1));
}

#[test]
fn epoch_millis_integer_division_to_seconds() {
    assert_eq!(parse_epoch_millis_secs("1672531200123"), Some(1672531200));
    assert_eq!(parse_epoch_millis_secs("999"), Some(0));
    assert_eq!(parse_epoch_millis_secs("1000"), Some(1));
    assert_eq!(parse_epoch_millis_secs("0"), Some(0));
}

#[test]
fn epoch_millis_negative_rounds_down() {
    assert_eq!(parse_epoch_millis_secs("-1500"), Some(-2));
    assert_eq!(parse_epoch_millis_secs("-1000"), Some(-1));
    assert_eq!(parse_epoch_millis_secs("-1"), Some(-1));
}

#[test]
fn epoch_millis_malformed_is_rejected() {
    assert_eq!(parse_epoch_millis_secs(""), None);
    assert_eq!(parse_epoch_millis_secs("-"), None);
    assert_eq!(parse_epoch_millis_secs("12a"), None);
    assert_eq!(parse_epoch_millis_secs("1.5"), None);
    assert_eq!(parse_epoch_millis_secs("99999999999999999999999"), None);
}

#[test]
fn epoch_millis_coercion() {
    let v = Json::Str("1672531200123".to_string());
    let got = coerce(Some(&v), TypeTag::TimestampEpochMillis);
    assert_eq!(got, Ok(Some(Cell::Timestamp(1672531200))));
    let bad = Json::Str("today".to_string());
    assert_eq!(
        coerce(Some(&bad), TypeTag::TimestampEpochMillis),
        Err(OrbFdwError::InvalidTimestampFormat("today".to_string()))
    );
}
