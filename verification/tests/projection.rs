use orb_fdw::cell::{Cell, TypeTag};
use orb_fdw::coerce::coerce;
use orb_fdw::error::OrbFdwError;
use orb_fdw::json::Json;
use orb_fdw::page::resp_to_rows;
use orb_fdw::project::project;
use orb_fdw::resolve::resolve;
use orb_fdw::schema::schema_for;

fn obj(entries: Vec<(&str, Json)>) -> Json {
    Json::Obj(entries.into_iter().map(|(k, v)| (k.to_string(), v)).collect())
}

fn s(v: &str) -> Json {
    Json::Str(v.to_string())
}

#[test]
fn resolve_direct_key() {
    let root = obj(vec![("id", s("c1"))]);
    assert_eq!(resolve(&root, "id"), Some(&Json::Str("c1".to_string())));
}

#[test]
fn resolve_nested_path() {
    let root = obj(vec![("customer", obj(vec![("external_customer_id", s("org-7"))]))]);
    let got = resolve(&root, "customer.external_customer_id");
    assert_eq!(got, Some(&Json::Str("org-7".to_string())));
}

#[test]
fn resolve_missing_intermediate_key_is_absent() {
    let root = obj(vec![("other", s("x"))]);
    assert_eq!(resolve(&root, "customer.external_customer_id"), None);
    assert_eq!(resolve(&root, "a.b.c.d.e.f"), None);
    assert_eq!(resolve(&root, "other.deeper"), None);
}

#[test]
fn resolve_on_non_object_is_absent() {
    assert_eq!(resolve(&Json::Null, "id"), None);
    assert_eq!(resolve(&Json::Int(3), "a.b"), None);
    assert_eq!(resolve(&Json::Arr(vec![Json::Int(1)]), "0"), None);
}

#[test]
fn resolve_empty_path_is_absent_on_plain_object() {
    let root = obj(vec![("id", s("c1"))]);
    assert_eq!(resolve(&root, ""), None);
}

#[test]
fn coerce_absent_is_absent_for_every_tag() {
    let tags = [
        TypeTag::Bool,
        TypeTag::Int64,
        TypeTag::Text,
        TypeTag::TimestampEpochMillis,
        TypeTag::TimestampIso8601,
        TypeTag::RawJson,
    ];
    for tag in tags {
        assert_eq!(coerce(None, tag), Ok(None));
    }
}

#[test]
fn coerce_matching_scalars() {
    assert_eq!(coerce(Some(&Json::Bool(true)), TypeTag::Bool), Ok(Some(Cell::Bool(true))));
    assert_eq!(coerce(Some(&Json::Int(-42)), TypeTag::Int64), Ok(Some(Cell::Int64(-42))));
    assert_eq!(
        coerce(Some(&Json::Str("hi".to_string())), TypeTag::Text),
        Ok(Some(Cell::Text("hi".to_string())))
    );
}

#[test]
fn coerce_type_mismatch_is_absent_not_error() {
    assert_eq!(coerce(Some(&Json::Int(1)), TypeTag::Bool), Ok(None));
    assert_eq!(coerce(Some(&Json::Str("1".to_string())), TypeTag::Int64), Ok(None));
    assert_eq!(coerce(Some(&Json::Null), TypeTag::Text), Ok(None));
}

#[test]
fn coerce_raw_json_wraps_verbatim() {
    let v = obj(vec![("k", Json::Arr(vec![Json::Int(1), Json::Null]))]);
    let got = coerce(Some(&v), TypeTag::RawJson);
    assert_eq!(got, Ok(Some(Cell::Json(v))));
}

#[test]
fn project_is_idempotent() {
    let record = obj(vec![("id", s("c9")), ("email", s("a@b.com"))]);
    let schema = schema_for(&"customers".to_string()).unwrap();
    let cols = vec!["user_id".to_string(), "email".to_string(), "attrs".to_string()];
    let (r1, e1) = project(&record, &schema, &cols);
    let (r2, e2) = project(&record, &schema, &cols);
    assert_eq!(r1.cols, r2.cols);
    assert_eq!(e1, e2);
}

#[test]
fn project_unrequested_columns_are_not_in_the_row() {
    let record = obj(vec![("id", s("c9")), ("email", s("a@b.com"))]);
    let schema = schema_for(&"customers".to_string()).unwrap();
    let cols = vec!["email".to_string()];
    let (row, _) = project(&record, &schema, &cols);
    assert_eq!(row.len(), 1);
    assert_eq!(row.cols[0].0, "email");
}

#[test]
fn project_unknown_column_stays_absent() {
    let record = obj(vec![("id", s("c9"))]);
    let schema = schema_for(&"customers".to_string()).unwrap();
    let cols = vec!["no_such_column".to_string()];
    let (row, err) = project(&record, &schema, &cols);
    assert_eq!(row.cols.len(), 1);
    assert_eq!(row.cols[0], ("no_such_column".to_string(), None));
    assert_eq!(err, None);
}

#[test]
fn project_attrs_holds_whole_record_even_if_unmapped() {
    let record = obj(vec![("id", s("c1")), ("email", s("a@b.com")), ("name", s("A"))]);
    let schema = schema_for(&"customers".to_string()).unwrap();
    let cols = vec!["attrs".to_string()];
    let (row, _) = project(&record, &schema, &cols);
    assert_eq!(row.cols[0], ("attrs".to_string(), Some(Cell::Json(record))));
}

#[test]
fn end_to_end_customers_projection() {
    let record = obj(vec![("id", s("c1")), ("email", s("a@b.com")), ("name", s("A"))]);
    let resp = obj(vec![("data", Json::Arr(vec![record.deep_clone()]))]);
    let cols = vec!["user_id".to_string(), "email".to_string(), "attrs".to_string()];
    let (rows, _) = resp_to_rows(&"customers".to_string(), &resp, &cols).unwrap();
    assert_eq!(rows.len(), 1);
    let row = &rows[0];
    assert_eq!(row.cols[0], ("user_id".to_string(), Some(Cell::Text("c1".to_string()))));
    assert_eq!(row.cols[1], ("email".to_string(), Some(Cell::Text("a@b.com".to_string()))));
    assert_eq!(row.cols[2], ("attrs".to_string(), Some(Cell::Json(record))));
}

#[test]
fn envelope_without_array_or_data_yields_zero_rows() {
    let schema = schema_for(&"customers".to_string()).unwrap();
    let cols = vec!["user_id".to_string()];
    let resp = obj(vec![("message", s("no data here"))]);
    let (rows, err) = orb_fdw::page::body_to_rows(&resp, &schema, &cols);
    assert_eq!(rows.len(), 0);
    assert_eq!(err, None);
    let (rows2, _) = orb_fdw::page::body_to_rows(&Json::Int(5), &schema, &cols);
    assert_eq!(rows2.len(), 0);
}

#[test]
fn envelope_direct_array_is_accepted() {
    let schema = schema_for(&"customers".to_string()).unwrap();
    let cols = vec!["user_id".to_string()];
    let resp = Json::Arr(vec![obj(vec![("id", s("a"))]), obj(vec![("id", s("b"))])]);
    let (rows, _) = orb_fdw::page::body_to_rows(&resp, &schema, &cols);
    assert_eq!(rows.len(), 2);
    assert_eq!(rows[0].cols[0].1, Some(Cell::Text("a".to_string())));
    assert_eq!(rows[1].cols[0].1, Some(Cell::Text("b".to_string())));
}

#[test]
fn unknown_resource_projection_is_an_error() {
    let resp = Json::Arr(vec![]);
    let cols = vec!["user_id".to_string()];
    let got = resp_to_rows(&"widgets".to_string(), &resp, &cols);
    assert_eq!(got, Err(OrbFdwError::UnknownResource("widgets".to_string())));
}

#[test]
fn split_path_separates_on_every_dot() {
    let segs = orb_fdw::resolve::split_path("customer.external_customer_id");
    assert_eq!(segs, vec!["customer".to_string(), "external_customer_id".to_string()]);
    assert_eq!(orb_fdw::resolve::split_path("id"), vec!["id".to_string()]);
    assert_eq!(orb_fdw::resolve::split_path(""), vec!["".to_string()]);
    assert_eq!(
        orb_fdw::resolve::split_path("a..b"),
        vec!["a".to_string(), "".to_string(), "b".to_string()]
    );
}

#[test]
fn json_get_finds_only_object_keys() {
    let root = obj(vec![("id", s("c1")), ("email", s("a@b.com"))]);
    assert_eq!(root.get(&"email".to_string()), Some(&Json::Str("a@b.com".to_string())));
    assert_eq!(root.get(&"missing".to_string()), None);
    assert_eq!(Json::Arr(vec![s("x")]).get(&"0".to_string()), None);
}

#[test]
fn page_from_document_takes_the_data_array_and_cursor() {
    let doc = obj(vec![
        ("data", Json::Arr(vec![obj(vec![("id", s("r1"))]), obj(vec![("id", s("r2"))])])),
        (
            "pagination_metadata",
            obj(vec![("next_cursor", s("cur-2"))]),
        ),
    ]);
    let p = orb_fdw::page::page_from_document(&doc, Some("cur-2".to_string()));
    assert_eq!(p.items.len(), 2);
    assert_eq!(p.items[0], Ok(obj(vec![("id", s("r1"))])));
    assert_eq!(p.next_cursor, Some("cur-2".to_string()));
    let flat = Json::Arr(vec![obj(vec![("id", s("only"))])]);
    let p2 = orb_fdw::page::page_from_document(&flat, None);
    assert_eq!(p2.items.len(), 1);
    assert_eq!(p2.next_cursor, None);
}
