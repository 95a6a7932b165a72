use vstd::prelude::*;

use crate::cell::CellView;
use crate::error::{ErrorView, OrbFdwError};
use crate::json::{json_lookup, Json, JsonView};
use crate::project::{name_views, project, projected_row, projected_row_err, Row};
use crate::schema::{schema_for, FieldMappingView, ResourceSchema};

verus! {

broadcast use {
    vstd::std_specs::vec::group_vec_axioms,
    vstd::seq::group_seq_axioms,
    vstd::seq_lib::group_seq_lib_default,
};

/// View of one fetched record: a decoded JSON value, or the message
/// of its decode failure.
pub open spec fn item_view(it: Result<Json, String>) -> Result<JsonView, Seq<char>> {
    match it {
        Result::Ok(j) => Result::Ok(j@),
        Result::Err(m) => Result::Err(m@),
    }
}

pub open spec fn item_views(items: Seq<Result<Json, String>>) -> Seq<Result<JsonView, Seq<char>>> {
    items.map_values(|it: Result<Json, String>| item_view(it))
}

pub open spec fn opt_str_view(c: Option<String>) -> Option<Seq<char>> {
    match c {
        Option::Some(s) => Option::Some(s@),
        Option::None => Option::None,
    }
}

/// One fetched page: its records in source order (a record that
/// failed to decode is kept as its failure message) and the cursor of
/// the next page, absent on the last one.
pub struct Page {
    pub items: Vec<Result<Json, String>>,
    pub next_cursor: Option<String>,
}

pub struct PageView {
    pub items: Seq<Result<JsonView, Seq<char>>>,
    pub next_cursor: Option<Seq<char>>,
}

impl View for Page {
    type V = PageView;

    open spec fn view(&self) -> PageView {
        PageView { items: item_views(self.items@), next_cursor: opt_str_view(self.next_cursor) }
    }
}

/// The records that decoded, in order.
pub open spec fn ok_items(items: Seq<Result<JsonView, Seq<char>>>) -> Seq<JsonView>
    decreases items.len(),
{
    if items.len() == 0 {
        Seq::empty()
    } else {
        match items.last() {
            Result::Ok(o) => ok_items(items.drop_last()).push(o),
            Result::Err(_) => ok_items(items.drop_last()),
        }
    }
}

/// How many records failed to decode.
pub open spec fn skipped_count(items: Seq<Result<JsonView, Seq<char>>>) -> int
    decreases items.len(),
{
    if items.len() == 0 {
        0
    } else {
        skipped_count(items.drop_last()) + (if items.last() is Err {
            1int
        } else {
            0int
        })
    }
}

/// The message of the last decode failure, if any.
pub open spec fn last_decode_err(items: Seq<Result<JsonView, Seq<char>>>) -> Option<Seq<char>>
    decreases items.len(),
{
    if items.len() == 0 {
        Option::None
    } else {
        match items.last() {
            Result::Err(m) => Option::Some(m),
            Result::Ok(_) => last_decode_err(items.drop_last()),
        }
    }
}

pub proof fn lemma_skipped_count_bound(items: Seq<Result<JsonView, Seq<char>>>)
    ensures
        0 <= skipped_count(items) <= items.len(),
    decreases items.len(),
{
    if items.len() > 0 {
        lemma_skipped_count_bound(items.drop_last());
    }
}

/// Keeps the records that decoded, in order, and reports how many
/// were dropped and the last failure message: an item-level decode
/// failure costs that one item, never the page.
#[verifier::loop_isolation(false)]
pub fn process_data(items: &Vec<Result<Json, String>>) -> (out: (Vec<Json>, u64, Option<String>))
    ensures
        out.0@.map_values(|j: Json| j@) == ok_items(item_views(items@)),
        out.1 as int == skipped_count(item_views(items@)),
        opt_str_view(out.2) == last_decode_err(item_views(items@)),
{
    let ghost iv = item_views(items@);
    let mut kept: Vec<Json> = Vec::new();
    let mut skipped: u64 = 0;
    let mut last: Option<String> = Option::None;
    let n = items.len();
    let mut i: usize = 0;
    proof {
        assert(iv.take(0) =~= Seq::empty());
        assert(kept@.map_values(|j: Json| j@) =~= Seq::<JsonView>::empty());
    }
    while i < n
        invariant
            0 <= i <= n,
            kept@.map_values(|j: Json| j@) == ok_items(iv.take(i as int)),
            skipped as int == skipped_count(iv.take(i as int)),
            opt_str_view(last) == last_decode_err(iv.take(i as int)),
        decreases n - i,
    {
        proof {
            assert(iv.take(i + 1).drop_last() =~= iv.take(i as int));
            assert(iv.take(i + 1).last() == iv[i as int]);
            lemma_skipped_count_bound(iv.take(i as int));
        }
        match &items[i] {
            Result::Ok(j) => {
                let ghost before = kept@.map_values(|j: Json| j@);
                let c = j.deep_clone();
                kept.push(c);
                proof {
                    assert(kept@.map_values(|j: Json| j@) =~= before.push(kept@.last()@));
                }
            },
            Result::Err(m) => {
                skipped = skipped + 1;
                last = Option::Some(m.clone());
            },
        }
        i = i + 1;
    }
    proof {
        assert(iv.take(n as int) =~= iv);
    }
    (kept, skipped, last)
}

/// The records of a response document: the document itself when it is
/// an array, else the array under its `data` key, else none.
pub open spec fn envelope_items(v: JsonView) -> Seq<JsonView> {
    match v {
        JsonView::Arr(items) => items,
        JsonView::Obj(_) => match json_lookup(v, "data"@) {
            Option::Some(JsonView::Arr(items)) => items,
            _ => Seq::empty(),
        },
        _ => Seq::empty(),
    }
}

/// The rows a list of records projects to, in record order.
pub open spec fn rows_of_items(
    items: Seq<JsonView>,
    fields: Seq<FieldMappingView>,
    cols: Seq<Seq<char>>,
) -> Seq<Seq<(Seq<char>, Option<CellView>)>> {
    Seq::new(items.len(), |i: int| projected_row(items[i], fields, cols))
}

/// The last coercion error over a list of records, if any.
pub open spec fn items_last_err(
    items: Seq<JsonView>,
    fields: Seq<FieldMappingView>,
    cols: Seq<Seq<char>>,
) -> Option<ErrorView>
    decreases items.len(),
{
    if items.len() == 0 {
        Option::None
    } else {
        match projected_row_err(items.last(), fields, cols) {
            Option::Some(e) => Option::Some(e),
            Option::None => items_last_err(items.drop_last(), fields, cols),
        }
    }
}

/// View of a produced list of rows.
pub open spec fn row_views(rows: Seq<Row>) -> Seq<Seq<(Seq<char>, Option<CellView>)>> {
    rows.map_values(|r: Row| r@)
}

/// Projects every record of a response document, in document order:
/// the whole document when it is an array, else the array under its
/// `data` key, else nothing. Reports the last coercion error; the
/// affected columns are absent, every row is kept.
#[verifier::loop_isolation(false)]
pub fn body_to_rows(resp: &Json, schema: &ResourceSchema, columns: &Vec<String>) -> (out: (
    Vec<Row>,
    Option<OrbFdwError>,
))
    ensures
        row_views(out.0@) == rows_of_items(
            envelope_items(resp@),
            schema@.fields,
            name_views(columns@),
        ),
        (match out.1 {
            Option::Some(e) => items_last_err(
                envelope_items(resp@),
                schema@.fields,
                name_views(columns@),
            ) == Option::Some(e@),
            Option::None => items_last_err(
                envelope_items(resp@),
                schema@.fields,
                name_views(columns@),
            ) is None,
        }),
{
    let ghost fields = schema@.fields;
    let ghost cv = name_views(columns@);
    let empty_items: Vec<Json> = Vec::new();
    let data_key: String = String::from_str("data");
    let items: &Vec<Json>;
    match resp {
        Json::Arr(list) => {
            items = list;
            proof {
                crate::json::lemma_json_views_index(list@);
                assert(envelope_items(resp@) =~= items@.map_values(|j: Json| j@));
            }
        },
        Json::Obj(_) => {
            match resp.get(&data_key) {
                Option::Some(Json::Arr(list)) => {
                    items = list;
                    proof {
                        crate::json::lemma_json_views_index(list@);
                        assert(envelope_items(resp@) =~= items@.map_values(|j: Json| j@));
                    }
                },
                _ => {
                    items = &empty_items;
                    proof {
                        assert(envelope_items(resp@) =~= Seq::<JsonView>::empty());
                        assert(items@.map_values(|j: Json| j@) =~= Seq::<JsonView>::empty());
                    }
                },
            }
        },
        _ => {
            items = &empty_items;
            proof {
                assert(envelope_items(resp@) =~= Seq::<JsonView>::empty());
                assert(items@.map_values(|j: Json| j@) =~= Seq::<JsonView>::empty());
            }
        },
    }
    let ghost ev = envelope_items(resp@);
    let mut rows: Vec<Row> = Vec::new();
    let mut err: Option<OrbFdwError> = Option::None;
    let n = items.len();
    let mut i: usize = 0;
    proof {
        assert(ev.take(0) =~= Seq::<JsonView>::empty());
        assert(row_views(rows@) =~= rows_of_items(ev.take(0), fields, cv));
    }
    while i < n
        invariant
            0 <= i <= n,
            n == items@.len(),
            ev == items@.map_values(|j: Json| j@),
            row_views(rows@) == rows_of_items(ev.take(i as int), fields, cv),
            (match err {
                Option::Some(e) => items_last_err(ev.take(i as int), fields, cv) == Option::Some(
                    e@,
                ),
                Option::None => items_last_err(ev.take(i as int), fields, cv) is None,
            }),
        decreases n - i,
    {
        let ghost before = row_views(rows@);
        let (row, rerr) = project(&items[i], schema, columns);
        rows.push(row);
        match rerr {
            Option::Some(e) => {
                err = Option::Some(e);
            },
            Option::None => {},
        }
        proof {
            assert(ev.take(i + 1).drop_last() =~= ev.take(i as int));
            assert(ev.take(i + 1).last() == ev[i as int]);
            assert(row_views(rows@) =~= before.push(rows@.last()@));
            assert(rows_of_items(ev.take(i + 1), fields, cv) =~= rows_of_items(
                ev.take(i as int),
                fields,
                cv,
            ).push(projected_row(ev[i as int], fields, cv)));
        }
        i = i + 1;
    }
    proof {
        assert(ev.take(n as int) =~= ev);
    }
    (rows, err)
}

/// The records of a response document as the items of one page, each
/// one decoded, with the cursor the caller read off the document.
#[verifier::loop_isolation(false)]
pub fn page_from_document(doc: &Json, next_cursor: Option<String>) -> (p: Page)
    ensures
        p@.items == envelope_items(doc@).map_values(|o: JsonView| Result::<
            JsonView,
            Seq<char>,
        >::Ok(o)),
        p@.next_cursor == opt_str_view(next_cursor),
{
    let empty_items: Vec<Json> = Vec::new();
    let data_key: String = String::from_str("data");
    let list: &Vec<Json>;
    match doc {
        Json::Arr(l) => {
            list = l;
            proof {
                crate::json::lemma_json_views_index(l@);
                assert(envelope_items(doc@) =~= list@.map_values(|j: Json| j@));
            }
        },
        Json::Obj(_) => {
            match doc.get(&data_key) {
                Option::Some(Json::Arr(l)) => {
                    list = l;
                    proof {
                        crate::json::lemma_json_views_index(l@);
                        assert(envelope_items(doc@) =~= list@.map_values(|j: Json| j@));
                    }
                },
                _ => {
                    list = &empty_items;
                    proof {
                        assert(envelope_items(doc@) =~= Seq::<JsonView>::empty());
                        assert(list@.map_values(|j: Json| j@) =~= Seq::<JsonView>::empty());
                    }
                },
            }
        },
        _ => {
            list = &empty_items;
            proof {
                assert(envelope_items(doc@) =~= Seq::<JsonView>::empty());
                assert(list@.map_values(|j: Json| j@) =~= Seq::<JsonView>::empty());
            }
        },
    }
    let ghost ev = envelope_items(doc@);
    let mut items: Vec<Result<Json, String>> = Vec::new();
    let n = list.len();
    let mut i: usize = 0;
    proof {
        assert(item_views(items@) =~= Seq::<Result<JsonView, Seq<char>>>::empty());
        assert(ev.take(0).map_values(|o: JsonView| Result::<JsonView, Seq<char>>::Ok(o)) =~= Seq::<
            Result<JsonView, Seq<char>>,
        >::empty());
    }
    while i < n
        invariant
            0 <= i <= n,
            n == list@.len(),
            ev == list@.map_values(|j: Json| j@),
            item_views(items@) == ev.take(i as int).map_values(
                |o: JsonView| Result::<JsonView, Seq<char>>::Ok(o),
            ),
        decreases n - i,
    {
        let ghost before = item_views(items@);
        let c = list[i].deep_clone();
        items.push(Result::Ok(c));
        proof {
            assert(item_views(items@) =~= before.push(item_view(items@.last())));
            assert(ev.take(i + 1).map_values(|o: JsonView| Result::<JsonView, Seq<char>>::Ok(o))
                =~= before.push(Result::Ok(ev[i as int])));
        }
        i = i + 1;
    }
    proof {
        assert(ev.take(n as int) =~= ev);
    }
    Page { items, next_cursor }
}

/// Looks the resource up in the registry and projects a whole
/// response document with its mapping table; an unknown resource name
/// is an error, never an empty result.
pub fn resp_to_rows(resource: &String, resp: &Json, columns: &Vec<String>) -> (r: Result<
    (Vec<Row>, Option<OrbFdwError>),
    OrbFdwError,
>)
    ensures
        (match r {
            Result::Ok(out) => crate::schema::registered(resource@) && row_views(out.0@)
                == rows_of_items(
                envelope_items(resp@),
                crate::schema::registry_fields(resource@),
                name_views(columns@),
            ),
            Result::Err(e) => !crate::schema::registered(resource@) && e@
                == ErrorView::UnknownResource(resource@),
        }),
{
    let schema = match schema_for(resource) {
        Result::Ok(s) => s,
        Result::Err(e) => {
            return Result::Err(e);
        },
    };
    Result::Ok(body_to_rows(resp, &schema, columns))
}

} // verus!
