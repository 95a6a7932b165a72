use vstd::prelude::*;

use crate::cell::{Cell, CellView};
use crate::coerce::{coerce, coerce_spec};
use crate::error::{ErrorView, OrbFdwError};
use crate::json::{Json, JsonView};
use crate::resolve::{resolve, resolve_path};
use crate::schema::{FieldMapping, FieldMappingView, ResourceSchema};

verus! {

broadcast use {
    vstd::std_specs::vec::group_vec_axioms,
    vstd::seq::group_seq_axioms,
    vstd::seq_lib::group_seq_lib_default,
};

/// View of an optional cell.
pub open spec fn opt_cell_view(c: Option<Cell>) -> Option<CellView> {
    match c {
        Option::Some(cell) => Option::Some(cell@),
        Option::None => Option::None,
    }
}

/// One produced row: the requested columns in order, each holding a
/// typed cell or nothing.
#[derive(Debug, PartialEq)]
pub struct Row {
    pub cols: Vec<(String, Option<Cell>)>,
}

impl View for Row {
    type V = Seq<(Seq<char>, Option<CellView>)>;

    open spec fn view(&self) -> Seq<(Seq<char>, Option<CellView>)> {
        self.cols@.map_values(|c: (String, Option<Cell>)| (c.0@, opt_cell_view(c.1)))
    }
}

impl Row {
    pub fn new() -> (r: Row)
        ensures
            r@ =~= Seq::<(Seq<char>, Option<CellView>)>::empty(),
    {
        let r = Row { cols: Vec::new() };
        proof {
            assert(r@ =~= Seq::<(Seq<char>, Option<CellView>)>::empty());
        }
        r
    }

    pub fn push(&mut self, column: String, cell: Option<Cell>)
        ensures
            final(self)@ =~= old(self)@.push((column@, opt_cell_view(cell))),
    {
        let ghost before = self@;
        self.cols.push((column, cell));
        proof {
            assert(self@ =~= before.push((self.cols@.last().0@, opt_cell_view(
                self.cols@.last().1,
            ))));
        }
    }

    pub fn len(&self) -> (n: usize)
        ensures
            n == self@.len(),
    {
        self.cols.len()
    }
}

/// Views of a list of column names.
pub open spec fn name_views(names: Seq<String>) -> Seq<Seq<char>> {
    names.map_values(|n: String| n@)
}

/// First mapping whose target column is `name`, if any.
pub open spec fn find_mapping(fields: Seq<FieldMappingView>, name: Seq<char>) -> Option<
    FieldMappingView,
>
    decreases fields.len(),
{
    if fields.len() == 0 {
        Option::None
    } else if fields[0].target_column == name {
        Option::Some(fields[0])
    } else {
        find_mapping(fields.drop_first(), name)
    }
}

proof fn lemma_find_mapping_skip(fields: Seq<FieldMappingView>, name: Seq<char>, i: int)
    requires
        0 <= i <= fields.len(),
        forall|j: int| 0 <= j < i ==> fields[j].target_column != name,
    ensures
        find_mapping(fields, name) == find_mapping(fields.skip(i), name),
    decreases i,
{
    if i > 0 {
        assert(fields.drop_first().skip(i - 1) =~= fields.skip(i));
        lemma_find_mapping_skip(fields.drop_first(), name, i - 1);
    } else {
        assert(fields.skip(0) =~= fields);
    }
}

#[verifier::loop_isolation(false)]
fn find_mapping_x<'a>(fields: &'a Vec<FieldMapping>, name: &String) -> (r: Option<
    &'a FieldMapping,
>)
    ensures
        (match r {
            Option::Some(f) => find_mapping(fields@.map_values(|f: FieldMapping| f@), name@)
                == Option::Some(f@),
            Option::None => find_mapping(fields@.map_values(|f: FieldMapping| f@), name@) is None,
        }),
{
    let ghost fv = fields@.map_values(|f: FieldMapping| f@);
    let n = fields.len();
    let mut i: usize = 0;
    while i < n
        invariant
            0 <= i <= n,
            forall|j: int| 0 <= j < i ==> fv[j].target_column != name@,
        decreases n - i,
    {
        if fields[i].target_column == *name {
            proof {
                lemma_find_mapping_skip(fv, name@, i as int);
                assert(fv.skip(i as int)[0] == fv[i as int]);
            }
            return Option::Some(&fields[i]);
        }
        i = i + 1;
    }
    proof {
        lemma_find_mapping_skip(fv, name@, n as int);
        assert(fv.skip(n as int) =~= Seq::empty());
    }
    Option::None
}

/// The cell a requested column gets from one record: the whole record
/// for the catch-all `attrs` column; otherwise the mapped source path
/// resolved and coerced, a coercion error dropping the one column
/// (the row itself is kept).
pub open spec fn projected_cell(
    obj: JsonView,
    fields: Seq<FieldMappingView>,
    name: Seq<char>,
) -> Option<CellView> {
    if name == "attrs"@ {
        Option::Some(CellView::Json(obj))
    } else {
        match find_mapping(fields, name) {
            Option::None => Option::None,
            Option::Some(fm) => match coerce_spec(resolve_path(obj, fm.source_path), fm.tag) {
                Result::Ok(c) => c,
                Result::Err(_) => Option::None,
            },
        }
    }
}

/// The coercion error a requested column runs into, if any.
pub open spec fn projected_cell_err(
    obj: JsonView,
    fields: Seq<FieldMappingView>,
    name: Seq<char>,
) -> Option<ErrorView> {
    if name == "attrs"@ {
        Option::None
    } else {
        match find_mapping(fields, name) {
            Option::None => Option::None,
            Option::Some(fm) => match coerce_spec(resolve_path(obj, fm.source_path), fm.tag) {
                Result::Ok(_) => Option::None,
                Result::Err(e) => Option::Some(e),
            },
        }
    }
}

/// The row one record projects to: the requested columns in their
/// order, each with `projected_cell`.
pub open spec fn projected_row(
    obj: JsonView,
    fields: Seq<FieldMappingView>,
    cols: Seq<Seq<char>>,
) -> Seq<(Seq<char>, Option<CellView>)> {
    Seq::new(cols.len(), |i: int| (cols[i], projected_cell(obj, fields, cols[i])))
}

/// The last coercion error among the requested columns, if any.
pub open spec fn projected_row_err(
    obj: JsonView,
    fields: Seq<FieldMappingView>,
    cols: Seq<Seq<char>>,
) -> Option<ErrorView>
    decreases cols.len(),
{
    if cols.len() == 0 {
        Option::None
    } else {
        match projected_cell_err(obj, fields, cols.last()) {
            Option::Some(e) => Option::Some(e),
            Option::None => projected_row_err(obj, fields, cols.drop_last()),
        }
    }
}

/// Projects one record: for each requested column in order, the
/// mapped value, with the catch-all `attrs` column carrying the whole
/// record. Also reports the last coercion error, the affected columns
/// having been left absent.
#[verifier::loop_isolation(false)]
pub fn project(obj: &Json, schema: &ResourceSchema, columns: &Vec<String>) -> (out: (
    Row,
    Option<OrbFdwError>,
))
    ensures
        out.0@ == projected_row(obj@, schema@.fields, name_views(columns@)),
        (match out.1 {
            Option::Some(e) => projected_row_err(obj@, schema@.fields, name_views(columns@))
                == Option::Some(e@),
            Option::None => projected_row_err(obj@, schema@.fields, name_views(columns@)) is None,
        }),
{
    let ghost fields = schema@.fields;
    let ghost cv = name_views(columns@);
    let attrs: String = String::from_str("attrs");
    let mut row = Row::new();
    let mut err: Option<OrbFdwError> = Option::None;
    let n = columns.len();
    let mut i: usize = 0;
    proof {
        assert(cv.take(0) =~= Seq::empty());
    }
    while i < n
        invariant
            0 <= i <= n,
            row@ =~= projected_row(obj@, fields, cv).take(i as int),
            (match err {
                Option::Some(e) => projected_row_err(obj@, fields, cv.take(i as int))
                    == Option::Some(e@),
                Option::None => projected_row_err(obj@, fields, cv.take(i as int)) is None,
            }),
        decreases n - i,
    {
        let name = &columns[i];
        let cell: Option<Cell>;
        if *name == attrs {
            cell = Option::Some(Cell::Json(obj.deep_clone()));
        } else {
            match find_mapping_x(&schema.fields, name) {
                Option::None => {
                    cell = Option::None;
                },
                Option::Some(fm) => {
                    let v = resolve(obj, fm.source_path.as_str());
                    match coerce(v, fm.tag) {
                        Result::Ok(c) => {
                            cell = c;
                        },
                        Result::Err(e) => {
                            cell = Option::None;
                            err = Option::Some(e);
                        },
                    }
                },
            }
        }
        proof {
            assert(cv.take(i + 1).drop_last() =~= cv.take(i as int));
            assert(cv.take(i + 1).last() == cv[i as int]);
            assert(projected_row(obj@, fields, cv).take(i + 1) =~= projected_row(
                obj@,
                fields,
                cv,
            ).take(i as int).push((cv[i as int], projected_cell(obj@, fields, cv[i as int]))));
        }
        row.push(name.clone(), cell);
        i = i + 1;
    }
    proof {
        assert(cv.take(n as int) =~= cv);
        assert(projected_row(obj@, fields, cv).take(n as int) =~= projected_row(
            obj@,
            fields,
            cv,
        ));
    }
    (row, err)
}

/// Projection is a function of the record, the mapping table and the
/// requested columns alone: two projections of the same inputs are
/// the same row.
pub proof fn lemma_project_deterministic(
    obj: JsonView,
    fields: Seq<FieldMappingView>,
    cols: Seq<Seq<char>>,
    r1: Seq<(Seq<char>, Option<CellView>)>,
    r2: Seq<(Seq<char>, Option<CellView>)>,
)
    requires
        r1 == projected_row(obj, fields, cols),
        r2 == projected_row(obj, fields, cols),
    ensures
        r1 == r2,
{
}

} // verus!
