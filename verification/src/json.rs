use vstd::prelude::*;

verus! {

broadcast use {
    vstd::std_specs::vec::group_vec_axioms,
    vstd::seq::group_seq_axioms,
    vstd::seq_lib::group_seq_lib_default,
};

/// Mathematical model of a JSON document: strings are character
/// sequences, arrays and objects are sequences (an object is an
/// ordered list of key/value entries, first match wins on lookup).
pub enum JsonView {
    Null,
    Bool(bool),
    Int(int),
    Str(Seq<char>),
    Arr(Seq<JsonView>),
    Obj(Seq<(Seq<char>, JsonView)>),
}

/// A JSON value, as the connector holds it: scalars, arrays and
/// objects of plain values.
#[derive(Debug, PartialEq)]
pub enum Json {
    Null,
    Bool(bool),
    Int(i64),
    Str(String),
    Arr(Vec<Json>),
    Obj(Vec<(String, Json)>),
}

pub open spec fn json_view(j: Json) -> JsonView
    decreases j,
{
    match j {
        Json::Null => JsonView::Null,
        Json::Bool(b) => JsonView::Bool(b),
        Json::Int(i) => JsonView::Int(i as int),
        Json::Str(s) => JsonView::Str(s@),
        Json::Arr(items) => JsonView::Arr(json_views(items@)),
        Json::Obj(entries) => JsonView::Obj(entry_views(entries@)),
    }
}

pub open spec fn json_views(s: Seq<Json>) -> Seq<JsonView>
    decreases s,
{
    if s.len() == 0 {
        Seq::empty()
    } else {
        seq![json_view(s[0])] + json_views(s.drop_first())
    }
}

pub open spec fn entry_views(s: Seq<(String, Json)>) -> Seq<(Seq<char>, JsonView)>
    decreases s,
{
    if s.len() == 0 {
        Seq::empty()
    } else {
        seq![(s[0].0@, json_view(s[0].1))] + entry_views(s.drop_first())
    }
}

pub broadcast proof fn lemma_json_views_index(s: Seq<Json>)
    ensures
        #[trigger] json_views(s).len() == s.len(),
        forall|i: int| 0 <= i < s.len() ==> json_views(s)[i] == json_view(s[i]),
    decreases s.len(),
{
    if s.len() > 0 {
        lemma_json_views_index(s.drop_first());
    }
}

pub broadcast proof fn lemma_entry_views_index(s: Seq<(String, Json)>)
    ensures
        #[trigger] entry_views(s).len() == s.len(),
        forall|i: int|
            0 <= i < s.len() ==> entry_views(s)[i] == (s[i].0@, json_view(s[i].1)),
    decreases s.len(),
{
    if s.len() > 0 {
        lemma_entry_views_index(s.drop_first());
    }
}

impl View for Json {
    type V = JsonView;

    open spec fn view(&self) -> JsonView {
        json_view(*self)
    }
}

/// First entry whose key equals `key`, if any.
pub open spec fn obj_lookup(entries: Seq<(Seq<char>, JsonView)>, key: Seq<char>) -> Option<
    JsonView,
>
    decreases entries.len(),
{
    if entries.len() == 0 {
        Option::None
    } else if entries[0].0 == key {
        Option::Some(entries[0].1)
    } else {
        obj_lookup(entries.drop_first(), key)
    }
}

proof fn lemma_obj_lookup_skip(entries: Seq<(Seq<char>, JsonView)>, key: Seq<char>, i: int)
    requires
        0 <= i <= entries.len(),
        forall|j: int| 0 <= j < i ==> entries[j].0 != key,
    ensures
        obj_lookup(entries, key) == obj_lookup(entries.skip(i), key),
    decreases i,
{
    if i > 0 {
        assert(entries.drop_first().skip(i - 1) =~= entries.skip(i));
        lemma_obj_lookup_skip(entries.drop_first(), key, i - 1);
    } else {
        assert(entries.skip(0) =~= entries);
    }
}

impl Json {
    /// Looks a key up among the entries of an object value; on any
    /// other kind of value there is nothing to find.
    #[verifier::loop_isolation(false)]
    pub fn get<'a>(&'a self, key: &String) -> (r: Option<&'a Json>)
        ensures
            (match r {
                Option::Some(v) => json_lookup(self@, key@) == Option::Some(v@),
                Option::None => json_lookup(self@, key@) is None,
            }),
    {
        match self {
            Json::Obj(entries) => {
                let ghost ev = entry_views(entries@);
                proof {
                    lemma_entry_views_index(entries@);
                }
                let n = entries.len();
                let mut i: usize = 0;
                while i < n
                    invariant
                        n == entries.len(),
                        0 <= i <= n,
                        ev == entry_views(entries@),
                        ev.len() == n,
                        forall|j: int| 0 <= j < i ==> ev[j].0 != key@,
                        forall|j: int|
                            0 <= j < n ==> ev[j] == (entries@[j].0@, json_view(entries@[j].1)),
                    decreases n - i,
                {
                    if entries[i].0 == *key {
                        proof {
                            lemma_obj_lookup_skip(ev, key@, i as int);
                            assert(ev.skip(i as int)[0] == ev[i as int]);
                        }
                        return Option::Some(&entries[i].1);
                    }
                    i = i + 1;
                }
                proof {
                    lemma_obj_lookup_skip(ev, key@, n as int);
                    assert(ev.skip(n as int) =~= Seq::empty());
                }
                Option::None
            },
            _ => Option::None,
        }
    }

    /// Structure-preserving copy: the copy has the same view.
    #[verifier::loop_isolation(false)]
    pub fn deep_clone(&self) -> (r: Json)
        ensures
            r@ == self@,
        decreases *self,
    {
        match self {
            Json::Null => Json::Null,
            Json::Bool(b) => Json::Bool(*b),
            Json::Int(i) => Json::Int(*i),
            Json::Str(s) => Json::Str(s.clone()),
            Json::Arr(items) => {
                let n = items.len();
                let mut out: Vec<Json> = Vec::new();
                let mut i: usize = 0;
                while i < n
                    invariant
                        n == items.len(),
                        0 <= i <= n,
                        out@.len() == i as int,
                        forall|j: int| 0 <= j < i ==> out@[j]@ == items@[j]@,
                    decreases n - i,
                {
                    proof {
                        assert(decreases_to!(*self => *items));
                        assert(decreases_to!(items@ => items@[i as int]));
                    }
                    let c = items[i].deep_clone();
                    out.push(c);
                    i = i + 1;
                }
                proof {
                    lemma_json_views_index(out@);
                    lemma_json_views_index(items@);
                    assert(json_views(out@) =~= json_views(items@));
                }
                Json::Arr(out)
            },
            Json::Obj(entries) => {
                let n = entries.len();
                let mut out: Vec<(String, Json)> = Vec::new();
                let mut i: usize = 0;
                while i < n
                    invariant
                        n == entries.len(),
                        0 <= i <= n,
                        out@.len() == i as int,
                        forall|j: int|
                            0 <= j < i ==> out@[j].0@ == entries@[j].0@ && out@[j].1@
                                == entries@[j].1@,
                    decreases n - i,
                {
                    proof {
                        assert(decreases_to!(*self => *entries));
                        assert(decreases_to!(entries@ => entries@[i as int]));
                        assert(decreases_to!(entries@[i as int] => entries@[i as int].1));
                    }
                    let k = entries[i].0.clone();
                    let v = entries[i].1.deep_clone();
                    out.push((k, v));
                    i = i + 1;
                }
                proof {
                    lemma_entry_views_index(out@);
                    lemma_entry_views_index(entries@);
                    assert(entry_views(out@) =~= entry_views(entries@));
                }
                Json::Obj(out)
            },
        }
    }
}

/// What resolving one key against a JSON value yields: the entry's
/// value on an object that has the key, nothing otherwise.
pub open spec fn json_lookup(v: JsonView, key: Seq<char>) -> Option<JsonView> {
    match v {
        JsonView::Obj(entries) => obj_lookup(entries, key),
        _ => Option::None,
    }
}

} // verus!
