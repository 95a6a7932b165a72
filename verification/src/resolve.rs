use vstd::prelude::*;

use crate::json::{json_lookup, Json, JsonView};

verus! {

broadcast use {
    vstd::std_specs::vec::group_vec_axioms,
    vstd::seq::group_seq_axioms,
    vstd::seq_lib::group_seq_lib_default,
};

/// Index of the first `'.'` in `s`, if there is one.
pub open spec fn first_dot(s: Seq<char>) -> Option<int>
    decreases s.len(),
{
    if s.len() == 0 {
        Option::None
    } else if s[0] == '.' {
        Option::Some(0)
    } else {
        match first_dot(s.drop_first()) {
            Option::Some(i) => Option::Some(i + 1),
            Option::None => Option::None,
        }
    }
}

pub proof fn lemma_first_dot_props(s: Seq<char>)
    ensures
        (match first_dot(s) {
            Option::Some(i) => 0 <= i < s.len() && s[i] == '.' && (forall|j: int|
                0 <= j < i ==> s[j] != '.'),
            Option::None => forall|j: int| 0 <= j < s.len() ==> s[j] != '.',
        }),
    decreases s.len(),
{
    if s.len() > 0 && s[0] != '.' {
        lemma_first_dot_props(s.drop_first());
        match first_dot(s.drop_first()) {
            Option::Some(i) => {
                assert(s.drop_first()[i] == s[i + 1]);
                assert forall|j: int| 0 <= j < i + 1 implies s[j] != '.' by {
                    if j > 0 {
                        assert(s.drop_first()[j - 1] == s[j]);
                    }
                }
            },
            Option::None => {
                assert forall|j: int| 0 <= j < s.len() implies s[j] != '.' by {
                    if j > 0 {
                        assert(s.drop_first()[j - 1] == s[j]);
                    }
                }
            },
        }
    }
}

/// Converse direction: a witness position pins `first_dot` down.
pub proof fn lemma_first_dot_at(s: Seq<char>, k: int)
    requires
        0 <= k < s.len(),
        s[k] == '.',
        forall|j: int| 0 <= j < k ==> s[j] != '.',
    ensures
        first_dot(s) == Option::Some(k),
    decreases k,
{
    if k > 0 {
        lemma_first_dot_at(s.drop_first(), k - 1);
    }
}

pub proof fn lemma_first_dot_none(s: Seq<char>)
    requires
        forall|j: int| 0 <= j < s.len() ==> s[j] != '.',
    ensures
        first_dot(s) is None,
    decreases s.len(),
{
    if s.len() > 0 {
        lemma_first_dot_none(s.drop_first());
    }
}

/// The segments of a dot-separated path, in order. A path with no
/// dot is a single segment; each dot ends the segment before it.
pub open spec fn split_dots(s: Seq<char>) -> Seq<Seq<char>>
    decreases s.len(),
    via split_dots_decreases
{
    match first_dot(s) {
        Option::None => seq![s],
        Option::Some(i) => seq![s.take(i)] + split_dots(s.skip(i + 1)),
    }
}

#[via_fn]
proof fn split_dots_decreases(s: Seq<char>) {
    lemma_first_dot_props(s);
}

/// Views of a list of segments.
pub open spec fn seg_views(segs: Seq<String>) -> Seq<Seq<char>> {
    segs.map_values(|t: String| t@)
}

/// Splits a path on `'.'`.
#[verifier::loop_isolation(false)]
pub fn split_path(path: &str) -> (segs: Vec<String>)
    ensures
        seg_views(segs@) == split_dots(path@),
{
    let n = path.unicode_len();
    let mut segs: Vec<String> = Vec::new();
    let mut start: usize = 0;
    let mut i: usize = 0;
    proof {
        assert(path@.skip(0) =~= path@);
        assert(seg_views(segs@) =~= Seq::<Seq<char>>::empty());
    }
    while i < n
        invariant
            0 <= start <= i <= n,
            split_dots(path@) =~= seg_views(segs@) + split_dots(path@.skip(start as int)),
            forall|j: int| start <= j < i ==> path@[j] != '.',
        decreases n - i,
    {
        if path.get_char(i) == '.' {
            let seg = path.substring_char(start, i).to_owned();
            proof {
                let rest = path@.skip(start as int);
                lemma_first_dot_at(rest, i - start);
                assert(rest.take(i - start) =~= path@.subrange(start as int, i as int));
                assert(rest.skip(i - start + 1) =~= path@.skip(i + 1));
                assert(seg_views(segs@.push(seg)) =~= seg_views(segs@) + seq![seg@]);
            }
            segs.push(seg);
            start = i + 1;
        }
        i = i + 1;
    }
    let seg = path.substring_char(start, n).to_owned();
    proof {
        let rest = path@.skip(start as int);
        lemma_first_dot_none(rest);
        assert(rest =~= path@.subrange(start as int, n as int));
        assert(seg_views(segs@.push(seg)) =~= seg_views(segs@) + seq![seg@]);
        assert(seg_views(segs@) + seq![rest] =~= seg_views(segs@.push(seg)));
    }
    segs.push(seg);
    segs
}

/// Resolution of a list of segments against a JSON value: each
/// segment is looked up as an object key; a missing key or a
/// non-object on the way yields nothing.
pub open spec fn resolve_segs(v: JsonView, segs: Seq<Seq<char>>) -> Option<JsonView>
    decreases segs.len(),
{
    if segs.len() == 0 {
        Option::Some(v)
    } else {
        match json_lookup(v, segs[0]) {
            Option::Some(c) => resolve_segs(c, segs.drop_first()),
            Option::None => Option::None,
        }
    }
}

/// Resolution of a dot-separated path against a JSON value.
pub open spec fn resolve_path(v: JsonView, path: Seq<char>) -> Option<JsonView> {
    resolve_segs(v, split_dots(path))
}

/// Navigates a dot-separated `path` into `root`. Total: whatever the
/// shape of `root`, a missing key or a non-object along the way gives
/// `None`, never a failure.
#[verifier::loop_isolation(false)]
pub fn resolve<'a>(root: &'a Json, path: &str) -> (r: Option<&'a Json>)
    ensures
        (match r {
            Option::Some(v) => resolve_path(root@, path@) == Option::Some(v@),
            Option::None => resolve_path(root@, path@) is None,
        }),
{
    let segs = split_path(path);
    let ghost sv = seg_views(segs@);
    let mut cur: &'a Json = root;
    let n = segs.len();
    let mut k: usize = 0;
    proof {
        assert(sv.skip(0) =~= sv);
    }
    while k < n
        invariant
            0 <= k <= n,
            n == segs.len(),
            sv == seg_views(segs@),
            resolve_segs(root@, sv) == resolve_segs(cur@, sv.skip(k as int)),
        decreases n - k,
    {
        proof {
            assert(sv.skip(k as int)[0] == sv[k as int]);
            assert(sv.skip(k as int).drop_first() =~= sv.skip(k as int + 1));
        }
        match cur.get(&segs[k]) {
            Option::Some(next) => {
                cur = next;
            },
            Option::None => {
                return Option::None;
            },
        }
        k = k + 1;
    }
    proof {
        assert(sv.skip(n as int) =~= Seq::empty());
    }
    Option::Some(cur)
}

/// Once a prefix of the path has come up empty, the whole path does:
/// resolution of a missing intermediate key is absent at any depth.
pub proof fn lemma_resolve_absent_persists(v: JsonView, segs: Seq<Seq<char>>, i: int)
    requires
        0 <= i <= segs.len(),
        resolve_segs(v, segs.take(i)) is None,
    ensures
        resolve_segs(v, segs) is None,
    decreases i,
{
    if i > 0 {
        assert(segs.take(i)[0] == segs[0]);
        match json_lookup(v, segs[0]) {
            Option::Some(c) => {
                assert(segs.take(i).drop_first() =~= segs.drop_first().take(i - 1));
                lemma_resolve_absent_persists(c, segs.drop_first(), i - 1);
            },
            Option::None => {},
        }
    }
}

} // verus!
