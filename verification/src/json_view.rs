//! JSON values as mathematical values, and how they are built.

use vstd::prelude::*;

use crate::json::Json;

verus! {

/// What a JSON value says.
#[verifier::ext_equal]
pub enum JsonView {
    Null,
    Bool(bool),
    Uint(u64),
    Int(i64),
    Float(Seq<char>),
    Str(Seq<char>),
    Arr(Seq<JsonView>),
    Obj(Seq<(Seq<char>, JsonView)>),
}

/// What a JSON value says.
pub open spec fn json_view(v: Json) -> JsonView
    decreases v,
{
    match v {
        Json::Null => JsonView::Null,
        Json::Bool(b) => JsonView::Bool(b),
        Json::Uint(n) => JsonView::Uint(n),
        Json::Int(n) => JsonView::Int(n),
        Json::Float(s) => JsonView::Float(s@),
        Json::Str(s) => JsonView::Str(s@),
        Json::Arr(a) => JsonView::Arr(
            Seq::new(
                a@.len(),
                |i: int|
                    if 0 <= i < a@.len() {
                        json_view(a@[i])
                    } else {
                        JsonView::Null
                    },
            ),
        ),
        Json::Obj(p) => JsonView::Obj(
            Seq::new(
                p@.len(),
                |i: int|
                    (
                        p@[i].0@,
                        if 0 <= i < p@.len() {
                            json_view(p@[i].1)
                        } else {
                            JsonView::Null
                        },
                    ),
            ),
        ),
    }
}

/// What some values say.
pub open spec fn item_views(items: Seq<Json>) -> Seq<JsonView> {
    Seq::new(items.len(), |i: int| json_view(items[i]))
}

/// What some members say.
pub open spec fn pair_views(pairs: Seq<(String, Json)>) -> Seq<(Seq<char>, JsonView)> {
    Seq::new(pairs.len(), |i: int| (pairs[i].0@, json_view(pairs[i].1)))
}

/// A string value.
pub fn json_str(s: &str) -> (r: Json)
    ensures
        json_view(r) == JsonView::Str(s@),
{
    Json::Str(s.to_owned())
}

/// An array of the given values.
pub fn json_arr(items: Vec<Json>) -> (r: Json)
    ensures
        json_view(r) == JsonView::Arr(item_views(items@)),
{
    let r = Json::Arr(items);
    proof {
        assert(json_view(r)->Arr_0 =~= item_views(items@));
    }
    r
}

/// An object of the given members.
pub fn json_obj(pairs: Vec<(String, Json)>) -> (r: Json)
    ensures
        json_view(r) == JsonView::Obj(pair_views(pairs@)),
{
    let r = Json::Obj(pairs);
    proof {
        assert(json_view(r)->Obj_0 =~= pair_views(pairs@));
    }
    r
}

/// Adds a member.
pub fn with_member(pairs: Vec<(String, Json)>, key: &str, value: Json) -> (out: Vec<(String, Json)>)
    ensures
        pair_views(out@) == pair_views(pairs@).push((key@, json_view(value))),
{
    let mut out: Vec<(String, Json)> = pairs;
    out.push((key.to_owned(), value));
    proof {
        assert(pair_views(out@) =~= pair_views(pairs@).push((key@, json_view(value))));
    }
    out
}

/// No members yet.
pub fn no_members() -> (out: Vec<(String, Json)>)
    ensures
        pair_views(out@) == Seq::<(Seq<char>, JsonView)>::empty(),
{
    let out: Vec<(String, Json)> = Vec::new();
    proof {
        assert(pair_views(out@) =~= Seq::<(Seq<char>, JsonView)>::empty());
    }
    out
}

/// An array of one value.
pub fn json_arr_one(a: Json) -> (r: Json)
    ensures
        json_view(r) == JsonView::Arr(seq![json_view(a)]),
{
    let mut items: Vec<Json> = Vec::new();
    items.push(a);
    proof {
        assert(item_views(items@) =~= seq![json_view(a)]);
    }
    json_arr(items)
}

/// An array of two values.
pub fn json_arr_two(a: Json, b: Json) -> (r: Json)
    ensures
        json_view(r) == JsonView::Arr(seq![json_view(a), json_view(b)]),
{
    let mut items: Vec<Json> = Vec::new();
    items.push(a);
    items.push(b);
    proof {
        assert(item_views(items@) =~= seq![json_view(a), json_view(b)]);
    }
    json_arr(items)
}

/// An object of one member.
pub fn json_obj_one(key: &str, value: Json) -> (r: Json)
    ensures
        json_view(r) == JsonView::Obj(seq![(key@, json_view(value))]),
{
    let pairs: Vec<(String, Json)> = with_member(no_members(), key, value);
    proof {
        assert(pair_views(pairs@) =~= seq![(key@, json_view(value))]);
    }
    json_obj(pairs)
}

/// An object of two members.
pub fn json_obj_two(k1: &str, v1: Json, k2: &str, v2: Json) -> (r: Json)
    ensures
        json_view(r) == JsonView::Obj(seq![(k1@, json_view(v1)), (k2@, json_view(v2))]),
{
    let first: Vec<(String, Json)> = with_member(no_members(), k1, v1);
    let pairs: Vec<(String, Json)> = with_member(first, k2, v2);
    proof {
        assert(pair_views(pairs@) =~= seq![(k1@, json_view(v1)), (k2@, json_view(v2))]);
    }
    json_obj(pairs)
}

/// Copies a value.
pub fn copy_json(v: &Json) -> (r: Json)
    ensures
        json_view(r) == json_view(*v),
    decreases *v,
{
    match v {
        Json::Null => Json::Null,
        Json::Bool(b) => Json::Bool(*b),
        Json::Uint(n) => Json::Uint(*n),
        Json::Int(n) => Json::Int(*n),
        Json::Float(s) => Json::Float(s.clone()),
        Json::Str(s) => Json::Str(s.clone()),
        Json::Arr(a) => {
            let mut items: Vec<Json> = Vec::new();
            let mut i: usize = 0;
            while i < a.len()
                invariant
                    i <= a@.len(),
                    *v == Json::Arr(*a),
                    items@.len() == i,
                    forall|k: int| 0 <= k < i ==> json_view(#[trigger] items@[k]) == json_view(a@[k]),
                decreases a@.len() - i,
            {
                proof {
                    assert(decreases_to!(*v => v->Arr_0@[i as int]));
                }
                items.push(copy_json(&a[i]));
                i = i + 1;
            }
            proof {
                assert(json_view(*v)->Arr_0 =~= item_views(items@));
            }
            json_arr(items)
        },
        Json::Obj(p) => {
            let mut pairs: Vec<(String, Json)> = Vec::new();
            let mut i: usize = 0;
            while i < p.len()
                invariant
                    i <= p@.len(),
                    *v == Json::Obj(*p),
                    pairs@.len() == i,
                    forall|k: int|
                        0 <= k < i ==> (#[trigger] pairs@[k]).0@ == p@[k].0@ && json_view(pairs@[k].1)
                            == json_view(p@[k].1),
                decreases p@.len() - i,
            {
                proof {
                    assert(decreases_to!(*v => v->Obj_0@[i as int].1));
                }
                pairs.push((p[i].0.clone(), copy_json(&p[i].1)));
                i = i + 1;
            }
            proof {
                assert(json_view(*v)->Obj_0 =~= pair_views(pairs@));
            }
            json_obj(pairs)
        },
    }
}

} // verus!
