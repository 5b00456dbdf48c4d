//! What holds of the arguments of every call.

use vstd::prelude::*;

use crate::json::{arr_at, bool_at, lookup, member, str_at, strings_of, u64_at, Json};

verus! {

/// Of the pairs with a key the first counts, and without one there is nothing.
pub proof fn first_pair_with_a_key_counts(pairs: Seq<(String, Json)>, key: Seq<char>, i: int)
    ensures
        (0 <= i < pairs.len() && pairs[i].0@ == key && forall|k: int|
            0 <= k < i ==> (#[trigger] pairs[k]).0@ != key) ==> lookup(pairs, key) == Some(
            pairs[i].1,
        ),
        (forall|k: int| 0 <= k < pairs.len() ==> (#[trigger] pairs[k]).0@ != key) ==> lookup(
            pairs,
            key,
        ) is None,
    decreases pairs.len(),
{
    if pairs.len() > 0 && pairs[0].0@ != key {
        let rest = pairs.skip(1);
        first_pair_with_a_key_counts(rest, key, i - 1);
        assert forall|k: int| 0 <= k < rest.len() implies rest[k] == #[trigger] pairs[k + 1] by {}
        if 0 <= i < pairs.len() && pairs[i].0@ == key {
            assert(i > 0);
            assert(rest[i - 1] == pairs[i]);
        }
        if forall|k: int| 0 <= k < i ==> (#[trigger] pairs[k]).0@ != key {
            assert forall|k: int| 0 <= k < i - 1 && k < rest.len() implies (
            #[trigger] rest[k]).0@ != key by {
                assert(rest[k] == pairs[k + 1]);
            }
        }
        if forall|k: int| 0 <= k < pairs.len() ==> (#[trigger] pairs[k]).0@ != key {
            assert forall|k: int| 0 <= k < rest.len() implies (#[trigger] rest[k]).0@ != key by {
                assert(rest[k] == pairs[k + 1]);
            }
        }
    }
}

/// A member is read as what it is, and as nothing else; only objects have members.
pub proof fn members_are_read_by_their_kind(v: Json, key: Seq<char>)
    ensures
        v matches Json::Obj(pairs) ==> member(v, key) == lookup(pairs@, key),
        !(v is Obj) ==> member(v, key) is None,
        member(v, key) matches Some(Json::Str(s)) ==> str_at(v, key) == Some(s@),
        member(v, key) matches Some(Json::Uint(n)) ==> u64_at(v, key) == Some(n),
        member(v, key) matches Some(Json::Bool(b)) ==> bool_at(v, key) == Some(b),
        member(v, key) matches Some(Json::Arr(a)) ==> arr_at(v, key) == Some(a@),
        str_at(v, key) is Some ==> member(v, key) is Some && member(v, key)->0 is Str,
        u64_at(v, key) is Some ==> member(v, key) is Some && member(v, key)->0 is Uint,
        bool_at(v, key) is Some ==> member(v, key) is Some && member(v, key)->0 is Bool,
        arr_at(v, key) is Some ==> member(v, key) is Some && member(v, key)->0 is Arr,
{
}

/// Of a list the strings are taken, all of them, in order, and nothing else.
pub proof fn strings_of_a_list_are_kept(items: Seq<Json>)
    ensures
        strings_of(items) == items.filter(|j: Json| j is Str).map_values(|j: Json| j->Str_0@),
    decreases items.len(),
{
    reveal(Seq::filter);
    let is = |j: Json| j is Str;
    let text = |j: Json| j->Str_0@;
    if items.len() > 0 {
        strings_of_a_list_are_kept(items.drop_last());
        if items.last() is Str {
            assert(items.drop_last().filter(is).push(items.last()).map_values(text)
                =~= items.drop_last().filter(is).map_values(text).push(text(items.last())));
        }
    }
    assert(strings_of(items) =~= items.filter(is).map_values(text));
}

/// In a list of strings only, each one is taken, under its own place.
pub proof fn list_of_strings_is_taken_whole(items: Seq<Json>)
    requires
        forall|i: int| 0 <= i < items.len() ==> #[trigger] items[i] is Str,
    ensures
        strings_of(items).len() == items.len(),
        forall|i: int| 0 <= i < items.len() ==> #[trigger] strings_of(items)[i] == items[i]->Str_0@,
    decreases items.len(),
{
    if items.len() > 0 {
        let front = items.drop_last();
        assert forall|i: int| 0 <= i < front.len() implies #[trigger] front[i] is Str by {
            assert(front[i] == items[i]);
        }
        assert(items[items.len() - 1] is Str);
        list_of_strings_is_taken_whole(front);
        assert forall|i: int| 0 <= i < items.len() implies #[trigger] strings_of(items)[i]
            == items[i]->Str_0@ by {
            if i < front.len() {
                assert(strings_of(items)[i] == strings_of(front)[i]);
                assert(front[i] == items[i]);
            }
        }
    }
}

} // verus!
