//! Texts in order.

use vstd::prelude::*;
use vstd::seq_lib::to_multiset_insert;
use vstd::seq_lib::to_multiset_build;

use crate::json::{text_eq, texts};
use crate::text::{chars_of, string_of};

verus! {

/// Whether `a` comes before `b`, character by character, the shorter first.
pub open spec fn precedes(a: Seq<char>, b: Seq<char>) -> bool
    decreases a.len(),
{
    if b.len() == 0 {
        false
    } else if a.len() == 0 {
        true
    } else if a[0] != b[0] {
        a[0] < b[0]
    } else {
        precedes(a.skip(1), b.skip(1))
    }
}

/// No text comes before an earlier one.
pub open spec fn in_order(s: Seq<Seq<char>>) -> bool {
    forall|i: int, j: int| 0 <= i < j < s.len() ==> !precedes(#[trigger] s[j], #[trigger] s[i])
}

proof fn lemma_asymmetric(a: Seq<char>, b: Seq<char>)
    requires
        precedes(a, b),
    ensures
        !precedes(b, a),
    decreases a.len(),
{
    if a.len() > 0 && a[0] == b[0] {
        lemma_asymmetric(a.skip(1), b.skip(1));
    }
}

proof fn lemma_below(a: Seq<char>, b: Seq<char>, c: Seq<char>)
    requires
        precedes(a, b),
        !precedes(c, b),
    ensures
        precedes(a, c),
    decreases a.len(),
{
    if a.len() > 0 && c.len() > 0 && a[0] == b[0] && b[0] == c[0] {
        lemma_below(a.skip(1), b.skip(1), c.skip(1));
    }
}

/// Whether `a` comes before `b`.
pub fn comes_before(a: &str, b: &str) -> (r: bool)
    ensures
        r == precedes(a@, b@),
{
    let x: Vec<char> = chars_of(a);
    let y: Vec<char> = chars_of(b);
    let mut i: usize = 0;
    proof {
        assert(x@.skip(0) =~= x@);
        assert(y@.skip(0) =~= y@);
    }
    while i < x.len() && i < y.len()
        invariant
            i <= x@.len(),
            i <= y@.len(),
            x@ == a@,
            y@ == b@,
            precedes(a@, b@) == precedes(x@.skip(i as int), y@.skip(i as int)),
        decreases x@.len() - i,
    {
        proof {
            assert(x@.skip(i as int).skip(1) =~= x@.skip(i + 1));
            assert(y@.skip(i as int).skip(1) =~= y@.skip(i + 1));
        }
        if x[i] != y[i] {
            return x[i] < y[i];
        }
        i = i + 1;
    }
    i < y.len()
}

fn put_in(out: &mut Vec<String>, x: String)
    requires
        in_order(texts(old(out)@)),
    ensures
        in_order(texts(final(out)@)),
        texts(final(out)@).to_multiset() == texts(old(out)@).to_multiset().insert(x@),
        final(out)@.len() == old(out)@.len() + 1,
{
    let ghost before = texts(out@);
    let mut p: usize = 0;
    while p < out.len() && !comes_before(x.as_str(), out[p].as_str())
        invariant
            p <= out@.len(),
            out@ == old(out)@,
            forall|i: int| 0 <= i < p ==> !precedes(x@, #[trigger] texts(out@)[i]),
        decreases out@.len() - p,
    {
        p = p + 1;
    }
    let ghost text = x@;
    let ghost at = p as int;
    proof {
        if p < out@.len() {
            assert(precedes(text, before[at]));
        }
    }
    out.insert(p, x);
    proof {
        let after = texts(out@);
        assert(after =~= before.insert(at, text));
        to_multiset_insert(before, at, text);
        assert forall|i: int, j: int| 0 <= i < j < after.len() implies !precedes(
            #[trigger] after[j],
            #[trigger] after[i],
        ) by {
            if i == at {
                assert(after[j] == before[j - 1]);
                if j - 1 > at {
                    assert(!precedes(before[j - 1], before[at]));
                }
                if precedes(before[j - 1], text) {
                    lemma_asymmetric(before[j - 1], text);
                    if j - 1 > at {
                        lemma_below(text, before[at], before[j - 1]);
                    }
                }
            } else if j == at {
                assert(after[i] == before[i]);
            } else {
                let (bi, bj) = (if i < at {
                    i
                } else {
                    i - 1
                }, if j < at {
                    j
                } else {
                    j - 1
                });
                assert(after[i] == before[bi]);
                assert(after[j] == before[bj]);
            }
        }
    }
}

/// Puts texts in order.
pub fn sort_texts(items: Vec<String>) -> (out: Vec<String>)
    ensures
        in_order(texts(out@)),
        texts(out@).to_multiset() == texts(items@).to_multiset(),
        out@.len() == items@.len(),
{
    let mut out: Vec<String> = Vec::new();
    let mut i: usize = 0;
    proof {
        assert(texts(out@) =~= texts(items@).take(0));
    }
    while i < items.len()
        invariant
            i <= items@.len(),
            out@.len() == i,
            in_order(texts(out@)),
            texts(out@).to_multiset() == texts(items@).take(i as int).to_multiset(),
        decreases items@.len() - i,
    {
        put_in(&mut out, items[i].clone());
        proof {
            let t = texts(items@);
            assert(t.take(i + 1) =~= t.take(i as int).push(t[i as int]));
            to_multiset_build(t.take(i as int), t[i as int]);
        }
        i = i + 1;
    }
    proof {
        assert(texts(items@).take(i as int) =~= texts(items@));
    }
    out
}

/// A path for comparing: a separator comes before every character of a name, so that
/// paths are compared name by name.
pub open spec fn path_key(s: Seq<char>) -> Seq<char> {
    Seq::new(
        s.len(),
        |i: int|
            if s[i] == '/' {
                '\u{0}'
            } else {
                s[i]
            },
    )
}

/// No path comes before an earlier one, and none occurs twice.
pub open spec fn paths_in_order(s: Seq<Seq<char>>) -> bool {
    forall|i: int, j: int|
        0 <= i < j < s.len() ==> !precedes(path_key(#[trigger] s[j]), path_key(#[trigger] s[i]))
            && s[i] != s[j]
}

fn path_key_of(s: &str) -> (out: String)
    ensures
        out@ == path_key(s@),
{
    let c: Vec<char> = chars_of(s);
    let mut out: Vec<char> = Vec::new();
    let mut i: usize = 0;
    while i < c.len()
        invariant
            i <= c@.len(),
            out@ =~= path_key(c@).take(i as int),
        decreases c@.len() - i,
    {
        out.push(
            if c[i] == '/' {
                '\u{0}'
            } else {
                c[i]
            },
        );
        i = i + 1;
    }
    string_of(out.as_slice())
}

fn put_path(out: &mut Vec<String>, x: &str)
    requires
        paths_in_order(texts(old(out)@)),
    ensures
        paths_in_order(texts(final(out)@)),
        forall|t: Seq<char>| #[trigger]
            texts(final(out)@).contains(t) <==> texts(old(out)@).contains(t) || t == x@,
{
    let ghost before = texts(out@);
    let key: String = path_key_of(x);
    let mut p: usize = 0;
    while p < out.len()
        invariant
            p <= out@.len(),
            out@ == old(out)@,
            before == texts(out@),
            paths_in_order(before),
            key@ == path_key(x@),
            forall|i: int|
                0 <= i < p ==> !precedes(key@, path_key(#[trigger] before[i])) && before[i] != x@,
        decreases out@.len() - p,
    {
        proof {
            assert(before[p as int] == out@[p as int]@);
        }
        if text_eq(out[p].as_str(), x) {
            proof {
                assert(before.contains(x@));
            }
            return;
        }
        let k: String = path_key_of(out[p].as_str());
        if comes_before(key.as_str(), k.as_str()) {
            proof {
                lemma_not_later(before, x@, p as int);
            }
            out.insert(p, x.to_owned());
            proof {
                let after = texts(out@);
                assert(after =~= before.insert(p as int, x@));
                lemma_path_put(before, x@, p as int);
            }
            return;
        }
        p = p + 1;
    }
    out.push(x.to_owned());
    proof {
        let after = texts(out@);
        assert(after =~= before.insert(before.len() as int, x@));
        lemma_path_put(before, x@, before.len() as int);
    }
}

proof fn lemma_not_later(before: Seq<Seq<char>>, x: Seq<char>, p: int)
    requires
        paths_in_order(before),
        0 <= p < before.len(),
        precedes(path_key(x), path_key(before[p])),
    ensures
        forall|j: int|
            p <= j < before.len() ==> precedes(path_key(x), path_key(#[trigger] before[j]))
                && before[j] != x,
{
    assert forall|j: int| p <= j < before.len() implies precedes(
        path_key(x),
        path_key(#[trigger] before[j]),
    ) && before[j] != x by {
        if j > p {
            assert(before[p] != before[j]);
            lemma_below(path_key(x), path_key(before[p]), path_key(before[j]));
        }
        if before[j] == x {
            lemma_asymmetric(path_key(x), path_key(x));
        }
    }
}

proof fn lemma_path_put(before: Seq<Seq<char>>, x: Seq<char>, p: int)
    requires
        paths_in_order(before),
        0 <= p <= before.len(),
        forall|i: int|
            0 <= i < p ==> !precedes(path_key(x), path_key(#[trigger] before[i])) && before[i] != x,
        forall|j: int|
            p <= j < before.len() ==> precedes(path_key(x), path_key(#[trigger] before[j]))
                && before[j] != x,
    ensures
        paths_in_order(before.insert(p, x)),
        forall|t: Seq<char>| #[trigger]
            before.insert(p, x).contains(t) <==> before.contains(t) || t == x,
{
    let after = before.insert(p, x);
    assert forall|i: int, j: int| 0 <= i < j < after.len() implies !precedes(
        path_key(#[trigger] after[j]),
        path_key(#[trigger] after[i]),
    ) && after[i] != after[j] by {
        if i == p {
            assert(after[j] == before[j - 1]);
            if precedes(path_key(before[j - 1]), path_key(x)) {
                lemma_asymmetric(path_key(before[j - 1]), path_key(x));
            }
        } else if j == p {
            assert(after[i] == before[i]);
        } else {
            let (a, b) = (if i < p {
                i
            } else {
                i - 1
            }, if j < p {
                j
            } else {
                j - 1
            });
            assert(after[i] == before[a]);
            assert(after[j] == before[b]);
        }
    }
    assert forall|t: Seq<char>| #[trigger]
        after.contains(t) <==> before.contains(t) || t == x by {
        if after.contains(t) {
            let i = choose|i: int| 0 <= i < after.len() && after[i] == t;
            if i < p {
                assert(before[i] == t);
            } else if i > p {
                assert(before[i - 1] == t);
            }
        }
        if before.contains(t) {
            let i = choose|i: int| 0 <= i < before.len() && before[i] == t;
            if i < p {
                assert(after[i] == t);
            } else {
                assert(after[i + 1] == t);
            }
        }
        if t == x {
            assert(after[p] == t);
        }
    }
}

/// Puts paths in order, each once.
pub fn sort_paths(items: &[String]) -> (out: Vec<String>)
    ensures
        paths_in_order(texts(out@)),
        forall|t: Seq<char>| #[trigger] texts(out@).contains(t) <==> texts(items@).contains(t),
{
    let mut out: Vec<String> = Vec::new();
    let ghost all = texts(items@);
    let mut i: usize = 0;
    while i < items.len()
        invariant
            i <= items@.len(),
            all == texts(items@),
            paths_in_order(texts(out@)),
            forall|t: Seq<char>| #[trigger]
                texts(out@).contains(t) <==> all.take(i as int).contains(t),
        decreases items@.len() - i,
    {
        let ghost (before, upto) = (texts(out@), all.take(i as int));
        put_path(&mut out, items[i].as_str());
        proof {
            let next = all.take(i + 1);
            assert(next =~= upto.push(all[i as int]));
            assert forall|t: Seq<char>| #[trigger]
                texts(out@).contains(t) <==> next.contains(t) by {
                assert(before.contains(t) <==> upto.contains(t));
                if upto.contains(t) {
                    let k = choose|k: int| 0 <= k < upto.len() && upto[k] == t;
                    assert(next[k] == t);
                }
                if t == all[i as int] {
                    assert(next[i as int] == t);
                }
                if next.contains(t) {
                    let k = choose|k: int| 0 <= k < next.len() && next[k] == t;
                    if k < i {
                        assert(upto[k] == t);
                    }
                }
            }
        }
        i = i + 1;
    }
    proof {
        assert(all.take(i as int) =~= all);
    }
    out
}

} // verus!
