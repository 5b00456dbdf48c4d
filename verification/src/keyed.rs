//! A table keyed by text.

use vstd::prelude::*;

use crate::json::{text_eq, texts};

verus! {

/// Values under distinct keys, in the order in which the keys came in.
pub struct Keyed<V> {
    items: Vec<(String, V)>,
}

/// The place of a key among some pairs, or their number when it is not there.
pub open spec fn slot<V>(items: Seq<(String, V)>, key: Seq<char>) -> int
    decreases items.len(),
{
    if items.len() == 0 {
        0
    } else if items[0].0@ == key {
        0
    } else {
        1 + slot(items.skip(1), key)
    }
}

proof fn lemma_slot<V>(items: Seq<(String, V)>, key: Seq<char>)
    ensures
        0 <= slot(items, key) <= items.len(),
        slot(items, key) < items.len() ==> items[slot(items, key)].0@ == key,
        forall|i: int| 0 <= i < slot(items, key) ==> (#[trigger] items[i]).0@ != key,
    decreases items.len(),
{
    if items.len() > 0 && items[0].0@ != key {
        let rest = items.skip(1);
        lemma_slot(rest, key);
        assert forall|i: int| 0 <= i < slot(items, key) implies (#[trigger] items[i]).0@ != key by {
            if i > 0 {
                assert(rest[i - 1] == items[i]);
            }
        }
    }
}

proof fn lemma_slot_is<V>(items: Seq<(String, V)>, key: Seq<char>, p: int)
    requires
        0 <= p <= items.len(),
        p < items.len() ==> items[p].0@ == key,
        forall|i: int| 0 <= i < p ==> (#[trigger] items[i]).0@ != key,
    ensures
        slot(items, key) == p,
{
    lemma_slot(items, key);
    let q = slot(items, key);
    if q < p {
        assert(items[q].0@ != key);
    }
    if p < q {
        assert(items[p].0@ != key);
    }
}

impl<V> View for Keyed<V> {
    type V = Map<Seq<char>, V>;

    closed spec fn view(&self) -> Map<Seq<char>, V> {
        Map::new(
            |k: Seq<char>| slot(self.items@, k) < self.items@.len(),
            |k: Seq<char>| self.items@[slot(self.items@, k)].1,
        )
    }
}

impl<V> Keyed<V> {
    /// No key occurs twice.
    #[verifier::type_invariant]
    spec fn distinct(self) -> bool {
        forall|i: int, j: int|
            0 <= i < j < self.items@.len() ==> (#[trigger] self.items@[i]).0@ != (
            #[trigger] self.items@[j]).0@
    }

    /// An empty table.
    pub fn new() -> (t: Self)
        ensures
            t@ == Map::<Seq<char>, V>::empty(),
    {
        let t: Keyed<V> = Keyed { items: Vec::new() };
        proof {
            assert(t@ =~= Map::<Seq<char>, V>::empty());
        }
        t
    }

    fn index_of(&self, key: &str) -> (r: Option<usize>)
        ensures
            match r {
                Some(i) => i == slot(self.items@, key@) && i < self.items@.len(),
                None => slot(self.items@, key@) == self.items@.len(),
            },
    {
        let mut i: usize = 0;
        while i < self.items.len()
            invariant
                i <= self.items@.len(),
                forall|k: int| 0 <= k < i ==> (#[trigger] self.items@[k]).0@ != key@,
            decreases self.items@.len() - i,
        {
            if text_eq(self.items[i].0.as_str(), key) {
                proof {
                    lemma_slot_is(self.items@, key@, i as int);
                }
                return Some(i);
            }
            i = i + 1;
        }
        proof {
            lemma_slot_is(self.items@, key@, self.items@.len() as int);
        }
        None
    }

    /// The value under a key.
    pub fn get(&self, key: &str) -> (r: Option<&V>)
        ensures
            match r {
                Some(v) => self@.contains_key(key@) && self@[key@] == *v,
                None => !self@.contains_key(key@),
            },
    {
        match self.index_of(key) {
            Some(i) => Some(&self.items[i].1),
            None => None,
        }
    }

    /// Whether a key is there.
    pub fn contains_key(&self, key: &str) -> (r: bool)
        ensures
            r == self@.contains_key(key@),
    {
        self.index_of(key).is_some()
    }

    /// Takes a key out, with its value.
    pub fn remove(&mut self, key: &str) -> (r: Option<V>)
        ensures
            final(self)@ == old(self)@.remove(key@),
            match r {
                Some(v) => old(self)@.contains_key(key@) && old(self)@[key@] == v,
                None => !old(self)@.contains_key(key@),
            },
    {
        proof {
            use_type_invariant(&*self);
        }
        match self.index_of(key) {
            Some(i) => {
                let ghost before = self.items@;
                proof {
                    lemma_slot(before, key@);
                }
                let mut items: Vec<(String, V)> = Vec::new();
                std::mem::swap(&mut items, &mut self.items);
                let taken: (String, V) = items.remove(i);
                proof {
                    let after = items@;
                    assert(after == before.remove(i as int));
                    assert forall|a: int, b: int| 0 <= a < b < after.len() implies (
                    #[trigger] after[a]).0@ != (#[trigger] after[b]).0@ by {
                        let x = if a < i { a } else { a + 1 };
                        let y = if b < i { b } else { b + 1 };
                        assert(after[a] == before[x]);
                        assert(after[b] == before[y]);
                    }
                    assert forall|j: int| 0 <= j < after.len() implies (#[trigger] after[j]).0@
                        != key@ by {
                        if j < i {
                            assert(after[j] == before[j]);
                            assert(before[j].0@ != before[i as int].0@);
                        } else {
                            assert(after[j] == before[j + 1]);
                            assert(before[i as int].0@ != before[j + 1].0@);
                        }
                    }
                    lemma_slot_is(after, key@, after.len() as int);
                }
                self.items = items;
                proof {
                    assert forall|k: Seq<char>| self@.contains_key(k) <==> #[trigger] old(
                        self,
                    )@.remove(key@).contains_key(k) by {
                        if k != key@ {
                            lemma_removed_slot(before, i as int, k);
                        }
                    }
                    assert forall|k: Seq<char>| #[trigger] self@.contains_key(k) implies self@[k]
                        == old(self)@.remove(key@)[k] by {
                        lemma_removed_slot(before, i as int, k);
                    }
                    assert(self@ =~= old(self)@.remove(key@));
                }
                Some(taken.1)
            },
            None => {
                proof {
                    assert(self@ =~= old(self)@.remove(key@));
                }
                None
            },
        }
    }

    /// Puts a value under a key, in place of any that was there.
    pub fn insert(&mut self, key: String, value: V)
        ensures
            final(self)@ == old(self)@.insert(key@, value),
    {
        let was: Option<V> = self.remove(key.as_str());
        let ghost mid = self@;
        proof {
            use_type_invariant(&*self);
        }
        let mut items: Vec<(String, V)> = Vec::new();
        std::mem::swap(&mut items, &mut self.items);
        let ghost before = items@;
        proof {
            lemma_slot(before, key@);
            assert(!mid.contains_key(key@));
            assert(slot(before, key@) == before.len());
        }
        let ghost pair = (key, value);
        items.push((key, value));
        proof {
            let after = items@;
            assert(after == before.push(pair));
            assert forall|a: int, b: int| 0 <= a < b < after.len() implies (#[trigger] after[a]).0@
                != (#[trigger] after[b]).0@ by {
                assert(after[a] == before[a]);
                if b < before.len() {
                    assert(after[b] == before[b]);
                }
            }
        }
        self.items = items;
        proof {
            let after = self.items@;
            assert forall|k: Seq<char>| #[trigger] self@.contains_key(k) == (mid.insert(
                pair.0@,
                value,
            ).contains_key(k)) && (self@.contains_key(k) ==> self@[k] == mid.insert(
                pair.0@,
                value,
            )[k]) by {
                lemma_pushed_slot(before, pair, k);
                lemma_slot(before, k);
            }
            assert(self@ =~= mid.insert(pair.0@, value));
            assert(self@ =~= old(self)@.insert(pair.0@, value));
        }
    }

    /// The keys, each once.
    pub fn keys(&self) -> (out: Vec<String>)
        ensures
            texts(out@).no_duplicates(),
            forall|k: Seq<char>| #[trigger] self@.contains_key(k) <==> texts(out@).contains(k),
    {
        proof {
            use_type_invariant(self);
        }
        let mut out: Vec<String> = Vec::new();
        let mut i: usize = 0;
        while i < self.items.len()
            invariant
                i <= self.items@.len(),
                out@.len() == i,
                forall|j: int| 0 <= j < i ==> (#[trigger] out@[j])@ == self.items@[j].0@,
            decreases self.items@.len() - i,
        {
            out.push(self.items[i].0.clone());
            i = i + 1;
        }
        proof {
            let t = texts(out@);
            assert forall|a: int, b: int| 0 <= a < t.len() && 0 <= b < t.len() && a != b implies t[a]
                != t[b] by {
                assert(t[a] == self.items@[a].0@);
                assert(t[b] == self.items@[b].0@);
            }
            assert forall|k: Seq<char>| #[trigger] self@.contains_key(k) <==> t.contains(k) by {
                lemma_slot(self.items@, k);
                let p = slot(self.items@, k);
                if self@.contains_key(k) {
                    assert(t[p] == k);
                }
                if t.contains(k) {
                    let j = choose|j: int| 0 <= j < t.len() && t[j] == k;
                    assert(self.items@[j].0@ == k);
                }
            }
        }
        out
    }

    /// Takes everything out.
    pub fn clear(&mut self)
        ensures
            final(self)@ == Map::<Seq<char>, V>::empty(),
    {
        self.items = Vec::new();
        proof {
            assert(self@ =~= Map::<Seq<char>, V>::empty());
        }
    }
}

proof fn lemma_removed_slot<V>(before: Seq<(String, V)>, i: int, k: Seq<char>)
    requires
        0 <= i < before.len(),
        before[i].0@ != k,
    ensures
        slot(before.remove(i), k) == (if slot(before, k) < i {
            slot(before, k)
        } else {
            slot(before, k) - 1
        }),
        slot(before, k) != i,
        (slot(before.remove(i), k) < before.len() - 1) == (slot(before, k) < before.len()),
        slot(before, k) < before.len() ==> before.remove(i)[slot(before.remove(i), k)]
            == before[slot(before, k)],
{
    let after = before.remove(i);
    lemma_slot(before, k);
    let p = slot(before, k);
    let q = if p < i { p } else { p - 1 };
    assert forall|j: int| 0 <= j < q implies (#[trigger] after[j]).0@ != k by {
        if j < i {
            assert(after[j] == before[j]);
        } else {
            assert(after[j] == before[j + 1]);
        }
    }
    if q < after.len() {
        assert(after[q] == before[p]);
    }
    lemma_slot_is(after, k, q);
}

proof fn lemma_pushed_slot<V>(before: Seq<(String, V)>, pair: (String, V), k: Seq<char>)
    ensures
        slot(before.push(pair), k) == (if slot(before, k) < before.len() || pair.0@ == k {
            slot(before, k)
        } else {
            before.len() as int + 1
        }),
{
    let after = before.push(pair);
    lemma_slot(before, k);
    let p = slot(before, k);
    assert forall|j: int| 0 <= j < before.len() implies (#[trigger] after[j]) == before[j] by {}
    if p < before.len() || pair.0@ == k {
        lemma_slot_is(after, k, p);
    } else {
        lemma_slot_is(after, k, after.len() as int);
    }
}

} // verus!
