//! Applying operations to the one text they were resolved on.

use vstd::prelude::*;

use crate::edit::resolve::{OpView, ResolvedOp};
use crate::outside::{
    break_count, rope_chars, rope_insert, rope_line, rope_line_index, rope_new, rope_remove, rope_slice,
    rope_text,
};
use crate::text::chars_of;

verus! {

/// Two operations get in each other's way: two insertions at one point, an
/// insertion strictly inside a replaced range, or two ranges that intersect.
pub open spec fn overlap(x: OpView, y: OpView) -> bool {
    if x is Insert && y is Insert {
        x.start() == y.start()
    } else if x is Insert {
        y.start() < x.start() < y.end()
    } else if y is Insert {
        x.start() < y.start() < x.end()
    } else {
        x.start() < y.end() && y.start() < x.end()
    }
}

/// Whether two operations get in each other's way.
pub fn ranges_overlap(x: &ResolvedOp, y: &ResolvedOp) -> (r: bool)
    ensures
        r == overlap(x@, y@),
{
    let xz: bool = match x {
        ResolvedOp::Insert { .. } => true,
        ResolvedOp::Replace { .. } => false,
    };
    let yz: bool = match y {
        ResolvedOp::Insert { .. } => true,
        ResolvedOp::Replace { .. } => false,
    };
    let (x1, x2): (usize, usize) = (x.start(), x.end());
    let (y1, y2): (usize, usize) = (y.start(), y.end());
    if xz && yz {
        return x1 == y1;
    }
    if xz {
        return x1 > y1 && x1 < y2;
    }
    if yz {
        return y1 > x1 && y1 < x2;
    }
    x1 < y2 && y1 < x2
}

/// What a list of numbered operations says.
pub open spec fn op_views(v: Seq<(usize, ResolvedOp)>) -> Seq<OpView> {
    Seq::new(v.len(), |i: int| v[i].1@)
}

/// The first operation from `j` on that gets in the way of operation `i`.
pub open spec fn clash_with(ops: Seq<OpView>, i: int, j: int) -> Option<int>
    decreases ops.len() - j,
{
    if j >= ops.len() {
        None
    } else if overlap(ops[i], ops[j]) {
        Some(j)
    } else {
        clash_with(ops, i, j + 1)
    }
}

/// The first pair of operations, from `i` on, that get in each other's way.
pub open spec fn clash(ops: Seq<OpView>, i: int) -> Option<(int, int)>
    decreases ops.len() - i,
{
    if i >= ops.len() {
        None
    } else {
        match clash_with(ops, i, i + 1) {
            Some(j) => Some((i, j)),
            None => clash(ops, i + 1),
        }
    }
}

/// No two operations get in each other's way.
pub open spec fn apart(ops: Seq<OpView>) -> bool {
    forall|i: int, j: int| 0 <= i < j < ops.len() ==> !overlap(#[trigger] ops[i], #[trigger] ops[j])
}

proof fn lemma_clash_with(ops: Seq<OpView>, i: int, j: int)
    requires
        0 <= i < j,
    ensures
        clash_with(ops, i, j) is None <==> forall|k: int|
            j <= k < ops.len() ==> !overlap(ops[i], #[trigger] ops[k]),
        clash_with(ops, i, j) matches Some(k) ==> j <= k < ops.len() && overlap(ops[i], ops[k]),
    decreases ops.len() - j,
{
    if j < ops.len() && !overlap(ops[i], ops[j]) {
        lemma_clash_with(ops, i, j + 1);
        assert forall|k: int| clash_with(ops, i, j) is None && j <= k < ops.len() implies !overlap(
            ops[i],
            #[trigger] ops[k],
        ) by {
            if k > j {
            }
        }
    }
}

/// A clash is reported exactly when two operations overlap, and it names two that
/// do.
pub proof fn clash_means_overlap(ops: Seq<OpView>)
    ensures
        clash(ops, 0) is None <==> apart(ops),
        clash(ops, 0) matches Some(p) ==> 0 <= p.0 < p.1 < ops.len() && overlap(
            ops[p.0],
            ops[p.1],
        ),
{
    lemma_clash(ops, 0);
}

proof fn lemma_clash(ops: Seq<OpView>, i: int)
    requires
        0 <= i,
    ensures
        clash(ops, i) is None <==> forall|a: int, b: int|
            i <= a < b < ops.len() ==> !overlap(#[trigger] ops[a], #[trigger] ops[b]),
        clash(ops, i) matches Some(p) ==> i <= p.0 < p.1 < ops.len() && overlap(
            ops[p.0],
            ops[p.1],
        ),
    decreases ops.len() - i,
{
    if i < ops.len() {
        lemma_clash_with(ops, i, i + 1);
        lemma_clash(ops, i + 1);
        if clash(ops, i) is None {
            assert forall|a: int, b: int| i <= a < b < ops.len() implies !overlap(
                #[trigger] ops[a],
                #[trigger] ops[b],
            ) by {
                if a > i {
                }
            }
        }
    }
}

/// Refuses operations that overlap, naming the hunks of the first pair that does.
pub fn check_overlap(ops: &[(usize, ResolvedOp)]) -> (r: Result<(), (usize, usize)>)
    ensures
        match r {
            Ok(_) => clash(op_views(ops@), 0) is None,
            Err(p) => clash(op_views(ops@), 0) matches Some(q) && 0 <= q.0 < q.1 < ops@.len()
                && p.0 == ops@[q.0].0 && p.1 == ops@[q.1].0,
        },
{
    let ghost v = op_views(ops@);
    let n: usize = ops.len();
    let mut i: usize = 0;
    while i < n
        invariant
            v == op_views(ops@),
            n == ops@.len(),
            i <= n,
            clash(v, 0) == clash(v, i as int),
        decreases n - i,
    {
        let mut j: usize = i + 1;
        while j < n
            invariant
                v == op_views(ops@),
                n == ops@.len(),
                i < j <= n,
                clash(v, 0) == clash(v, i as int),
                clash_with(v, i as int, i + 1) == clash_with(v, i as int, j as int),
            decreases n - j,
        {
            proof {
                assert(v[i as int] == ops@[i as int].1@);
                assert(v[j as int] == ops@[j as int].1@);
            }
            if ranges_overlap(&ops[i].1, &ops[j].1) {
                return Err((ops[i].0, ops[j].0));
            }
            j = j + 1;
        }
        i = i + 1;
    }
    Ok(())
}

/// The order of application: later positions first; at one position, what takes
/// text out before what only puts text in.
pub open spec fn goes_before(x: OpView, y: OpView) -> bool {
    x.start() > y.start() || (x.start() == y.start() && x.start() < x.end() && y.start() == y.end())
}

/// An operation put in its place, behind all that it does not go before.
pub open spec fn put(sorted: Seq<OpView>, x: OpView) -> Seq<OpView>
    decreases sorted.len(),
{
    if sorted.len() > 0 && goes_before(x, sorted.last()) {
        put(sorted.drop_last(), x).push(sorted.last())
    } else {
        sorted.push(x)
    }
}

/// The operations in the order of application.
pub open spec fn ordered(ops: Seq<OpView>) -> Seq<OpView>
    decreases ops.len(),
{
    if ops.len() == 0 {
        Seq::<OpView>::empty()
    } else {
        put(ordered(ops.drop_last()), ops.last())
    }
}

proof fn lemma_put(sorted: Seq<OpView>, x: OpView, p: int)
    requires
        0 <= p <= sorted.len(),
        forall|k: int| p <= k < sorted.len() ==> goes_before(x, #[trigger] sorted[k]),
        p == 0 || !goes_before(x, sorted[p - 1]),
    ensures
        put(sorted, x) == sorted.insert(p, x),
    decreases sorted.len(),
{
    if p < sorted.len() {
        let front = sorted.drop_last();
        assert(goes_before(x, sorted[sorted.len() - 1]));
        assert forall|k: int| p <= k < front.len() implies goes_before(x, #[trigger] front[k]) by {
            assert(front[k] == sorted[k]);
        }
        lemma_put(front, x, p);
        assert(front.insert(p, x).push(sorted.last()) =~= sorted.insert(p, x));
    } else {
        assert(sorted.insert(p, x) =~= sorted.push(x));
    }
}

/// The text from position `from` on, with operations that all lie there applied.
/// The list runs from the last position to the first.
pub open spec fn rewritten(text: Seq<char>, ops: Seq<OpView>, from: int) -> Seq<char>
    decreases ops.len(),
{
    if ops.len() == 0 {
        text.skip(from)
    } else {
        let o = ops.last();
        text.subrange(from, o.start()) + o.text() + rewritten(text, ops.drop_last(), o.end())
    }
}

/// The text with all operations applied, each at the positions of the one text.
pub open spec fn edited_text(text: Seq<char>, ops: Seq<OpView>) -> Seq<char> {
    rewritten(text, ordered(ops), 0)
}

/// Where the text that is still untouched ends once the first `k` operations of an
/// ordered list are applied.
pub open spec fn untouched(text: Seq<char>, ops: Seq<OpView>, k: int) -> int {
    if k <= 0 {
        text.len() as int
    } else {
        ops[k - 1].start()
    }
}

/// The text once the first `k` operations of an ordered list are applied.
pub open spec fn stage(text: Seq<char>, ops: Seq<OpView>, k: int) -> Seq<char> {
    let p = untouched(text, ops, k);
    text.take(p) + rewritten(text, ops.take(k), p)
}

/// Operations in order, one wholly before the next, within a text of `n` characters.
pub open spec fn staggered(ops: Seq<OpView>, n: int) -> bool {
    &&& forall|i: int| 0 <= i < ops.len() ==> (#[trigger] ops[i]).fits(n)
    &&& forall|i: int, j: int|
        0 <= i < j < ops.len() ==> (#[trigger] ops[j]).end() <= (#[trigger] ops[i]).start()
}

proof fn lemma_rewritten_split(text: Seq<char>, ops: Seq<OpView>, from: int, q: int)
    requires
        staggered(ops, text.len() as int),
        0 <= from <= q <= text.len(),
        ops.len() > 0 ==> q <= ops.last().start(),
    ensures
        rewritten(text, ops, from) == text.subrange(from, q) + rewritten(text, ops, q),
{
    if ops.len() == 0 {
        assert(text.skip(from) =~= text.subrange(from, q) + text.skip(q));
    } else {
        let o = ops.last();
        assert(ops[ops.len() - 1].fits(text.len() as int));
        assert(text.subrange(from, o.start()) =~= text.subrange(from, q) + text.subrange(
            q,
            o.start(),
        ));
        assert(rewritten(text, ops, from) =~= text.subrange(from, q) + rewritten(text, ops, q));
    }
}

/// One more operation of an ordered list splices the text at its own positions.
proof fn lemma_stage_step(text: Seq<char>, ops: Seq<OpView>, k: int)
    requires
        staggered(ops, text.len() as int),
        0 <= k < ops.len(),
    ensures
        ({
            let o = ops[k];
            let now = stage(text, ops, k);
            &&& o.end() <= untouched(text, ops, k) <= now.len()
            &&& now.take(untouched(text, ops, k)) == text.take(untouched(text, ops, k))
            &&& stage(text, ops, k + 1) == now.take(o.start()) + o.text() + now.skip(o.end())
        }),
{
    let o = ops[k];
    let n = text.len() as int;
    let p = untouched(text, ops, k);
    let now = stage(text, ops, k);
    assert(o.fits(n));
    if k > 0 {
        assert(ops[k - 1].fits(n));
        assert(o.end() <= ops[k - 1].start());
    }
    assert(now.take(p) =~= text.take(p));
    let done = ops.take(k);
    assert forall|i: int| 0 <= i < done.len() implies (#[trigger] done[i]).fits(n) by {
        assert(done[i] == ops[i]);
    }
    assert forall|i: int, j: int| 0 <= i < j < done.len() implies (#[trigger] done[j]).end() <= (
    #[trigger] done[i]).start() by {
        assert(done[i] == ops[i]);
        assert(done[j] == ops[j]);
    }
    if k > 0 {
        assert(done.last() == ops[k - 1]);
    }
    lemma_rewritten_split(text, done, o.end(), p);
    let next = ops.take(k + 1);
    assert(next.drop_last() =~= done);
    assert(next.last() == o);
    assert(rewritten(text, next, o.start()) == text.subrange(o.start(), o.start()) + o.text()
        + rewritten(text, done, o.end()));
    let tail = rewritten(text, done, p);
    assert(now.skip(o.end()) =~= text.subrange(o.end(), p) + tail);
    assert(now.take(o.start()) =~= text.take(o.start()));
    assert(stage(text, ops, k + 1) =~= now.take(o.start()) + o.text() + now.skip(o.end()));
}

/// Operations that do not overlap are staggered once ordered.
pub proof fn lemma_ordered_staggered(ops: Seq<OpView>, n: int)
    requires
        apart(ops),
        forall|i: int| 0 <= i < ops.len() ==> (#[trigger] ops[i]).fits(n),
    ensures
        staggered(ordered(ops), n),
        ordered(ops).len() == ops.len(),
        forall|i: int| 0 <= i < ordered(ops).len() ==> ops.contains(#[trigger] ordered(ops)[i]),
    decreases ops.len(),
{
    if ops.len() > 0 {
        let front = ops.drop_last();
        let x = ops.last();
        assert forall|i: int, j: int| 0 <= i < j < front.len() implies !overlap(
            #[trigger] front[i],
            #[trigger] front[j],
        ) by {
            assert(front[i] == ops[i]);
            assert(front[j] == ops[j]);
        }
        assert forall|i: int| 0 <= i < front.len() implies (#[trigger] front[i]).fits(n) by {
            assert(front[i] == ops[i]);
        }
        lemma_ordered_staggered(front, n);
        let sorted = ordered(front);
        assert(x == ops[ops.len() - 1]);
        assert(x.fits(n));
        assert forall|i: int| 0 <= i < sorted.len() implies !overlap(#[trigger] sorted[i], x) by {
            assert(front.contains(sorted[i]));
            let k = choose|k: int| 0 <= k < front.len() && front[k] == sorted[i];
            assert(ops[k] == sorted[i]);
            assert(!overlap(ops[k], ops[ops.len() - 1]));
        }
        lemma_put_staggered(sorted, x, n);
        let all = ordered(ops);
        assert forall|i: int| 0 <= i < all.len() implies ops.contains(#[trigger] all[i]) by {
            assert(sorted.push(x).contains(all[i]));
            let k = choose|k: int| 0 <= k < sorted.push(x).len() && sorted.push(x)[k] == all[i];
            if k < sorted.len() {
                assert(front.contains(sorted[k]));
                let m = choose|m: int| 0 <= m < front.len() && front[m] == sorted[k];
                assert(ops[m] == all[i]);
            } else {
                assert(ops[ops.len() - 1] == all[i]);
            }
        }
    }
}

proof fn lemma_put_staggered(sorted: Seq<OpView>, x: OpView, n: int)
    requires
        staggered(sorted, n),
        x.fits(n),
        forall|i: int| 0 <= i < sorted.len() ==> !overlap(#[trigger] sorted[i], x),
    ensures
        staggered(put(sorted, x), n),
        put(sorted, x).len() == sorted.len() + 1,
        forall|i: int|
            0 <= i < put(sorted, x).len() ==> sorted.push(x).contains(#[trigger] put(sorted, x)[i]),
    decreases sorted.len(),
{
    let all = put(sorted, x);
    if sorted.len() > 0 && goes_before(x, sorted.last()) {
        let front = sorted.drop_last();
        let y = sorted.last();
        assert(y == sorted[sorted.len() - 1]);
        assert forall|i: int| 0 <= i < front.len() implies (#[trigger] front[i]).fits(n) by {
            assert(front[i] == sorted[i]);
        }
        assert forall|i: int, j: int| 0 <= i < j < front.len() implies (#[trigger] front[j]).end()
            <= (#[trigger] front[i]).start() by {
            assert(front[i] == sorted[i]);
            assert(front[j] == sorted[j]);
        }
        assert forall|i: int| 0 <= i < front.len() implies !overlap(#[trigger] front[i], x) by {
            assert(front[i] == sorted[i]);
        }
        lemma_put_staggered(front, x, n);
        let inner = put(front, x);
        assert(!overlap(y, x));
        assert(y.fits(n));
        assert(y.end() <= x.start());
        assert forall|i: int, j: int| 0 <= i < j < all.len() implies (#[trigger] all[j]).end() <= (
        #[trigger] all[i]).start() by {
            if j < inner.len() {
                assert(all[i] == inner[i]);
                assert(all[j] == inner[j]);
            } else {
                assert(all[j] == y);
                assert(all[i] == inner[i]);
                assert(front.push(x).contains(inner[i]));
                let k = choose|k: int| 0 <= k < front.push(x).len() && front.push(x)[k] == inner[i];
                if k < front.len() {
                    assert(front[k] == sorted[k]);
                    assert(sorted[sorted.len() - 1].end() <= sorted[k].start());
                }
            }
        }
        assert forall|i: int| 0 <= i < all.len() implies (#[trigger] all[i]).fits(n) by {
            if i < inner.len() {
                assert(all[i] == inner[i]);
            }
        }
        assert forall|i: int| 0 <= i < all.len() implies sorted.push(x).contains(
            #[trigger] all[i],
        ) by {
            if i < inner.len() {
                assert(front.push(x).contains(inner[i]));
                let k = choose|k: int| 0 <= k < front.push(x).len() && front.push(x)[k] == inner[i];
                if k < front.len() {
                    assert(sorted.push(x)[k] == all[i]);
                } else {
                    assert(sorted.push(x)[sorted.len() as int] == all[i]);
                }
            } else {
                assert(sorted.push(x)[sorted.len() - 1] == all[i]);
            }
        }
    } else {
        assert forall|i: int| 0 <= i < all.len() implies (#[trigger] all[i]).fits(n) by {
            if i < sorted.len() {
                assert(all[i] == sorted[i]);
            }
        }
        assert forall|i: int, j: int| 0 <= i < j < all.len() implies (#[trigger] all[j]).end() <= (
        #[trigger] all[i]).start() by {
            if j < sorted.len() {
                assert(all[i] == sorted[i]);
                assert(all[j] == sorted[j]);
            } else {
                assert(all[j] == x);
                assert(all[i] == sorted[i]);
                let y = sorted.last();
                assert(y == sorted[sorted.len() - 1]);
                assert(!overlap(y, x));
                assert(y.fits(n));
                assert(!goes_before(x, y));
                assert(x.end() <= y.start());
                if i < sorted.len() - 1 {
                    assert(sorted[sorted.len() - 1].end() <= sorted[i].start());
                }
            }
        }
        assert forall|i: int| 0 <= i < all.len() implies sorted.push(x).contains(
            #[trigger] all[i],
        ) by {
            assert(sorted.push(x)[i] == all[i]);
        }
    }
}

/// How many newlines a text holds.
pub open spec fn newlines(s: Seq<char>) -> nat
    decreases s.len(),
{
    if s.len() == 0 {
        0
    } else {
        newlines(s.drop_last()) + (if s.last() == '\n' {
            1nat
        } else {
            0
        })
    }
}

/// Counts the newlines of a text.
pub fn count_newlines(s: &[char]) -> (n: usize)
    ensures
        n == newlines(s@),
        n <= s@.len(),
{
    let mut n: usize = 0;
    let mut i: usize = 0;
    proof {
        assert(s@.take(0) =~= Seq::<char>::empty());
    }
    while i < s.len()
        invariant
            i <= s@.len(),
            n == newlines(s@.take(i as int)),
            n <= i,
        decreases s@.len() - i,
    {
        proof {
            assert(s@.take(i + 1).drop_last() =~= s@.take(i as int));
        }
        if s[i] == '\n' {
            n = n + 1;
        }
        i = i + 1;
    }
    proof {
        assert(s@.take(s@.len() as int) =~= s@);
    }
    n
}

/// The line shift of operation `k` of an ordered list: the 1-based line at which it
/// applies and by how many lines what follows moves.
pub open spec fn shift_at(text: Seq<char>, ops: Seq<OpView>, k: int) -> (int, int) {
    let o = ops[k];
    (
        rope_line_index(stage(text, ops, k), o.start()) as int + 1,
        newlines(o.text()) - newlines(text.subrange(o.start(), o.end())),
    )
}

/// The indices of the operations in the order of application.
fn order_of(ops: &[(usize, ResolvedOp)]) -> (order: Vec<usize>)
    ensures
        order@.len() == ops@.len(),
        forall|i: int| 0 <= i < order@.len() ==> (#[trigger] order@[i]) < ops@.len(),
        Seq::new(order@.len(), |i: int| ops@[order@[i] as int].1@) == ordered(op_views(ops@)),
{
    let mut order: Vec<usize> = Vec::new();
    let ghost v = op_views(ops@);
    let mut i: usize = 0;
    proof {
        assert(v.take(0) =~= Seq::<OpView>::empty());
        assert(Seq::new(order@.len(), |i: int| ops@[order@[i] as int].1@) =~= ordered(v.take(0)));
    }
    while i < ops.len()
        invariant
            i <= ops@.len(),
            v == op_views(ops@),
            order@.len() == i,
            forall|k: int| 0 <= k < order@.len() ==> (#[trigger] order@[k]) < ops@.len(),
            Seq::new(order@.len(), |k: int| ops@[order@[k] as int].1@) == ordered(v.take(i as int)),
        decreases ops@.len() - i,
    {
        let ghost sorted = ordered(v.take(i as int));
        let ghost x = v[i as int];
        let ghost before = order@;
        let mut p: usize = order.len();
        proof {
            assert(x == ops@[i as int].1@);
            assert(v.take(i + 1).drop_last() =~= v.take(i as int));
            assert(v.take(i + 1).last() == x);
        }
        while p > 0 && op_goes_before(&ops[i].1, &ops[order[p - 1]].1)
            invariant
                i < ops@.len(),
                p <= order@.len(),
                order@ == before,
                x == ops@[i as int].1@,
                forall|k: int| 0 <= k < order@.len() ==> (#[trigger] order@[k]) < ops@.len(),
                sorted == Seq::new(order@.len(), |k: int| ops@[order@[k] as int].1@),
                forall|k: int| p <= k < sorted.len() ==> goes_before(x, #[trigger] sorted[k]),
            decreases p,
        {
            proof {
                assert(sorted[p - 1] == ops@[order@[p - 1] as int].1@);
            }
            p = p - 1;
        }
        proof {
            if p > 0 {
                assert(sorted[p - 1] == ops@[order@[p - 1] as int].1@);
            }
            lemma_put(sorted, x, p as int);
        }
        order.insert(p, i);
        proof {
            assert forall|k: int| 0 <= k < order@.len() implies (#[trigger] order@[k])
                < ops@.len() by {
                if k < p {
                    assert(order@[k] == before[k]);
                } else if k > p {
                    assert(order@[k] == before[k - 1]);
                }
            }
            assert(Seq::new(order@.len(), |k: int| ops@[order@[k] as int].1@) =~= sorted.insert(
                p as int,
                x,
            ));
        }
        i = i + 1;
    }
    proof {
        assert(v.take(v.len() as int) =~= v);
    }
    order
}

fn op_goes_before(x: &ResolvedOp, y: &ResolvedOp) -> (r: bool)
    ensures
        r == goes_before(x@, y@),
{
    let (x1, x2): (usize, usize) = (x.start(), x.end());
    let (y1, y2): (usize, usize) = (y.start(), y.end());
    x1 > y1 || (x1 == y1 && x1 < x2 && y1 == y2)
}

/// Applies operations that do not overlap to the text they were resolved on.
/// Returns the new text and, for each operation in the order of application, its
/// line shift.
pub fn apply_ops(content: &str, ops: &[(usize, ResolvedOp)]) -> (r: (String, Vec<(usize, i128)>))
    requires
        clash(op_views(ops@), 0) is None,
        forall|i: int| 0 <= i < ops@.len() ==> (#[trigger] ops@[i]).1@.fits(content@.len() as int),
    ensures
        r.0@ == edited_text(content@, op_views(ops@)),
        r.1@.len() == ops@.len(),
        forall|k: int|
            0 <= k < r.1@.len() ==> ((#[trigger] r.1@[k]).0 as int, r.1@[k].1 as int) == shift_at(
                content@,
                ordered(op_views(ops@)),
                k,
            ),
        forall|k: int|
            0 <= k < r.1@.len() && !stage(content@, ordered(op_views(ops@)), k).contains('\r')
                ==> (#[trigger] r.1@[k]).0 == break_count(
                content@.take(ordered(op_views(ops@))[k].start()),
            ) + 1,
{
    let ghost text = content@;
    let ghost v = op_views(ops@);
    let ghost sorted = ordered(v);
    let order: Vec<usize> = order_of(ops);
    proof {
        clash_means_overlap(v);
        assert forall|i: int| 0 <= i < v.len() implies (#[trigger] v[i]).fits(text.len() as int) by {
            assert(v[i] == ops@[i].1@);
        }
        lemma_ordered_staggered(v, text.len() as int);
    }
    let mut rope: ropey::Rope = rope_new(content);
    let mut shifts: Vec<(usize, i128)> = Vec::new();
    let mut k: usize = 0;
    proof {
        assert(sorted.take(0) =~= Seq::<OpView>::empty());
        assert(stage(text, sorted, 0) =~= text);
    }
    while k < order.len()
        invariant
            k <= order@.len(),
            text == content@,
            order@.len() == ops@.len() == sorted.len(),
            staggered(sorted, text.len() as int),
            forall|i: int| 0 <= i < order@.len() ==> (#[trigger] order@[i]) < ops@.len(),
            Seq::new(order@.len(), |i: int| ops@[order@[i] as int].1@) == sorted,
            rope_chars(rope) == stage(text, sorted, k as int),
            shifts@.len() == k,
            forall|i: int|
                0 <= i < k ==> ((#[trigger] shifts@[i]).0 as int, shifts@[i].1 as int) == shift_at(
                    text,
                    sorted,
                    i,
                ),
            forall|i: int|
                0 <= i < k && !stage(text, sorted, i).contains('\r') ==> (#[trigger] shifts@[i]).0
                    == break_count(text.take(sorted[i].start())) + 1,
        decreases order@.len() - k,
    {
        let op: &ResolvedOp = &ops[order[k]].1;
        let ghost o = sorted[k as int];
        let ghost now = stage(text, sorted, k as int);
        let ghost p = untouched(text, sorted, k as int);
        proof {
            assert(o == op@);
            assert(o.fits(text.len() as int));
            lemma_stage_step(text, sorted, k as int);
            assert(now.subrange(o.start(), o.end()) =~= text.subrange(o.start(), o.end())) by {
                assert(now.take(p) == text.take(p));
                assert forall|i: int| o.start() <= i < o.end() implies now[i] == text[i] by {
                    assert(now.take(p)[i] == text.take(p)[i]);
                }
            }
            assert(now.take(o.start()) =~= text.take(o.start())) by {
                assert forall|i: int| 0 <= i < o.start() implies now[i] == text[i] by {
                    assert(now.take(p)[i] == text.take(p)[i]);
                }
            }
        }
        let start: usize = op.start();
        let end: usize = op.end();
        let line: usize = rope_line(&rope, start) + 1;
        let gone: String = rope_slice(&rope, start, end);
        let gone_chars: Vec<char> = chars_of(gone.as_str());
        let removed: usize = count_newlines(gone_chars.as_slice());
        let new: &str = match op {
            ResolvedOp::Replace { new, .. } => new.as_str(),
            ResolvedOp::Insert { text, .. } => text.as_str(),
        };
        let new_chars: Vec<char> = chars_of(new);
        let added: usize = count_newlines(new_chars.as_slice());
        shifts.push((line, added as i128 - removed as i128));
        rope_remove(&mut rope, start, end);
        let ghost cut = rope_chars(rope);
        rope_insert(&mut rope, start, new);
        proof {
            assert(cut.take(start as int) =~= now.take(start as int));
            assert(cut.skip(start as int) =~= now.skip(end as int));
            assert(rope_chars(rope) =~= stage(text, sorted, k + 1));
        }
        k = k + 1;
    }
    proof {
        let n = sorted.len() as int;
        assert(sorted.take(n) =~= sorted);
        if n > 0 {
            assert(sorted[n - 1].fits(text.len() as int));
            lemma_rewritten_split(text, sorted, 0, untouched(text, sorted, n));
            assert(text.subrange(0, untouched(text, sorted, n)) =~= text.take(
                untouched(text, sorted, n),
            ));
        } else {
            assert(stage(text, sorted, 0) =~= rewritten(text, sorted, 0));
        }
    }
    (rope_text(&rope), shifts)
}

} // verus!
