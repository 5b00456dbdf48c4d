//! Scores as exact fractions: what a score reaches and which of two is higher is decided
//! without rounding.

use vstd::prelude::*;

use crate::edit::matching::{SCORE_ONE, T3_MARGIN, T3_THRESHOLD};

verus! {

/// The number that a list of digits to the base 2^32 stands for, the lowest digit first.
pub open spec fn number_of(d: Seq<u32>) -> nat
    decreases d.len(),
{
    if d.len() == 0 {
        0
    } else {
        d[0] as nat + 0x1_0000_0000 * number_of(d.skip(1))
    }
}

proof fn lemma_front(low: u32, rest: Seq<u32>)
    ensures
        number_of(rest.insert(0, low)) == low as nat + 0x1_0000_0000 * number_of(rest),
{
    assert(rest.insert(0, low).skip(1) =~= rest);
}

/// The digits of a number.
fn digits(n: u128) -> (out: Vec<u32>)
    ensures
        number_of(out@) == n,
    decreases n,
{
    if n == 0 {
        return Vec::new();
    }
    let mut out: Vec<u32> = digits(n / 0x1_0000_0000);
    proof {
        lemma_front((n % 0x1_0000_0000) as u32, out@);
    }
    out.insert(0, (n % 0x1_0000_0000) as u32);
    out
}

fn times_from(d: &[u32], i: usize, m: u128, carry: u128) -> (out: Vec<u32>)
    requires
        i <= d@.len(),
        m <= 0x2_0000_0000_0000_0000,
        carry <= 0x2_0000_0000_0000_0000,
    ensures
        number_of(out@) == number_of(d@.skip(i as int)) * m + carry,
    decreases d@.len() - i,
{
    if i == d.len() {
        proof {
            assert(number_of(d@.skip(i as int)) * m == 0) by (nonlinear_arith)
                requires
                    number_of(d@.skip(i as int)) == 0,
            ;
        }
        return digits(carry);
    }
    let x: u128 = d[i] as u128;
    proof {
        assert(x * m <= 0xffff_ffff * 0x2_0000_0000_0000_0000) by (nonlinear_arith)
            requires
                x <= 0xffff_ffff,
                m <= 0x2_0000_0000_0000_0000,
        ;
    }
    let t: u128 = x * m + carry;
    let mut out: Vec<u32> = times_from(d, i + 1, m, t / 0x1_0000_0000);
    proof {
        let tail = number_of(d@.skip(i + 1));
        lemma_front((t % 0x1_0000_0000) as u32, out@);
        assert(d@.skip(i as int).skip(1) =~= d@.skip(i + 1));
        assert((x as int + 0x1_0000_0000 * tail) * m == x * m + 0x1_0000_0000 * (tail * m))
            by (nonlinear_arith);
    }
    out.insert(0, (t % 0x1_0000_0000) as u32);
    out
}

/// A number times a factor.
fn times(d: &[u32], m: u128) -> (out: Vec<u32>)
    requires
        m <= 0x2_0000_0000_0000_0000,
    ensures
        number_of(out@) == number_of(d@) * m,
{
    proof {
        assert(d@.skip(0) =~= d@);
    }
    times_from(d, 0, m, 0)
}

fn digit_at(d: &[u32], i: usize) -> (x: u32)
    ensures
        i < d@.len() ==> x == d@[i as int],
        i >= d@.len() ==> x == 0,
{
    if i < d.len() {
        d[i]
    } else {
        0
    }
}

/// The digits from `i` on; none where there are fewer.
spec fn rest(d: Seq<u32>, i: int) -> Seq<u32> {
    if i <= d.len() {
        d.skip(i)
    } else {
        Seq::<u32>::empty()
    }
}

proof fn lemma_rest(d: Seq<u32>, i: int)
    requires
        0 <= i,
    ensures
        i < d.len() ==> number_of(rest(d, i)) == d[i] as nat + 0x1_0000_0000 * number_of(
            rest(d, i + 1),
        ),
        i >= d.len() ==> number_of(rest(d, i)) == 0 && number_of(rest(d, i + 1)) == 0,
{
    if i < d.len() {
        assert(d.skip(i).skip(1) =~= d.skip(i + 1));
    }
}

fn plus_from(a: &[u32], b: &[u32], i: usize, carry: u64) -> (out: Vec<u32>)
    requires
        carry <= 1,
    ensures
        number_of(out@) == number_of(rest(a@, i as int)) + number_of(rest(b@, i as int)) + carry,
    decreases
            (if a@.len() >= b@.len() {
                a@.len()
            } else {
                b@.len()
            }) - i,
{
    proof {
        lemma_rest(a@, i as int);
        lemma_rest(b@, i as int);
    }
    if i >= a.len() && i >= b.len() {
        return digits(carry as u128);
    }
    let t: u64 = digit_at(a, i) as u64 + digit_at(b, i) as u64 + carry;
    let mut out: Vec<u32> = plus_from(a, b, i + 1, t / 0x1_0000_0000);
    proof {
        lemma_front((t % 0x1_0000_0000) as u32, out@);
    }
    out.insert(0, (t % 0x1_0000_0000) as u32);
    out
}

/// The sum of two numbers.
fn plus(a: &[u32], b: &[u32]) -> (out: Vec<u32>)
    ensures
        number_of(out@) == number_of(a@) + number_of(b@),
{
    proof {
        assert(a@.skip(0) =~= a@);
        assert(b@.skip(0) =~= b@);
    }
    plus_from(a, b, 0, 0)
}

/// Whether the first of two numbers is higher, and whether it is lower, from a digit on.
fn higher_lower(a: &[u32], b: &[u32], i: usize) -> (r: (bool, bool))
    ensures
        r.0 == (number_of(rest(a@, i as int)) > number_of(rest(b@, i as int))),
        r.1 == (number_of(rest(a@, i as int)) < number_of(rest(b@, i as int))),
    decreases
            (if a@.len() >= b@.len() {
                a@.len()
            } else {
                b@.len()
            }) - i,
{
    proof {
        lemma_rest(a@, i as int);
        lemma_rest(b@, i as int);
    }
    if i >= a.len() && i >= b.len() {
        return (false, false);
    }
    let (higher, lower) = higher_lower(a, b, i + 1);
    let x: u32 = digit_at(a, i);
    let y: u32 = digit_at(b, i);
    (higher || (!lower && x > y), lower || (!higher && x < y))
}

/// Whether the first of two numbers is higher.
fn is_higher(a: &[u32], b: &[u32]) -> (r: bool)
    ensures
        r == (number_of(a@) > number_of(b@)),
{
    proof {
        assert(a@.skip(0) =~= a@);
        assert(b@.skip(0) =~= b@);
    }
    higher_lower(a, b, 0).0
}

/// A share of a whole.
#[derive(Debug, Clone, Copy, PartialEq, Eq, Structural)]
pub struct Share {
    pub num: u128,
    pub den: u128,
}

impl Share {
    /// A share lies between nothing and all; no whole is longer than two texts.
    pub open spec fn wf(self) -> bool {
        self.num <= self.den && 0 < self.den <= 0x2_0000_0000_0000_0000
    }
}

/// The share of something that does not count.
pub open spec fn nothing() -> Share {
    Share { num: 0, den: 1 }
}

/// A score: how alike the pattern and the two contexts are. The pattern weighs three
/// times as much as a context, and a context that was not given does not count.
#[derive(Debug, Clone, Copy, PartialEq, Eq, Structural)]
pub struct Score {
    pub old: Share,
    pub before: Share,
    pub after: Share,
    /// The sum of the weights.
    pub weight: u64,
}

impl Score {
    pub open spec fn wf(self) -> bool {
        &&& self.old.wf()
        &&& self.before.wf()
        &&& self.after.wf()
        &&& 3 <= self.weight <= 5
        &&& (if self.before == nothing() { 0int } else { 1 }) + (if self.after == nothing() {
            0int
        } else {
            1
        }) <= self.weight - 3
    }

    /// The numerator of the weighted mean: three times the pattern's share and once each
    /// context's, over one denominator.
    pub open spec fn num(self) -> nat {
        3 * self.old.num as nat * self.before.den as nat * self.after.den as nat
            + self.before.num as nat * self.old.den as nat * self.after.den as nat
            + self.after.num as nat * self.old.den as nat * self.before.den as nat
    }

    /// The denominator of the weighted mean.
    pub open spec fn den(self) -> nat {
        self.weight as nat * self.old.den as nat * self.before.den as nat * self.after.den as nat
    }

    /// This score is higher than another.
    pub open spec fn beats(self, other: Score) -> bool {
        self.num() * other.den() > other.num() * self.den()
    }

    /// The score is 0.85 or more.
    pub open spec fn reaches_threshold(self) -> bool {
        self.num() * SCORE_ONE as nat >= T3_THRESHOLD as nat * self.den()
    }

    /// The score is more than 0.01.
    pub open spec fn is_some_likeness(self) -> bool {
        self.num() * 100 > self.den()
    }

    /// The score is higher than another by 0.10 or more.
    pub open spec fn leads_clearly(self, other: Score) -> bool {
        (self.num() * other.den()) * SCORE_ONE as nat >= (other.num() * self.den())
            * SCORE_ONE as nat + (self.den() * other.den()) * T3_MARGIN as nat
    }

    /// The score in billionths, rounded down.
    pub open spec fn billionths(self) -> nat {
        (self.num() * SCORE_ONE as nat) / self.den()
    }
}

/// The score of nothing at all.
pub open spec fn no_likeness() -> Score {
    Score { old: nothing(), before: nothing(), after: nothing(), weight: 3 }
}

proof fn lemma_product(a: nat, b: nat, c: nat, x: nat)
    requires
        a <= x,
    ensures
        a * b * c <= x * b * c,
{
    assert(a * b * c <= x * b * c) by (nonlinear_arith)
        requires
            a <= x,
    ;
}

/// A score lies between 0 and 1.
pub proof fn score_is_at_most_one(x: Score)
    requires
        x.wf(),
    ensures
        0 < x.den(),
        x.num() <= x.den(),
        x.billionths() <= SCORE_ONE,
{
    let o = x.old.den as nat;
    let b = x.before.den as nat;
    let a = x.after.den as nat;
    let w = x.weight as nat;
    let wb: nat = if x.before == nothing() { 0 } else { 1 };
    let wa: nat = if x.after == nothing() { 0 } else { 1 };
    lemma_product(3 * x.old.num as nat, b, a, 3 * o);
    lemma_product(x.before.num as nat, o, a, b);
    lemma_product(x.after.num as nat, o, b, a);
    assert(b * o * a == o * b * a && a * o * b == o * b * a) by (nonlinear_arith);
    assert(3 * o * b * a == 3 * (o * b * a)) by (nonlinear_arith);
    assert(x.before.num as nat * o * a <= wb * (o * b * a)) by {
        if wb == 0 {
            assert(0 * o * a == 0) by (nonlinear_arith);
        }
    }
    assert(x.after.num as nat * o * b <= wa * (o * b * a)) by {
        if wa == 0 {
            assert(0 * o * b == 0) by (nonlinear_arith);
        }
    }
    assert(3 * (o * b * a) + wb * (o * b * a) + wa * (o * b * a) <= w * (o * b * a))
        by (nonlinear_arith)
        requires
            3 + wb + wa <= w,
    ;
    assert(w * o * b * a == w * (o * b * a)) by (nonlinear_arith);
    assert(0 < w * o * b * a) by (nonlinear_arith)
        requires
            0 < w,
            0 < o,
            0 < b,
            0 < a,
    ;
    let n = x.num();
    let d = x.den();
    assert((n * SCORE_ONE as nat) / d <= SCORE_ONE) by (nonlinear_arith)
        requires
            n <= d,
            0 < d,
    ;
}

/// A score that does not beat another, which does not beat a third, does not beat that
/// one either.
pub proof fn scores_are_ordered(x: Score, y: Score, z: Score)
    requires
        x.wf(),
        y.wf(),
        z.wf(),
        !x.beats(y),
        !y.beats(z),
    ensures
        !x.beats(z),
        z.beats(y) || y.beats(x) ==> z.beats(x),
{
    score_is_at_most_one(x);
    score_is_at_most_one(y);
    score_is_at_most_one(z);
    let (xn, xd, yn, yd, zn, zd) = (x.num(), x.den(), y.num(), y.den(), z.num(), z.den());
    assert(xn * yd * zd <= yn * xd * zd) by (nonlinear_arith)
        requires
            xn * yd <= yn * xd,
    ;
    assert(yn * zd * xd <= zn * yd * xd) by (nonlinear_arith)
        requires
            yn * zd <= zn * yd,
    ;
    assert(xn * yd * zd == (xn * zd) * yd && yn * xd * zd == yn * zd * xd && zn * yd * xd == (zn
        * xd) * yd) by (nonlinear_arith);
    assert(xn * zd <= zn * xd) by (nonlinear_arith)
        requires
            (xn * zd) * yd <= (zn * xd) * yd,
            yd > 0,
    ;
    if z.beats(y) {
        assert(yn * zd * xd < zn * yd * xd) by (nonlinear_arith)
            requires
                yn * zd < zn * yd,
                xd > 0,
        ;
    }
    if y.beats(x) {
        assert(xn * yd * zd < yn * xd * zd) by (nonlinear_arith)
            requires
                xn * yd < yn * xd,
                zd > 0,
        ;
    }
    if z.beats(y) || y.beats(x) {
        assert(xn * zd < zn * xd) by (nonlinear_arith)
            requires
                (xn * zd) * yd < (zn * xd) * yd,
                yd > 0,
        ;
    }
}

impl Score {
    /// The numerator of the weighted mean.
    fn numerator(&self) -> (out: Vec<u32>)
        requires
            self.wf(),
        ensures
            number_of(out@) == self.num(),
    {
        let old: Vec<u32> = times(digits(3 * self.old.num).as_slice(), self.before.den);
        let old: Vec<u32> = times(old.as_slice(), self.after.den);
        let before: Vec<u32> = times(digits(self.before.num).as_slice(), self.old.den);
        let before: Vec<u32> = times(before.as_slice(), self.after.den);
        let after: Vec<u32> = times(digits(self.after.num).as_slice(), self.old.den);
        let after: Vec<u32> = times(after.as_slice(), self.before.den);
        plus(plus(old.as_slice(), before.as_slice()).as_slice(), after.as_slice())
    }

    /// A number times the denominator of the weighted mean.
    fn times_den(&self, n: &[u32]) -> (out: Vec<u32>)
        requires
            self.wf(),
        ensures
            number_of(out@) == number_of(n@) * self.den(),
    {
        let x: Vec<u32> = times(n, self.weight as u128);
        let x: Vec<u32> = times(x.as_slice(), self.old.den);
        let x: Vec<u32> = times(x.as_slice(), self.before.den);
        let x: Vec<u32> = times(x.as_slice(), self.after.den);
        proof {
            let (v, w, o, b, a) = (
                number_of(n@),
                self.weight as nat,
                self.old.den as nat,
                self.before.den as nat,
                self.after.den as nat,
            );
            assert(v * w * o * b * a == v * (w * o * b * a)) by (nonlinear_arith);
        }
        x
    }

    /// Whether this score is higher than another.
    pub fn is_above(&self, other: &Score) -> (r: bool)
        requires
            self.wf(),
            other.wf(),
        ensures
            r == self.beats(*other),
    {
        let x: Vec<u32> = other.times_den(self.numerator().as_slice());
        let y: Vec<u32> = self.times_den(other.numerator().as_slice());
        is_higher(x.as_slice(), y.as_slice())
    }

    /// Whether the score is 0.85 or more.
    pub fn is_high(&self) -> (r: bool)
        requires
            self.wf(),
        ensures
            r == self.reaches_threshold(),
    {
        let n: Vec<u32> = times(self.numerator().as_slice(), SCORE_ONE as u128);
        let d: Vec<u32> = self.times_den(digits(T3_THRESHOLD as u128).as_slice());
        !is_higher(d.as_slice(), n.as_slice())
    }

    /// Whether the score is more than 0.01.
    pub fn is_any(&self) -> (r: bool)
        requires
            self.wf(),
        ensures
            r == self.is_some_likeness(),
    {
        let n: Vec<u32> = times(self.numerator().as_slice(), 100);
        let d: Vec<u32> = self.times_den(digits(1).as_slice());
        proof {
            assert(1 * self.den() == self.den());
        }
        is_higher(n.as_slice(), d.as_slice())
    }

    /// Whether the score is higher than another by 0.10 or more.
    pub fn is_clearly_above(&self, other: &Score) -> (r: bool)
        requires
            self.wf(),
            other.wf(),
        ensures
            r == self.leads_clearly(*other),
    {
        let x: Vec<u32> = other.times_den(self.numerator().as_slice());
        let x: Vec<u32> = times(x.as_slice(), SCORE_ONE as u128);
        let y: Vec<u32> = self.times_den(other.numerator().as_slice());
        let y: Vec<u32> = times(y.as_slice(), SCORE_ONE as u128);
        let gap: Vec<u32> = other.times_den(self.times_den(digits(1).as_slice()).as_slice());
        let gap: Vec<u32> = times(gap.as_slice(), T3_MARGIN as u128);
        proof {
            assert(1 * self.den() == self.den());
        }
        !is_higher(plus(y.as_slice(), gap.as_slice()).as_slice(), x.as_slice())
    }

    /// The score in billionths, rounded down.
    pub fn in_billionths(&self) -> (r: u64)
        requires
            self.wf(),
        ensures
            r == self.billionths(),
            r <= SCORE_ONE,
    {
        let n: Vec<u32> = times(self.numerator().as_slice(), SCORE_ONE as u128);
        let ghost num = self.num() * SCORE_ONE as nat;
        let ghost den = self.den();
        let mut low: u64 = 0;
        let mut high: u64 = SCORE_ONE + 1;
        proof {
            score_is_at_most_one(*self);
            assert(0 * den <= num < high * den) by (nonlinear_arith)
                requires
                    num == self.num() * SCORE_ONE,
                    self.num() <= den,
                    0 < den,
                    high == SCORE_ONE + 1,
            ;
        }
        while high - low > 1
            invariant
                self.wf(),
                den == self.den(),
                number_of(n@) == num,
                low < high <= SCORE_ONE + 1,
                low * den <= num < high * den,
            decreases high - low,
        {
            let mid: u64 = low + (high - low) / 2;
            let m: Vec<u32> = self.times_den(digits(mid as u128).as_slice());
            if is_higher(m.as_slice(), n.as_slice()) {
                high = mid;
            } else {
                low = mid;
            }
        }
        proof {
            score_is_at_most_one(*self);
            assert(num / den == low) by (nonlinear_arith)
                requires
                    low * den <= num < (low + 1) * den,
                    0 < den,
            ;
        }
        low
    }
}

} // verus!
