//! Exact rational scores.
//!
//! A score is a fraction `num / den` of unsigned integers. Per-question
//! partial credit is always a fraction whose denominator is the number of
//! correct options, and whole-variant totals are exact sums of such
//! fractions, so no floating point is needed anywhere in the engine.

use vstd::prelude::*;

verus! {

/// An exact nonnegative rational number `num / den`.
#[derive(Clone, Copy, Debug, PartialEq, Eq, Structural)]
pub struct Score {
    pub num: u64,
    pub den: u64,
}

/// `d` divides `n` exactly.
pub open spec fn divides(d: int, n: int) -> bool {
    exists|k: int| n == #[trigger] (d * k)
}

/// Numerator of the exact sum of a sequence of fractions, paired with
/// `sum_den` as the common denominator (the product of all denominators).
pub open spec fn sum_num(s: Seq<Score>) -> int
    decreases s.len(),
{
    if s.len() == 0 {
        0
    } else {
        s[0].num * sum_den(s.drop_first()) + sum_num(s.drop_first()) * s[0].den
    }
}

/// Denominator of the exact sum of a sequence of fractions: the product of
/// all the denominators.
pub open spec fn sum_den(s: Seq<Score>) -> int
    decreases s.len(),
{
    if s.len() == 0 {
        1
    } else {
        s[0].den * sum_den(s.drop_first())
    }
}

impl Score {
    /// A score is well formed when its denominator is positive.
    pub open spec fn wf(self) -> bool {
        self.den >= 1
    }

    /// This fraction equals the exact sum of the fractions in `s`.
    pub open spec fn is_sum_of(self, s: Seq<Score>) -> bool {
        self.num * sum_den(s) == sum_num(s) * self.den
    }

    pub fn new(num: u64, den: u64) -> (r: Score)
        requires
            den >= 1,
        ensures
            r == (Score { num, den }),
    {
        Score { num, den }
    }

    /// Exact addition of two fractions, reduced by a common divisor of the
    /// raw numerator and denominator. Returns `None` only when the reduced
    /// result still does not fit in `u64`; in particular addition always
    /// succeeds when the unreduced sum fits.
    pub fn add(self, other: Score) -> (r: Option<Score>)
        requires
            self.wf(),
            other.wf(),
        ensures
            r matches Some(s) ==> {
                &&& s.wf()
                &&& s.num * (self.den * other.den) == (self.num * other.den + other.num
                    * self.den) * s.den
                &&& divides(s.den as int, self.den * other.den)
                &&& s.num <= self.num * other.den + other.num * self.den
            },
            self.num * other.den + other.num * self.den <= u64::MAX && self.den * other.den
                <= u64::MAX ==> r is Some,
    {
        proof {
            lemma_u64_mul_fits(self.num as int, other.den as int);
            lemma_u64_mul_fits(other.num as int, self.den as int);
            lemma_u64_mul_fits(self.den as int, other.den as int);
        }
        let n1 = (self.num as u128) * (other.den as u128);
        let n2 = (other.num as u128) * (self.den as u128);
        let num = match n1.checked_add(n2) {
            Some(n) => n,
            None => {
                proof {
                    assert(n1 + n2 > u64::MAX) by (nonlinear_arith)
                        requires
                            n1 + n2 > u128::MAX,
                    ;
                }
                return None;
            },
        };
        let den = (self.den as u128) * (other.den as u128);
        proof {
            assert((self.den as int) * (other.den as int) >= 1) by (nonlinear_arith)
                requires
                    self.den >= 1,
                    other.den >= 1,
            ;
        }
        let g = gcd_u128(num, den);
        let rn = num / g;
        let rd = den / g;
        proof {
            lemma_reduce_exact(num as int, den as int, g as int, rn as int, rd as int);
        }
        if rn <= u64::MAX as u128 && rd <= u64::MAX as u128 {
            let s = Score { num: rn as u64, den: rd as u64 };
            proof {
                lemma_reduced_value(
                    self.num as int,
                    self.den as int,
                    other.num as int,
                    other.den as int,
                    g as int,
                    rn as int,
                    rd as int,
                );
            }
            Some(s)
        } else {
            proof {
                assert(rn <= num && rd <= den) by (nonlinear_arith)
                    requires
                        g >= 1,
                        num == g * rn,
                        den == g * rd,
                        rn >= 0,
                        rd >= 0,
                ;
            }
            None
        }
    }
}

/// After dividing by a common divisor `g`, the quotients reconstruct the
/// original values exactly.
proof fn lemma_reduce_exact(num: int, den: int, g: int, rn: int, rd: int)
    requires
        g >= 1,
        den >= 1,
        num >= 0,
        divides(g, num),
        divides(g, den),
        rn == num / g,
        rd == den / g,
    ensures
        num == g * rn,
        den == g * rd,
        rd >= 1,
        rn >= 0,
{
    let kn = choose|k: int| num == #[trigger] (g * k);
    let kd = choose|k: int| den == #[trigger] (g * k);
    vstd::arithmetic::div_mod::lemma_div_multiples_vanish(kn, g);
    vstd::arithmetic::div_mod::lemma_div_multiples_vanish(kd, g);
    assert(rn == kn && rd == kd);
    assert(rd >= 1) by (nonlinear_arith)
        requires
            g >= 1,
            g * rd >= 1,
    ;
    assert(rn >= 0) by (nonlinear_arith)
        requires
            g >= 1,
            g * rn >= 0,
    ;
}

/// The reduced fraction `rn / rd` has the same value as the unreduced sum,
/// divides its denominator, and its numerator is no larger.
proof fn lemma_reduced_value(an: int, ad: int, bn: int, bd: int, g: int, rn: int, rd: int)
    requires
        g >= 1,
        rn >= 0,
        rd >= 1,
        an * bd + bn * ad == g * rn,
        ad * bd == g * rd,
    ensures
        rn * (ad * bd) == (an * bd + bn * ad) * rd,
        divides(rd, ad * bd),
        rn <= an * bd + bn * ad,
{
    assert(rn * (ad * bd) == (an * bd + bn * ad) * rd) by (nonlinear_arith)
        requires
            an * bd + bn * ad == g * rn,
            ad * bd == g * rd,
    ;
    assert(ad * bd == rd * g);
    assert(divides(rd, ad * bd));
    assert(rn <= g * rn) by (nonlinear_arith)
        requires
            g >= 1,
            rn >= 0,
    ;
}

/// Euclid's algorithm. The result is a positive common divisor of both
/// arguments.
fn gcd_u128(a: u128, b: u128) -> (g: u128)
    requires
        a >= 1 || b >= 1,
    ensures
        g >= 1,
        divides(g as int, a as int),
        divides(g as int, b as int),
{
    let mut x = a;
    let mut y = b;
    while y != 0
        invariant
            x >= 1 || y >= 1,
            forall|d: int|
                1 <= d && divides(d, x as int) && divides(d, y as int) ==> divides(d, a as int)
                    && divides(d, b as int),
        decreases y,
    {
        let r = x % y;
        proof {
            lemma_mod_preserves_common_divisors(x as int, y as int, r as int);
        }
        x = y;
        y = r;
    }
    proof {
        assert(x as int == (x as int) * 1);
        assert(0int == (x as int) * 0);
        assert(divides(x as int, x as int));
        assert(divides(x as int, 0int));
    }
    x
}

/// A common divisor of `y` and `x % y` also divides `x`.
proof fn lemma_mod_preserves_common_divisors(x: int, y: int, r: int)
    requires
        x >= 0,
        y >= 1,
        r == x % y,
    ensures
        forall|d: int| 1 <= d && divides(d, y) && divides(d, r) ==> divides(d, x),
{
    vstd::arithmetic::div_mod::lemma_fundamental_div_mod(x, y);
    assert forall|d: int| 1 <= d && divides(d, y) && divides(d, r) implies divides(d, x) by {
        let ky = choose|k: int| y == #[trigger] (d * k);
        let kr = choose|k: int| r == #[trigger] (d * k);
        let q = x / y;
        assert(x == d * (ky * q + kr)) by (nonlinear_arith)
            requires
                x == y * q + r,
                y == d * ky,
                r == d * kr,
        ;
    }
}

/// The exact sum of the concatenation of two score sequences, as one
/// fraction over the product of all denominators.
pub proof fn lemma_sum_split(s1: Seq<Score>, s2: Seq<Score>)
    ensures
        sum_den(s1 + s2) == sum_den(s1) * sum_den(s2),
        sum_num(s1 + s2) == sum_num(s1) * sum_den(s2) + sum_num(s2) * sum_den(s1),
    decreases s1.len(),
{
    if s1.len() == 0 {
        assert(s1 + s2 =~= s2);
        assert(sum_den(s2) == 1 * sum_den(s2)) by (nonlinear_arith);
        assert(sum_num(s2) == 0 * sum_den(s2) + sum_num(s2) * 1) by (nonlinear_arith);
    } else {
        let t1 = s1.drop_first();
        lemma_sum_split(t1, s2);
        assert((s1 + s2).drop_first() =~= t1 + s2);
        let h = s1[0];
        let dn = sum_den(t1 + s2);
        let nm = sum_num(t1 + s2);
        assert(sum_den(s1 + s2) == h.den * dn);
        assert(sum_num(s1 + s2) == h.num * dn + nm * h.den);
        assert(h.den * (sum_den(t1) * sum_den(s2)) == (h.den * sum_den(t1)) * sum_den(s2))
            by (nonlinear_arith);
        let sn1 = sum_num(t1);
        let sd1 = sum_den(t1);
        let sn2 = sum_num(s2);
        let sd2 = sum_den(s2);
        assert(h.num * dn == (h.num * sd1) * sd2) by (nonlinear_arith)
            requires
                dn == sd1 * sd2,
        ;
        assert(nm * h.den == (sn1 * h.den) * sd2 + sn2 * (h.den * sd1)) by (nonlinear_arith)
            requires
                nm == sn1 * sd2 + sn2 * sd1,
        ;
        assert((h.num * sd1 + sn1 * h.den) * sd2 == (h.num * sd1) * sd2 + (sn1 * h.den) * sd2)
            by (nonlinear_arith);
    }
}

/// All denominators positive makes the common denominator positive and the
/// numerator nonnegative.
pub proof fn lemma_sum_bounds(s: Seq<Score>)
    requires
        forall|i: int| 0 <= i < s.len() ==> s[i].wf(),
    ensures
        sum_den(s) >= 1,
        sum_num(s) >= 0,
    decreases s.len(),
{
    if s.len() > 0 {
        lemma_sum_bounds(s.drop_first());
        let t = s.drop_first();
        assert(s[0].den * sum_den(t) >= 1) by (nonlinear_arith)
            requires
                s[0].den >= 1,
                sum_den(t) >= 1,
        ;
        assert(s[0].num * sum_den(t) + sum_num(t) * s[0].den >= 0) by (nonlinear_arith)
            requires
                s[0].num >= 0,
                sum_den(t) >= 1,
                sum_num(t) >= 0,
                s[0].den >= 1,
        ;
    }
}

/// Folding `Score::add` over a whole sequence. The result, when it exists,
/// is the exact rational sum of the sequence; it always exists when the sum
/// over the product of all denominators fits in `u64`.
pub fn total_score(scores: &Vec<Score>) -> (r: Option<Score>)
    requires
        forall|i: int| 0 <= i < scores@.len() ==> scores@[i].wf(),
    ensures
        r matches Some(m) ==> m.wf() && m.is_sum_of(scores@),
        sum_num(scores@) <= u64::MAX && sum_den(scores@) <= u64::MAX ==> r is Some,
{
    let whole = Ghost(scores@);
    let mut cur = Score { num: 0, den: 1 };
    let mut i: usize = scores.len();
    proof {
        assert(scores@.subrange(i as int, scores@.len() as int) =~= Seq::<Score>::empty());
        assert(1int == 1int * 1int);
        assert(divides(1int, 1int));
    }
    while i > 0
        invariant
            i <= scores@.len(),
            whole@ == scores@,
            forall|j: int| 0 <= j < scores@.len() ==> scores@[j].wf(),
            cur.wf(),
            cur.is_sum_of(scores@.subrange(i as int, scores@.len() as int)),
            divides(cur.den as int, sum_den(scores@.subrange(i as int, scores@.len() as int))),
            cur.num <= sum_num(scores@.subrange(i as int, scores@.len() as int)),
        decreases i,
    {
        i = i - 1;
        let a = scores[i];
        let ghost part = scores@.subrange(i + 1, scores@.len() as int);
        let ghost ext = scores@.subrange(i as int, scores@.len() as int);
        proof {
            assert(ext.drop_first() =~= part);
            lemma_sum_bounds(part);
            lemma_sum_bounds(ext);
        }
        match a.add(cur) {
            Some(s) => {
                proof {
                    lemma_step_sum(a, cur, s, sum_num(part), sum_den(part));
                }
                cur = s;
            },
            None => {
                proof {
                    lemma_step_fits(scores@, i as int, a, cur);
                }
                return None;
            },
        }
    }
    proof {
        assert(scores@.subrange(0, scores@.len() as int) =~= scores@);
    }
    Some(cur)
}

/// One fold step keeps the running fraction equal to the exact sum of the
/// processed suffix, with its denominator dividing and its numerator bounded
/// by the unreduced suffix sum.
proof fn lemma_step_sum(a: Score, b: Score, s: Score, pn: int, pd: int)
    requires
        a.wf(),
        b.wf(),
        s.wf(),
        pd >= 1,
        pn >= 0,
        b.num * pd == pn * b.den,
        divides(b.den as int, pd),
        b.num <= pn,
        s.num * (a.den * b.den) == (a.num * b.den + b.num * a.den) * s.den,
        divides(s.den as int, a.den * b.den),
        s.num <= a.num * b.den + b.num * a.den,
    ensures
        s.num * (a.den * pd) == (a.num * pd + pn * a.den) * s.den,
        divides(s.den as int, a.den * pd),
        s.num <= a.num * pd + pn * a.den,
{
    let kb = choose|k: int| pd == #[trigger] (b.den * k);
    assert(kb >= 1) by (nonlinear_arith)
        requires
            pd >= 1,
            b.den >= 1,
            pd == b.den * kb,
    ;
    // Value: multiply the step equation by kb and substitute pd == b.den * kb.
    assert(b.num * kb == pn) by (nonlinear_arith)
        requires
            b.num * pd == pn * b.den,
            pd == b.den * kb,
            b.den >= 1,
    ;
    assert(s.num * (a.den * pd) == ((a.num * b.den + b.num * a.den) * s.den) * kb)
        by (nonlinear_arith)
        requires
            s.num * (a.den * b.den) == (a.num * b.den + b.num * a.den) * s.den,
            pd == b.den * kb,
    ;
    assert(((a.num * b.den + b.num * a.den) * s.den) * kb == (a.num * pd + pn * a.den) * s.den)
        by (nonlinear_arith)
        requires
            pd == b.den * kb,
            b.num * kb == pn,
    ;
    // Divisibility: s.den | a.den * b.den | a.den * pd.
    let ks = choose|k: int| a.den * b.den == #[trigger] (s.den * k);
    assert(a.den * pd == s.den * (ks * kb)) by (nonlinear_arith)
        requires
            a.den * b.den == s.den * ks,
            pd == b.den * kb,
    ;
    assert(divides(s.den as int, a.den * pd));
    // Numerator bound.
    assert(b.den <= pd) by (nonlinear_arith)
        requires
            pd == b.den * kb,
            kb >= 1,
            b.den >= 1,
    ;
    assert(a.num * b.den + b.num * a.den <= a.num * pd + pn * a.den) by (nonlinear_arith)
        requires
            b.den <= pd,
            a.num >= 0,
            b.num <= pn,
            a.den >= 1,
    ;
}

/// If one fold step fails, the whole sum cannot fit in `u64`.
proof fn lemma_step_fits(s: Seq<Score>, i: int, a: Score, b: Score)
    requires
        0 <= i < s.len(),
        forall|j: int| 0 <= j < s.len() ==> s[j].wf(),
        a == s[i],
        b.wf(),
        b.num * sum_den(s.subrange(i + 1, s.len() as int)) == sum_num(
            s.subrange(i + 1, s.len() as int),
        ) * b.den,
        divides(b.den as int, sum_den(s.subrange(i + 1, s.len() as int))),
        b.num <= sum_num(s.subrange(i + 1, s.len() as int)),
        a.num * b.den + b.num * a.den > u64::MAX || a.den * b.den > u64::MAX,
    ensures
        sum_num(s) > u64::MAX || sum_den(s) > u64::MAX,
{
    let part = s.subrange(i + 1, s.len() as int);
    let ext = s.subrange(i, s.len() as int);
    let pre = s.subrange(0, i);
    assert(ext.drop_first() =~= part);
    assert(pre + ext =~= s);
    assert(forall|j: int| 0 <= j < part.len() ==> part[j].wf());
    assert(forall|j: int| 0 <= j < pre.len() ==> pre[j].wf());
    lemma_sum_bounds(part);
    lemma_sum_bounds(pre);
    lemma_sum_split(pre, ext);
    let pn = sum_num(part);
    let pd = sum_den(part);
    let kb = choose|k: int| pd == #[trigger] (b.den * k);
    assert(kb >= 1) by (nonlinear_arith)
        requires
            pd >= 1,
            b.den >= 1,
            pd == b.den * kb,
    ;
    assert(b.den <= pd) by (nonlinear_arith)
        requires
            pd == b.den * kb,
            kb >= 1,
            b.den >= 1,
    ;
    // Bound the extended suffix sums from below by the failing step values.
    assert(sum_den(ext) == a.den * pd);
    assert(sum_num(ext) == a.num * pd + pn * a.den);
    assert(a.den * b.den <= a.den * pd) by (nonlinear_arith)
        requires
            b.den <= pd,
            a.den >= 1,
    ;
    assert(a.num * b.den + b.num * a.den <= a.num * pd + pn * a.den) by (nonlinear_arith)
        requires
            b.den <= pd,
            a.num >= 0,
            b.num <= pn,
            a.den >= 1,
    ;
    // Bound the whole sums from below by the suffix sums.
    assert(sum_den(s) == sum_den(pre) * sum_den(ext));
    assert(sum_num(s) == sum_num(pre) * sum_den(ext) + sum_num(ext) * sum_den(pre));
    lemma_sum_bounds(ext);
    assert(sum_den(ext) <= sum_den(s)) by (nonlinear_arith)
        requires
            sum_den(s) == sum_den(pre) * sum_den(ext),
            sum_den(pre) >= 1,
            sum_den(ext) >= 0,
    ;
    assert(sum_num(ext) <= sum_num(s)) by (nonlinear_arith)
        requires
            sum_num(s) == sum_num(pre) * sum_den(ext) + sum_num(ext) * sum_den(pre),
            sum_num(pre) >= 0,
            sum_den(ext) >= 1,
            sum_den(pre) >= 1,
            sum_num(ext) >= 0,
    ;
}

/// The product of two values below `u64::MAX` fits in `u128`.
proof fn lemma_u64_mul_fits(a: int, b: int)
    requires
        0 <= a <= u64::MAX,
        0 <= b <= u64::MAX,
    ensures
        a * b <= u128::MAX,
{
    assert(a * b <= (u64::MAX as int) * (u64::MAX as int)) by (nonlinear_arith)
        requires
            0 <= a <= u64::MAX,
            0 <= b <= u64::MAX,
    ;
}

} // verus!
