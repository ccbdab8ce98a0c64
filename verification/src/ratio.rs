//! Exact rational accuracy values.
//!
//! Session accuracy and the running overall accuracy are kept as exact
//! fractions instead of floating-point approximations, so the running
//! weighted average `(old_avg * (n - 1) + session_accuracy) / n` can be
//! computed and reasoned about without rounding.

use vstd::prelude::*;
use vstd::arithmetic::div_mod::{
    lemma_fundamental_div_mod, lemma_mod_multiples_basic, lemma_add_mod_noop, lemma_mod_self_0,
    lemma_small_mod, lemma_div_is_ordered,
};
use vstd::arithmetic::mul::{lemma_mul_upper_bound, lemma_mul_inequality};

verus! {

/// An exact nonnegative rational, at most one: `num / den`.
#[derive(Clone, Copy, Debug, PartialEq, Eq, Structural)]
pub struct Ratio {
    pub num: u64,
    pub den: u64,
}

/// Two fractions are equal as rationals when they cross-multiply equally.
pub open spec fn rat_eq(an: int, ad: int, bn: int, bd: int) -> bool {
    an * bd == bn * ad
}

impl Ratio {
    /// A well-formed ratio has a positive denominator and a value
    /// between zero and one.
    pub open spec fn wf(self) -> bool {
        1 <= self.den && self.num <= self.den
    }

    /// The zero value.
    pub fn zero() -> (r: Ratio)
        ensures
            r.wf(),
            r.num == 0,
            r.den == 1,
    {
        Ratio { num: 0, den: 1 }
    }
}

/// Numerator of one session's accuracy: `correct`, or 0 for an empty
/// session.
pub open spec fn accuracy_num(correct: u32, total: u32) -> int {
    if total == 0 {
        0
    } else {
        correct as int
    }
}

/// Denominator of one session's accuracy: `total`, or 1 for an empty
/// session.
pub open spec fn accuracy_den(total: u32) -> int {
    if total == 0 {
        1
    } else {
        total as int
    }
}

/// One session's accuracy, `correct / total`.  A session with zero
/// attempts yields the value zero rather than a division fault.
pub fn accuracy_of(correct: u32, total: u32) -> (r: Ratio)
    requires
        correct <= total,
    ensures
        r.wf(),
        r.num == accuracy_num(correct, total),
        r.den == accuracy_den(total),
        total == 0 ==> r.num == 0,
{
    if total == 0 {
        Ratio { num: 0, den: 1 }
    } else {
        Ratio { num: correct as u64, den: total as u64 }
    }
}

/// Numerator of `(acc * (n - 1) + session) / n` over exact fractions.
pub open spec fn fold_num(an: int, ad: int, n: int, sn: int, sd: int) -> int {
    an * (n - 1) * sd + sn * ad
}

/// Denominator of `(acc * (n - 1) + session) / n` over exact fractions.
pub open spec fn fold_den(ad: int, n: int, sd: int) -> int {
    ad * n * sd
}

/// Greatest common divisor, by Euclid's recursion.
pub open spec fn gcd(a: nat, b: nat) -> nat
    decreases b,
{
    if b == 0 {
        a
    } else {
        gcd(b, a % b)
    }
}

/// The gcd of two numbers, not both zero, is positive and divides both.
pub proof fn lemma_gcd_divides(a: nat, b: nat)
    requires
        a > 0 || b > 0,
    ensures
        gcd(a, b) > 0,
        a % gcd(a, b) == 0,
        b % gcd(a, b) == 0,
    decreases b,
{
    if b == 0 {
        lemma_mod_self_0(a as int);
        lemma_small_mod(0, a);
    } else {
        lemma_gcd_divides(b, a % b);
        let g = gcd(a, b) as int;
        let ai = a as int;
        let bi = b as int;
        lemma_fundamental_div_mod(ai, bi);
        lemma_fundamental_div_mod(bi, g);
        assert(bi == g * (bi / g));
        assert(bi * (ai / bi) == g * ((bi / g) * (ai / bi))) by (nonlinear_arith)
            requires
                bi == g * (bi / g),
        {}
        lemma_mod_multiples_basic((bi / g) * (ai / bi), g);
        assert((bi * (ai / bi)) % g == 0);
        lemma_add_mod_noop(bi * (ai / bi), ai % bi, g);
        lemma_small_mod(0, g as nat);
        assert(ai % g == 0);
    }
}

/// Dividing numerator and denominator by a common divisor keeps the
/// value of the fraction.
pub proof fn lemma_reduce_keeps_value(n: int, d: int, g: int)
    requires
        0 <= n,
        1 <= d,
        1 <= g,
        n % g == 0,
        d % g == 0,
    ensures
        rat_eq(n / g, d / g, n, d),
        1 <= d / g,
{
    lemma_fundamental_div_mod(n, g);
    lemma_fundamental_div_mod(d, g);
    assert(n == g * (n / g));
    assert(d == g * (d / g));
    assert((n / g) * d == n * (d / g)) by (nonlinear_arith)
        requires
            n == g * (n / g),
            d == g * (d / g),
    {}
    assert(d / g >= 1) by (nonlinear_arith)
        requires
            d == g * (d / g),
            d >= 1,
            g >= 1,
    {}
}

/// Computes the greatest common divisor of two machine integers.
pub fn gcd_u128(a0: u128, b0: u128) -> (g: u128)
    ensures
        g as nat == gcd(a0 as nat, b0 as nat),
{
    let mut a = a0;
    let mut b = b0;
    while b != 0
        invariant
            gcd(a as nat, b as nat) == gcd(a0 as nat, b0 as nat),
        decreases b,
    {
        let r = a % b;
        a = b;
        b = r;
    }
    a
}

/// Halves numerator and denominator until both fit in 64-bit words.
/// The value is kept to within one part in 2^63, since the denominator
/// stays above half of `u64::MAX`.
pub open spec fn shrink_frac(n: nat, d: nat) -> (nat, nat)
    decreases n + d,
{
    if n <= u64::MAX && d <= u64::MAX {
        (n, d)
    } else {
        shrink_frac(n / 2, d / 2)
    }
}

/// The running accuracy after folding one more session, as stored:
/// the exact fraction `(acc * (n - 1) + correct/total) / n` in lowest
/// terms, halved down only if even the reduced fraction exceeds 64-bit
/// words.
pub open spec fn fold_result(acc: Ratio, n: u32, correct: u32, total: u32) -> Ratio {
    let fnum = fold_num(
        acc.num as int,
        acc.den as int,
        n as int,
        accuracy_num(correct, total),
        accuracy_den(total),
    );
    let fden = fold_den(acc.den as int, n as int, accuracy_den(total));
    let g = gcd(fnum as nat, fden as nat) as int;
    if fnum / g <= u64::MAX && fden / g <= u64::MAX {
        Ratio { num: (fnum / g) as u64, den: (fden / g) as u64 }
    } else {
        let s = shrink_frac((fnum / g) as nat, (fden / g) as nat);
        Ratio { num: s.0 as u64, den: s.1 as u64 }
    }
}

/// Folds one session's accuracy into the running average:
/// `(acc * (n - 1) + correct/total) / n`, returned in lowest terms,
/// rounded by halving only when even the reduced exact fraction cannot
/// fit in 64-bit words.  Whenever the reduced fraction fits, the
/// result is rationally equal to the exact update.
pub fn fold_accuracy(acc: Ratio, n: u32, correct: u32, total: u32) -> (r: Ratio)
    requires
        acc.wf(),
        n >= 1,
        correct <= total,
    ensures
        r == fold_result(acc, n, correct, total),
        r.wf(),
        ({
            let fnum = fold_num(
                acc.num as int,
                acc.den as int,
                n as int,
                accuracy_num(correct, total),
                accuracy_den(total),
            );
            let fden = fold_den(acc.den as int, n as int, accuracy_den(total));
            let g = gcd(fnum as nat, fden as nat) as int;
            fnum / g <= u64::MAX && fden / g <= u64::MAX ==> rat_eq(
                r.num as int,
                r.den as int,
                fnum,
                fden,
            )
        }),
{
    let sn: u64 = if total == 0 {
        0
    } else {
        correct as u64
    };
    let sd: u64 = if total == 0 {
        1
    } else {
        total as u64
    };
    let ghost fnum_s = fold_num(
        acc.num as int,
        acc.den as int,
        n as int,
        accuracy_num(correct, total),
        accuracy_den(total),
    );
    let ghost fden_s = fold_den(acc.den as int, n as int, accuracy_den(total));
    proof {
        lemma_mul_upper_bound(acc.num as int, u64::MAX as int, (n - 1) as int, u32::MAX as int);
        lemma_mul_upper_bound(
            acc.num as int * (n - 1) as int,
            u64::MAX as int * u32::MAX as int,
            sd as int,
            u32::MAX as int,
        );
        lemma_mul_upper_bound(sn as int, u32::MAX as int, acc.den as int, u64::MAX as int);
        lemma_mul_upper_bound(acc.den as int, u64::MAX as int, n as int, u32::MAX as int);
        lemma_mul_upper_bound(
            acc.den as int * n as int,
            u64::MAX as int * u32::MAX as int,
            sd as int,
            u32::MAX as int,
        );
        assert(u64::MAX as int * u32::MAX as int * u32::MAX as int + u32::MAX as int
            * u64::MAX as int <= u128::MAX as int) by (nonlinear_arith);
    }
    let fnum: u128 = (acc.num as u128) * ((n - 1) as u128) * (sd as u128) + (sn as u128) * (
    acc.den as u128);
    let fden: u128 = (acc.den as u128) * (n as u128) * (sd as u128);
    proof {
        assert(fden_s >= 1) by (nonlinear_arith)
            requires
                fden_s == acc.den as int * n as int * sd as int,
                acc.den >= 1,
                n >= 1,
                sd >= 1,
        {}
        assert(fnum_s <= fden_s) by (nonlinear_arith)
            requires
                fnum_s == acc.num as int * (n - 1) as int * sd as int + sn as int * acc.den as int,
                fden_s == acc.den as int * n as int * sd as int,
                0 <= acc.num <= acc.den,
                0 <= sn <= sd,
                n >= 1,
        {}
        lemma_gcd_divides(fnum as nat, fden as nat);
    }
    let g = gcd_u128(fnum, fden);
    let qn = fnum / g;
    let qd = fden / g;
    proof {
        lemma_reduce_keeps_value(fnum as int, fden as int, g as int);
        lemma_div_is_ordered(fnum as int, fden as int, g as int);
    }
    if qn <= u64::MAX as u128 && qd <= u64::MAX as u128 {
        Ratio { num: qn as u64, den: qd as u64 }
    } else {
        let mut sn128 = qn;
        let mut sd128 = qd;
        while sn128 > u64::MAX as u128 || sd128 > u64::MAX as u128
            invariant
                shrink_frac(qn as nat, qd as nat) == shrink_frac(sn128 as nat, sd128 as nat),
                1 <= sd128,
                sn128 <= sd128,
            decreases sn128 + sd128,
        {
            proof {
                lemma_div_is_ordered(sn128 as int, sd128 as int, 2);
            }
            sn128 = sn128 / 2;
            sd128 = sd128 / 2;
        }
        Ratio { num: sn128 as u64, den: sd128 as u64 }
    }
}

/// All entries are well-formed accuracies: fractions between zero and
/// one with positive denominators.
pub open spec fn rats_wf(accs: Seq<(int, int)>) -> bool {
    forall|i: int|
        0 <= i < accs.len() ==> 0 <= #[trigger] accs[i].0 <= accs[i].1 && accs[i].1 >= 1
}

/// The running accuracy after folding each session of `accs` in turn,
/// starting from zero, with the update `(acc * (k - 1) + s_k) / k`.
pub open spec fn folded_accuracy(accs: Seq<(int, int)>) -> (int, int)
    decreases accs.len(),
{
    if accs.len() == 0 {
        (0int, 1int)
    } else {
        let p = folded_accuracy(accs.drop_last());
        let s = accs.last();
        (fold_num(p.0, p.1, accs.len() as int, s.0, s.1), fold_den(p.1, accs.len() as int, s.1))
    }
}

/// The exact sum of the session accuracies, as one fraction.
pub open spec fn sum_accuracy(accs: Seq<(int, int)>) -> (int, int)
    decreases accs.len(),
{
    if accs.len() == 0 {
        (0int, 1int)
    } else {
        let p = sum_accuracy(accs.drop_last());
        let s = accs.last();
        (p.0 * s.1 + s.0 * p.1, p.1 * s.1)
    }
}

/// Law: after `N` sessions, the incrementally folded running accuracy
/// `(old_avg * (N - 1) + session_N) / N` equals the plain mean
/// `(s_1 + s_2 + ... + s_N) / N` of the sessions' raw accuracies.
pub proof fn lemma_folded_accuracy_is_mean(accs: Seq<(int, int)>)
    requires
        rats_wf(accs),
        accs.len() >= 1,
    ensures
        ({
            let f = folded_accuracy(accs);
            let s = sum_accuracy(accs);
            &&& f.1 >= 1
            &&& s.1 >= 1
            &&& rat_eq(f.0, f.1, s.0, s.1 * accs.len())
        }),
    decreases accs.len(),
{
    let pre = accs.drop_last();
    let s = accs.last();
    let n = accs.len() as int;
    let f = folded_accuracy(accs);
    let sm = sum_accuracy(accs);
    assert(rats_wf(pre));
    if accs.len() == 1 {
        assert(pre.len() == 0);
        assert(folded_accuracy(pre) == (0int, 1int));
        assert(sum_accuracy(pre) == (0int, 1int));
        assert(f.0 == 0int * (n - 1) * s.1 + s.0 * 1int);
        assert(f.1 == 1int * n * s.1);
        assert(f.0 == s.0) by (nonlinear_arith)
            requires
                f.0 == 0int * (n - 1) * s.1 + s.0 * 1int,
        {}
        assert(f.1 == s.1) by (nonlinear_arith)
            requires
                f.1 == 1int * n * s.1,
                n == 1,
        {}
        assert(sm.0 == 0int * s.1 + s.0 * 1int);
        assert(sm.1 == 1int * s.1);
        assert(sm.0 == s.0) by (nonlinear_arith)
            requires
                sm.0 == 0int * s.1 + s.0 * 1int,
        {}
        assert(sm.1 == s.1) by (nonlinear_arith)
            requires
                sm.1 == 1int * s.1,
        {}
        assert(s.0 * (s.1 * 1) == s.0 * s.1) by (nonlinear_arith);
    } else {
        lemma_folded_accuracy_is_mean(pre);
        let fp = folded_accuracy(pre);
        let sp = sum_accuracy(pre);
        let a = fp.0;
        let b = fp.1;
        let c = sp.0;
        let d = sp.1;
        let e = s.0;
        let t = s.1;
        assert(a * (d * (n - 1)) == c * b);
        assert((a * (n - 1) * t + e * b) * (d * t * n) == (a * (n - 1) * t) * (d * t * n) + (e * b)
            * (d * t * n)) by (nonlinear_arith);
        assert((c * t + e * d) * (b * n * t) == (c * t) * (b * n * t) + (e * d) * (b * n * t))
            by (nonlinear_arith);
        assert((a * (n - 1) * t) * (d * t * n) == (c * b) * (t * t * n)) by (nonlinear_arith)
            requires
                a * (d * (n - 1)) == c * b,
        {}
        assert((e * b) * (d * t * n) == (e * d) * (b * n * t)) by (nonlinear_arith);
        assert((c * t) * (b * n * t) == (c * b) * (t * t * n)) by (nonlinear_arith);
        assert(f.0 * (sm.1 * n) == sm.0 * f.1) by (nonlinear_arith)
            requires
                f.0 == a * (n - 1) * t + e * b,
                f.1 == b * n * t,
                sm.0 == c * t + e * d,
                sm.1 == d * t,
                (a * (n - 1) * t + e * b) * (d * t * n) == (c * t + e * d) * (b * n * t),
        {}
        assert(f.1 >= 1) by (nonlinear_arith)
            requires
                f.1 == b * n * t,
                b >= 1,
                t >= 1,
                n >= 2,
        {}
        assert(sm.1 >= 1) by (nonlinear_arith)
            requires
                sm.1 == d * t,
                d >= 1,
                t >= 1,
        {}
    }
}

} // verus!
