use vstd::prelude::*;
use vstd::arithmetic::div_mod::{
    lemma_fundamental_div_mod, lemma_fundamental_div_mod_converse, lemma_div_is_ordered,
};
use crate::template::Values;

verus! {

pub open spec fn seq_sum(s: Seq<u64>) -> int
    decreases s.len(),
{
    if s.len() == 0 {
        0
    } else {
        seq_sum(s.drop_last()) + s.last()
    }
}

/// The smallest member of a non-empty sequence.
pub open spec fn seq_min(s: Seq<u64>) -> int
    decreases s.len(),
{
    if s.len() <= 1 {
        s[0] as int
    } else {
        let m = seq_min(s.drop_last());
        if s.last() < m { s.last() as int } else { m }
    }
}

/// The largest member of a non-empty sequence.
pub open spec fn seq_max(s: Seq<u64>) -> int
    decreases s.len(),
{
    if s.len() <= 1 {
        s[0] as int
    } else {
        let m = seq_max(s.drop_last());
        if s.last() > m { s.last() as int } else { m }
    }
}

/// The mean rounded to the nearest integer, halves rounded away from zero
/// (the members are never negative).
pub open spec fn rounded_mean(s: Seq<u64>) -> int {
    (2 * seq_sum(s) + s.len()) / (2 * s.len() as int)
}

/// Minimum, maximum and rounded mean of a non-empty sequence of readings.
pub open spec fn summary(s: Seq<u64>) -> Values {
    Values { min: seq_min(s) as u64, max: seq_max(s) as u64, average: rounded_mean(s) as u64 }
}

proof fn lemma_sum_bounds(s: Seq<u64>)
    requires
        s.len() > 0,
    ensures
        seq_min(s) * s.len() <= seq_sum(s) <= seq_max(s) * s.len(),
        0 <= seq_min(s) <= seq_max(s) < 0x1_0000_0000_0000_0000,
        0 <= seq_sum(s) <= s.len() * 0xffff_ffff_ffff_ffff,
    decreases s.len(),
{
    let p = s.drop_last();
    let n = p.len() as int;
    assert(seq_sum(s) == seq_sum(p) + s.last());
    if s.len() == 1 {
        assert(p.len() == 0);
        assert(seq_sum(p) == 0);
        assert(seq_sum(s) == s[0]);
    } else {
        lemma_sum_bounds(p);
        assert(seq_min(s) * (n + 1) <= seq_sum(p) + s.last()) by (nonlinear_arith)
            requires
                seq_min(s) <= seq_min(p),
                seq_min(s) <= s.last(),
                seq_min(p) * n <= seq_sum(p),
                0 <= seq_min(s),
                n >= 0,
        ;
        assert(seq_max(s) * (n + 1) >= seq_sum(p) + s.last()) by (nonlinear_arith)
            requires
                seq_max(s) >= seq_max(p),
                seq_max(s) >= s.last(),
                seq_max(p) * n >= seq_sum(p),
                n >= 0,
        ;
        assert(seq_sum(p) + s.last() <= (n + 1) * 0xffff_ffff_ffff_ffff) by (nonlinear_arith)
            requires
                seq_sum(p) <= n * 0xffff_ffff_ffff_ffff,
                s.last() <= 0xffff_ffff_ffff_ffff,
        ;
    }
}

proof fn lemma_rounding(t: int, n: int)
    requires
        t >= 0,
        n > 0,
    ensures
        (2 * t + n) / (2 * n) == t / n + (if 2 * (t % n) >= n { 1int } else { 0int }),
{
    lemma_fundamental_div_mod(t, n);
    let q = t / n;
    let r = t % n;
    assert(0 <= r < n);
    if 2 * r >= n {
        assert(2 * t + n == (q + 1) * (2 * n) + (2 * r - n)) by (nonlinear_arith)
            requires
                t == n * q + r,
        ;
        lemma_fundamental_div_mod_converse(2 * t + n, 2 * n, q + 1, 2 * r - n);
    } else {
        assert(2 * t + n == q * (2 * n) + (2 * r + n)) by (nonlinear_arith)
            requires
                t == n * q + r,
        ;
        lemma_fundamental_div_mod_converse(2 * t + n, 2 * n, q, 2 * r + n);
    }
}

/// For every non-empty set of readings, the rounded mean lies between the
/// minimum and the maximum.
pub proof fn lemma_average_between_min_and_max(s: Seq<u64>)
    requires
        s.len() > 0,
    ensures
        seq_min(s) <= rounded_mean(s) <= seq_max(s),
        summary(s).min <= summary(s).average <= summary(s).max,
{
    lemma_sum_bounds(s);
    let n = s.len() as int;
    let lo = seq_min(s);
    let hi = seq_max(s);
    assert(lo * (2 * n) <= 2 * seq_sum(s) + n) by (nonlinear_arith)
        requires
            lo * n <= seq_sum(s),
            n > 0,
    ;
    assert(2 * seq_sum(s) + n < (hi + 1) * (2 * n)) by (nonlinear_arith)
        requires
            seq_sum(s) <= hi * n,
            n > 0,
    ;
    lemma_div_is_ordered(lo * (2 * n), 2 * seq_sum(s) + n, 2 * n);
    vstd::arithmetic::div_mod::lemma_div_by_multiple(lo, 2 * n);
    vstd::arithmetic::div_mod::lemma_div_by_multiple(hi + 1, 2 * n);
    lemma_div_is_ordered(2 * seq_sum(s) + n, (hi + 1) * (2 * n), 2 * n);
    if rounded_mean(s) == hi + 1 {
        vstd::arithmetic::div_mod::lemma_fundamental_div_mod(2 * seq_sum(s) + n, 2 * n);
        assert(false) by (nonlinear_arith)
            requires
                2 * seq_sum(s) + n == (2 * n) * (hi + 1) + (2 * seq_sum(s) + n) % (2 * n),
                (2 * seq_sum(s) + n) % (2 * n) >= 0,
                2 * seq_sum(s) + n < (hi + 1) * (2 * n),
        ;
    }
}

/// Minimum, maximum and rounded mean of a non-empty list of readings.
pub fn aggregate(readings: &Vec<u64>) -> (r: Values)
    requires
        readings.len() > 0,
    ensures
        r == summary(readings@),
{
    let mut lo: u64 = readings[0];
    let mut hi: u64 = readings[0];
    let mut total: u128 = readings[0] as u128;
    let mut i: usize = 1;
    proof {
        assert(readings@.take(1).drop_last() =~= Seq::<u64>::empty());
        let t = readings@.take(1);
        assert(seq_sum(t.drop_last()) == 0);
        assert(t.last() == readings[0]);
        assert(seq_sum(t) == readings[0]);
    }
    while i < readings.len()
        invariant
            1 <= i <= readings.len(),
            lo == seq_min(readings@.take(i as int)),
            hi == seq_max(readings@.take(i as int)),
            total == seq_sum(readings@.take(i as int)),
            total <= i * 0xffff_ffff_ffff_ffffu128,
        decreases readings.len() - i,
    {
        let x = readings[i];
        assert(readings@.take(i + 1).drop_last() =~= readings@.take(i as int));
        if x < lo {
            lo = x;
        }
        if x > hi {
            hi = x;
        }
        total = total + x as u128;
        i = i + 1;
    }
    assert(readings@.take(i as int) =~= readings@);
    let n = readings.len() as u128;
    let q = total / n;
    let rem = total % n;
    let average = if 2 * rem >= n { q + 1 } else { q };
    proof {
        lemma_rounding(total as int, n as int);
        lemma_average_between_min_and_max(readings@);
    }
    Values { min: lo, max: hi, average: average as u64 }
}

} // verus!
