//! Decimal digit sequences and the numbers they write.
use vstd::prelude::*;
use vstd::arithmetic::div_mod::{lemma_div_denominator, lemma_hoist_over_denominator};

verus! {

/// The number that the digits write, most significant digit first.
pub open spec fn digits_value(d: Seq<u8>) -> nat
    decreases d.len(),
{
    if d.len() == 0 {
        0
    } else {
        digits_value(d.drop_last()) * 10 + d.last() as nat
    }
}

/// Ten to the power `k`.
pub open spec fn pow10(k: nat) -> nat
    decreases k,
{
    if k == 0 {
        1
    } else {
        10 * pow10((k - 1) as nat)
    }
}

/// Whether every element is a decimal digit.
pub open spec fn all_digits(d: Seq<u8>) -> bool {
    forall|i: int| 0 <= i < d.len() ==> #[trigger] d[i] < 10
}

/// Whether every element is zero.
pub open spec fn all_zero(d: Seq<u8>) -> bool {
    forall|i: int| 0 <= i < d.len() ==> #[trigger] d[i] == 0
}

/// Decimal digits without a leading zero: each number has exactly one such
/// writing, and zero is written by no digit at all.
pub open spec fn canonical(d: Seq<u8>) -> bool {
    all_digits(d) && (d.len() > 0 ==> d[0] != 0)
}

/// A power of ten is positive.
pub proof fn lemma_pow10_positive(k: nat)
    ensures
        pow10(k) > 0,
    decreases k,
{
    if k > 0 {
        lemma_pow10_positive((k - 1) as nat);
    }
}

/// The value of two digit sequences written one after the other.
pub proof fn lemma_value_concat(a: Seq<u8>, b: Seq<u8>)
    ensures
        digits_value(a + b) == digits_value(a) * pow10(b.len()) + digits_value(b),
    decreases b.len(),
{
    if b.len() == 0 {
        assert(a + b =~= a);
        assert(pow10(b.len()) == 1);
        assert(digits_value(b) == 0);
        assert(digits_value(a) * 1 == digits_value(a)) by (nonlinear_arith);
    } else {
        lemma_value_concat(a, b.drop_last());
        assert((a + b).drop_last() =~= a + b.drop_last());
        assert((a + b).last() == b.last());
        let p = pow10((b.len() - 1) as nat);
        let va = digits_value(a);
        let vb = digits_value(b.drop_last());
        assert(pow10(b.len()) == 10 * p);
        assert(digits_value(a + b) == (va * p + vb) * 10 + b.last() as nat);
        assert((va * p + vb) * 10 == va * (10 * p) + vb * 10) by (nonlinear_arith);
    }
}

/// Digits write a number below ten to the power of their count.
pub proof fn lemma_value_bound(d: Seq<u8>)
    requires
        all_digits(d),
    ensures
        digits_value(d) < pow10(d.len()),
    decreases d.len(),
{
    if d.len() > 0 {
        lemma_value_bound(d.drop_last());
        assert(d.last() < 10);
    }
}

/// Zeros write zero.
pub proof fn lemma_value_zero(d: Seq<u8>)
    requires
        all_zero(d),
    ensures
        digits_value(d) == 0,
    decreases d.len(),
{
    if d.len() > 0 {
        lemma_value_zero(d.drop_last());
        assert(d.last() == 0);
    }
}

/// Digits that start with a digit other than zero write a number of at
/// least ten to the power of their count less one.
pub proof fn lemma_canonical_lower_bound(d: Seq<u8>)
    requires
        d.len() > 0,
        d[0] != 0,
    ensures
        digits_value(d) >= pow10((d.len() - 1) as nat),
    decreases d.len(),
{
    if d.len() == 1 {
        assert(d.drop_last().len() == 0);
        assert(digits_value(d.drop_last()) == 0);
    } else {
        lemma_canonical_lower_bound(d.drop_last());
    }
}

/// Ten to a sum is the product of the powers.
pub proof fn lemma_pow10_add(a: nat, b: nat)
    ensures
        pow10(a + b) == pow10(a) * pow10(b),
    decreases a,
{
    if a == 0 {
        assert(1 * pow10(b) == pow10(b)) by (nonlinear_arith);
    } else {
        lemma_pow10_add((a - 1) as nat, b);
        assert(pow10(a + b) == 10 * pow10((a - 1 + b) as nat));
        assert(10 * (pow10((a - 1) as nat) * pow10(b)) == (10 * pow10((a - 1) as nat)) * pow10(b))
            by (nonlinear_arith);
    }
}

/// Ten to a greater power is no smaller.
pub proof fn lemma_pow10_monotone(a: nat, b: nat)
    requires
        a <= b,
    ensures
        pow10(a) <= pow10(b),
    decreases b,
{
    if a < b {
        lemma_pow10_monotone(a, (b - 1) as nat);
    }
}

/// The number that the digits from place `b` up to place `e` write.
pub fn digits_to_u64(d: &Vec<u8>, b: usize, e: usize) -> (r: u64)
    requires
        all_digits(d@),
        b <= e <= d@.len(),
        e - b <= 19,
    ensures
        r == digits_value(d@.subrange(b as int, e as int)),
        r < pow10((e - b) as nat),
{
    let mut acc: u64 = 0;
    let mut k: usize = b;
    proof {
        assert(pow10(19) == 10_000_000_000_000_000_000) by {
            reveal_with_fuel(pow10, 20);
        }
        lemma_pow10_monotone((e - b) as nat, 19);
    }
    while k < e
        invariant
            b <= k <= e <= d@.len(),
            e - b <= 19,
            all_digits(d@),
            acc == digits_value(d@.subrange(b as int, k as int)),
            acc < pow10((k - b) as nat),
            pow10((e - b) as nat) <= 10_000_000_000_000_000_000,
        decreases e - k,
    {
        proof {
            let next = d@.subrange(b as int, k + 1);
            assert(next.drop_last() =~= d@.subrange(b as int, k as int));
            assert(next.last() == d@[k as int]);
            assert(d@[k as int] < 10);
            lemma_pow10_monotone((k + 1 - b) as nat, (e - b) as nat);
        }
        acc = acc * 10 + d[k] as u64;
        k += 1;
    }
    acc
}

/// One digit writes itself.
pub proof fn lemma_value_single(x: u8)
    ensures
        digits_value(seq![x]) == x as nat,
{
    let s = seq![x];
    assert(s.drop_last() =~= Seq::<u8>::empty());
    assert(digits_value(s.drop_last()) == 0);
    assert(s.last() == x);
}

/// Whether every element is nine.
pub open spec fn all_nine(d: Seq<u8>) -> bool {
    forall|i: int| 0 <= i < d.len() ==> #[trigger] d[i] == 9
}

/// Nines write one less than the next power of ten.
pub proof fn lemma_value_nines(d: Seq<u8>)
    requires
        all_nine(d),
    ensures
        digits_value(d) + 1 == pow10(d.len()),
    decreases d.len(),
{
    if d.len() > 0 {
        lemma_value_nines(d.drop_last());
        assert(d.last() == 9);
    }
}

/// One step of scaling a decimal fraction from its last digit up.
pub proof fn lemma_scaled_step(w: nat, x: nat, p: nat, v: nat)
    requires
        p > 0,
    ensures
        (w * (x * p + v)) / (10 * p) == (w * x + (w * v) / p) / 10,
{
    let whole = w * (x * p + v);
    assert(whole == w * v + (w * x) * p) by (nonlinear_arith)
        requires
            whole == w * (x * p + v),
    ;
    assert(10 * p == p * 10) by (nonlinear_arith);
    lemma_div_denominator(whole as int, p as int, 10);
    lemma_hoist_over_denominator((w * v) as int, (w * x) as int, p);
}

/// Rounding half up is halving one more than the floor of the double.
pub proof fn lemma_round_half(x: nat, t: nat)
    requires
        t > 0,
    ensures
        (x + t) / (2 * t) == (x / t + 1) / 2,
{
    assert(2 * t == t * 2) by (nonlinear_arith);
    lemma_div_denominator((x + t) as int, t as int, 2);
    lemma_hoist_over_denominator(x as int, 1, t);
    assert(1 * t == t) by (nonlinear_arith);
}

/// The floor of `w` times the decimal fraction that the digits write after
/// the point.
pub fn scaled_floor(d: &Vec<u8>, w: u64) -> (r: u64)
    requires
        all_digits(d@),
        w <= 0xffff_ffff_ffff,
    ensures
        r == (w as nat * digits_value(d@)) / pow10(d@.len()),
        r <= w,
{
    let n = d.len();
    let mut u: u64 = 0;
    let mut i: usize = n;
    proof {
        assert(d@.skip(n as int) =~= Seq::<u8>::empty());
        assert(pow10(0) == 1);
        assert(w as nat * 0 == 0) by (nonlinear_arith);
    }
    while i > 0
        invariant
            i <= n,
            n == d@.len(),
            all_digits(d@),
            w <= 0xffff_ffff_ffff,
            u <= w,
            u == (w as nat * digits_value(d@.skip(i as int))) / pow10((n - i) as nat),
        decreases i,
    {
        i -= 1;
        proof {
            let x = d@[i as int];
            let rest = d@.skip(i + 1);
            let p = pow10((n - i - 1) as nat);
            assert(x < 10);
            assert(d@.skip(i as int) =~= seq![x] + rest);
            lemma_value_concat(seq![x], rest);
            lemma_value_single(x);
            lemma_pow10_positive((n - i - 1) as nat);
            lemma_scaled_step(w as nat, x as nat, p, digits_value(rest));
            assert(pow10((n - i) as nat) == 10 * p);
            assert(w * x <= w * 9) by (nonlinear_arith)
                requires
                    x <= 9,
            ;
        }
        u = (w * (d[i] as u64) + u) / 10;
    }
    proof {
        assert(d@.skip(0) =~= d@);
    }
    u
}

/// The digits of the next number.
pub fn increment(d: &Vec<u8>) -> (r: Vec<u8>)
    requires
        canonical(d@),
    ensures
        canonical(r@),
        digits_value(r@) == digits_value(d@) + 1,
{
    let n = d.len();
    let mut i: usize = n;
    while i > 0 && d[i - 1] == 9
        invariant
            i <= n,
            n == d@.len(),
            all_nine(d@.skip(i as int)),
        decreases i,
    {
        i -= 1;
        assert forall|j: int| 0 <= j < d@.skip(i as int).len() implies #[trigger] d@.skip(
            i as int,
        )[j] == 9 by {
            if j > 0 {
                assert(d@.skip(i as int)[j] == d@.skip(i + 1)[j - 1]);
            }
        }
    }
    let mut out: Vec<u8> = Vec::new();
    if i == 0 {
        out.push(1);
    } else {
        let mut k: usize = 0;
        while k < i - 1
            invariant
                k <= i - 1,
                i <= n,
                n == d@.len(),
                out@ =~= d@.take(k as int),
            decreases i - 1 - k,
        {
            out.push(d[k]);
            k += 1;
        }
        assert(d@[i - 1] < 10);
        out.push(d[i - 1] + 1);
    }
    let ghost head = out@;
    proof {
        let old_head = d@.take(i as int);
        if i == 0 {
            assert(head =~= seq![1u8]);
            lemma_value_single(1);
            assert(digits_value(old_head) == 0);
        } else {
            assert(head.drop_last() =~= d@.take(i - 1));
            assert(old_head.drop_last() =~= d@.take(i - 1));
            assert(old_head.last() == d@[i - 1]);
            assert(digits_value(head) == digits_value(old_head) + 1);
        }
    }
    let mut z: usize = i;
    while z < n
        invariant
            i <= z <= n,
            out@.len() == head.len() + (z - i),
            out@.take(head.len() as int) =~= head,
            all_zero(out@.skip(head.len() as int)),
        decreases n - z,
    {
        let ghost before = out@;
        out.push(0);
        proof {
            let tail = out@.skip(head.len() as int);
            assert forall|j: int| 0 <= j < tail.len() implies #[trigger] tail[j] == 0 by {
                if j < tail.len() - 1 {
                    assert(tail[j] == before.skip(head.len() as int)[j]);
                }
            }
        }
        z += 1;
    }
    proof {
        let zeros = out@.skip(head.len() as int);
        let nines = d@.skip(i as int);
        let p = pow10((n - i) as nat);
        assert(out@ =~= head + zeros);
        assert(d@ =~= d@.take(i as int) + nines);
        lemma_value_concat(head, zeros);
        lemma_value_concat(d@.take(i as int), nines);
        lemma_value_zero(zeros);
        lemma_value_nines(nines);
        let a = digits_value(d@.take(i as int));
        assert((a + 1) * p == a * p + p) by (nonlinear_arith);
        assert forall|j: int| 0 <= j < out@.len() implies #[trigger] out@[j] < 10 by {
            if j < head.len() {
                assert(out@[j] == head[j]);
                if i > 0 && j < i - 1 {
                    assert(head[j] == d@[j]);
                }
            } else {
                assert(out@[j] == zeros[j - head.len()]);
            }
        }
        assert(out@[0] == head[0]);
        if i > 1 {
            assert(head[0] == d@[0]);
        }
    }
    out
}

} // verus!
