//! The base-1000 groups of a magnitude.
use vstd::prelude::*;
use vstd::arithmetic::div_mod::{
    lemma_div_denominator, lemma_fundamental_div_mod, lemma_fundamental_div_mod_converse,
};
use crate::digits::{
    all_digits, canonical, digits_to_u64, digits_value, lemma_canonical_lower_bound,
    lemma_pow10_monotone, lemma_pow10_positive, lemma_value_bound, lemma_value_concat, pow10,
};
use crate::error::ConversionError;
use crate::number::Number;
use crate::scale::{
    in_scale_range, lemma_pow1000_monotone, lemma_pow1000_positive, pow1000, ScaleTable,
};

verus! {

/// Three decimal places of a magnitude: the value that stands at the power
/// `scale_index` of one thousand.
#[derive(Clone, Copy, Debug, PartialEq, Eq, Structural)]
pub struct Group {
    pub value: u16,
    pub scale_index: usize,
}

/// What a `Group` stands for.
pub struct GroupView {
    pub value: nat,
    pub scale_index: nat,
}

impl View for Group {
    type V = GroupView;

    open spec fn view(&self) -> GroupView {
        GroupView { value: self.value as nat, scale_index: self.scale_index as nat }
    }
}

impl Group {
    /// A group holds a value below one thousand.
    pub open spec fn wf(&self) -> bool {
        self.value <= 999
    }
}

/// What the groups stand for, in order.
pub open spec fn group_views(gs: Seq<Group>) -> Seq<GroupView> {
    Seq::new(gs.len(), |i: int| gs[i]@)
}

/// The number of base-1000 groups of `n`: one for zero.
pub open spec fn group_count(n: nat) -> nat
    decreases n,
{
    if n < 1000 {
        1
    } else {
        1 + group_count(n / 1000)
    }
}

/// The group of `n` at the power `scale` of one thousand.
pub open spec fn group_at(n: nat, scale: nat) -> GroupView {
    GroupView { value: (n / pow1000(scale)) % 1000, scale_index: scale }
}

/// The groups of `n`, the most significant first. Zero has the one group
/// of value zero at scale zero.
pub open spec fn groups_of(n: nat) -> Seq<GroupView> {
    Seq::new(group_count(n), |j: int| group_at(n, (group_count(n) - 1 - j) as nat))
}

/// The magnitude that the groups add up to.
pub open spec fn groups_magnitude(gs: Seq<GroupView>) -> nat
    decreases gs.len(),
{
    if gs.len() == 0 {
        0
    } else {
        groups_magnitude(gs.drop_last()) + gs.last().value * pow1000(gs.last().scale_index)
    }
}

/// `n` lies below one thousand to the power of its group count, and, with
/// more than one group, not below the power before.
pub proof fn lemma_group_count_bounds(n: nat)
    ensures
        group_count(n) >= 1,
        n < pow1000(group_count(n)),
        group_count(n) > 1 ==> n >= pow1000((group_count(n) - 1) as nat),
    decreases n,
{
    reveal_with_fuel(pow1000, 2);
    if n >= 1000 {
        lemma_group_count_bounds(n / 1000);
        let c = group_count(n / 1000);
        lemma_fundamental_div_mod(n as int, 1000);
        assert(pow1000(c + 1) == 1000 * pow1000(c));
        if c > 1 {
            assert(pow1000(c) == 1000 * pow1000((c - 1) as nat));
        }
    }
}

/// A table of `count` scale words names `n` exactly when `n` has at most
/// `count + 1` groups.
pub proof fn lemma_scale_range(n: nat, count: nat)
    ensures
        in_scale_range(n, count) <==> group_count(n) <= count + 1,
{
    lemma_group_count_bounds(n);
    let c = group_count(n);
    if c <= count + 1 {
        lemma_pow1000_monotone(c, count + 1);
    } else {
        lemma_pow1000_monotone(count + 1, (c - 1) as nat);
    }
}

/// Dividing by one more power of one thousand divides by one thousand once
/// more.
pub proof fn lemma_div_pow_step(n: nat, s: nat)
    ensures
        n / pow1000(s + 1) == (n / pow1000(s)) / 1000,
{
    lemma_pow1000_positive(s);
    lemma_div_denominator(n as int, pow1000(s) as int, 1000);
    assert(pow1000(s + 1) == pow1000(s) * 1000);
}

/// The groups of a magnitude add up to it.
pub proof fn lemma_groups_preserve_magnitude(n: nat)
    ensures
        groups_magnitude(groups_of(n)) == n,
{
    lemma_group_count_bounds(n);
    let c = group_count(n);
    lemma_groups_prefix(n, c);
    assert(groups_of(n).take(c as int) =~= groups_of(n));
    assert(pow1000(0) == 1);
}

/// The first `j` groups of `n` add up to `n` with its lower places cut off.
proof fn lemma_groups_prefix(n: nat, j: nat)
    requires
        j <= group_count(n),
    ensures
        groups_magnitude(groups_of(n).take(j as int)) == (n / pow1000((group_count(n) - j) as nat))
            * pow1000((group_count(n) - j) as nat),
    decreases j,
{
    let c = group_count(n);
    lemma_group_count_bounds(n);
    if j == 0 {
        let p = pow1000(c);
        assert(n / p == 0) by (nonlinear_arith)
            requires
                n < p,
        ;
        assert(0 * p == 0);
    } else {
        lemma_groups_prefix(n, (j - 1) as nat);
        let s = (c - j) as nat;
        let p = pow1000(s);
        let part = groups_of(n).take(j as int);
        assert(part.drop_last() =~= groups_of(n).take(j - 1));
        assert(part.last() == group_at(n, s));
        lemma_div_pow_step(n, s);
        lemma_pow1000_positive(s);
        let q = n / p;
        assert(pow1000(s + 1) == 1000 * p);
        lemma_fundamental_div_mod(q as int, 1000);
        assert((q / 1000) * (1000 * p) + (q % 1000) * p == q * p) by (nonlinear_arith)
            requires
                q == 1000 * (q / 1000) + q % 1000,
        ;
    }
}

/// The last three places of the first `e` digits, and what stands before
/// them.
pub proof fn lemma_top_split(d: Seq<u8>, e: int)
    requires
        all_digits(d),
        0 <= e <= d.len(),
    ensures
        digits_value(d.take(e)) / 1000 == digits_value(
            d.take(
                if e >= 3 {
                    e - 3
                } else {
                    0
                },
            ),
        ),
        digits_value(d.take(e)) % 1000 == digits_value(
            d.subrange(
                if e >= 3 {
                    e - 3
                } else {
                    0
                },
                e,
            ),
        ),
{
    let b = if e >= 3 {
        e - 3
    } else {
        0
    };
    let high = d.take(b);
    let low = d.subrange(b, e);
    assert(d.take(e) =~= high + low);
    lemma_value_concat(high, low);
    lemma_value_bound(low);
    reveal_with_fuel(pow10, 4);
    if e >= 3 {
        assert(pow10(3) == 1000);
        lemma_fundamental_div_mod_converse(
            digits_value(d.take(e)) as int,
            1000,
            digits_value(high) as int,
            digits_value(low) as int,
        );
    } else {
        assert(high.len() == 0);
        assert(digits_value(high) == 0);
        assert(pow10(low.len()) <= 100);
        lemma_fundamental_div_mod_converse(
            digits_value(d.take(e)) as int,
            1000,
            0,
            digits_value(low) as int,
        );
    }
}

/// Dividing by the power `s` of one thousand cuts the last `3 * s` digits.
pub proof fn lemma_shift_groups(d: Seq<u8>, s: nat)
    requires
        all_digits(d),
        3 * s <= d.len(),
    ensures
        digits_value(d) / pow1000(s) == digits_value(d.take(d.len() - 3 * s)),
    decreases s,
{
    if s == 0 {
        assert(d.take(d.len() as int) =~= d);
        assert(pow1000(0) == 1);
    } else {
        lemma_shift_groups(d, (s - 1) as nat);
        let e = d.len() - 3 * (s - 1);
        lemma_top_split(d, e);
        lemma_div_pow_step(digits_value(d), (s - 1) as nat);
    }
}

/// Digits without a leading zero make one group for each three of them.
pub proof fn lemma_group_count_digits(d: Seq<u8>)
    requires
        canonical(d),
    ensures
        group_count(digits_value(d)) == (if d.len() == 0 {
            1
        } else {
            (d.len() - 1) / 3 + 1
        }),
    decreases d.len(),
{
    reveal_with_fuel(pow10, 4);
    if d.len() <= 3 {
        lemma_value_bound(d);
        assert(pow10(d.len()) <= 1000);
    } else {
        let e = d.len() as int;
        let high = d.take(e - 3);
        assert(d.take(e) =~= d);
        lemma_top_split(d, e);
        assert(high[0] == d[0]);
        lemma_canonical_lower_bound(high);
        lemma_pow10_positive((high.len() - 1) as nat);
        lemma_fundamental_div_mod(digits_value(d) as int, 1000);
        lemma_group_count_digits(high);
    }
}

/// Splits the integer part of `number` into its base-1000 groups, the most
/// significant first. Fails where the magnitude needs a scale word beyond
/// the last one of the table.
pub fn decompose(number: &Number, scales: &ScaleTable) -> (r: Result<Vec<Group>, ConversionError>)
    ensures
        r is Ok <==> in_scale_range(number@.magnitude, scales@.len()),
        r matches Ok(gs) ==> group_views(gs@) == groups_of(number@.magnitude) && (forall|i: int|
            0 <= i < gs@.len() ==> (#[trigger] gs@[i]).wf()),
        r matches Err(e) ==> e == ConversionError::OutOfRange,
{
    let d = number.integer_digits();
    let m = d.len();
    let count: usize = if m == 0 {
        1
    } else {
        (m - 1) / 3 + 1
    };
    let ghost n = digits_value(d@);
    proof {
        lemma_group_count_digits(d@);
        lemma_scale_range(n, scales@.len());
    }
    if count - 1 > scales.len() {
        return Err(ConversionError::OutOfRange);
    }
    let mut gs: Vec<Group> = Vec::new();
    let mut j: usize = 0;
    while j < count
        invariant
            j <= count,
            m == d@.len(),
            n == digits_value(d@),
            all_digits(d@),
            count == group_count(n),
            count == (if m == 0 {
                1int
            } else {
                (m - 1) / 3 + 1
            }),
            gs@.len() == j,
            forall|i: int| 0 <= i < j ==> (#[trigger] gs@[i])@ == group_at(n, (count - 1 - i) as nat),
            forall|i: int| 0 <= i < j ==> (#[trigger] gs@[i]).wf(),
        decreases count - j,
    {
        let s: usize = count - 1 - j;
        let e: usize = m - 3 * s;
        let b: usize = if e >= 3 {
            e - 3
        } else {
            0
        };
        let v = digits_to_u64(d, b, e);
        proof {
            lemma_shift_groups(d@, s as nat);
            lemma_top_split(d@, e as int);
            reveal_with_fuel(pow10, 4);
            lemma_value_bound(d@.subrange(b as int, e as int));
            lemma_pow10_monotone((e - b) as nat, 3);
        }
        gs.push(Group { value: v as u16, scale_index: s });
        j += 1;
    }
    proof {
        assert(group_views(gs@) =~= groups_of(n));
    }
    Ok(gs)
}

} // verus!
