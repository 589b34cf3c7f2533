//! Signed decimal numbers of any magnitude, and how a text writes one.
use vstd::prelude::*;
use vstd::arithmetic::div_mod::{
    lemma_fundamental_div_mod_converse, lemma_hoist_over_denominator, lemma_multiply_divide_lt,
};
use crate::digits::{
    all_digits, all_zero, canonical, digits_value, increment, lemma_canonical_lower_bound,
    lemma_pow10_positive, lemma_round_half, lemma_value_bound, lemma_value_concat,
    lemma_pow10_monotone, lemma_value_zero, pow10, scaled_floor, digits_to_u64,
};
use crate::notation::{
    exponent_mark, find_mark, has_sign, integer_of, mantissa_of, read_integer, read_mantissa,
    shift_point, shifted_fraction, shifted_integer,
};
use crate::text::{chars_of, slice_chars};

verus! {

/// The sign of a number.
#[derive(Clone, Copy, Debug, PartialEq, Eq, Structural)]
pub enum Sign {
    Positive,
    Negative,
}

/// What a `Number` stands for: its sign, the magnitude of its integer part,
/// and its fractional digits as they were written, first decimal place first.
pub struct NumberView {
    pub sign: Sign,
    pub magnitude: nat,
    pub fraction: Seq<u8>,
}

impl NumberView {
    /// Whether the fractional digits are decimal digits. This holds of the
    /// view of every `Number`.
    pub open spec fn wf(self) -> bool {
        all_digits(self.fraction)
    }

    /// Whether the number has a part after the decimal point that is not
    /// zero.
    pub open spec fn is_fractional(self) -> bool {
        !all_zero(self.fraction)
    }

    /// Whether the number is below zero.
    pub open spec fn is_negative(self) -> bool {
        self.sign == Sign::Negative
    }
}

/// A signed decimal number. The integer part has no bound; it is kept as
/// decimal digits, so that no magnitude overflows.
#[derive(Debug)]
pub struct Number {
    sign: Sign,
    integer: Vec<u8>,
    fraction: Vec<u8>,
}

/// The number that a text writes: an optional sign, then a mantissa of
/// decimal digits with at most one decimal point among them and at least
/// one digit, then an optional exponent: `e` or `E`, an optional sign, and
/// at least one digit. The decimal point of the mantissa is moved by the
/// exponent, and every digit is kept: no digit is rounded away, and the
/// fractional digits stand as written. A value of zero is never negative.
pub open spec fn parse_number(t: Seq<char>) -> Option<NumberView> {
    let body = if has_sign(t) {
        t.skip(1)
    } else {
        t
    };
    let mark = exponent_mark(body);
    let shift = if mark < body.len() {
        integer_of(body.skip(mark + 1))
    } else {
        Some(0int)
    };
    match (mantissa_of(body.take(mark)), shift) {
        (Some(m), Some(e)) => {
            let magnitude = digits_value(shifted_integer(m.0, m.1, e));
            let fraction = shifted_fraction(m.0, m.1, e);
            let negative = has_sign(t) && t[0] == '-' && (magnitude > 0 || !all_zero(fraction));
            Some(
                NumberView {
                    sign: if negative {
                        Sign::Negative
                    } else {
                        Sign::Positive
                    },
                    magnitude,
                    fraction,
                },
            )
        },
        _ => None,
    }
}

/// The integer `v` as a number.
pub open spec fn integer_view(v: int) -> NumberView {
    NumberView {
        sign: if v < 0 {
            Sign::Negative
        } else {
            Sign::Positive
        },
        magnitude: (if v < 0 {
            -v
        } else {
            v
        }) as nat,
        fraction: Seq::empty(),
    }
}

/// The amount in units of which `scale` make one: the number times
/// `scale`, rounded to the nearest integer, a half away from zero.
pub open spec fn amount_units(n: NumberView, scale: nat) -> nat {
    let t = pow10(n.fraction.len());
    (2 * scale * (n.magnitude * t + digits_value(n.fraction)) + t) / (2 * t)
}

/// The rounded amount of `m` whole units and the fraction `f / t`, from
/// the floor `u` of twice the fraction in units.
pub proof fn lemma_amount_units(m: nat, f: nat, t: nat, s: nat, u: nat)
    requires
        t > 0,
        f < t,
        s >= 1,
        u == (2 * s * f) / t,
    ensures
        (u + 1) / 2 <= s,
        (2 * s * (m * t + f) + t) / (2 * t) == m * s + (u + 1) / 2,
        (u + 1) / 2 == s ==> (m * s + (u + 1) / 2) / s == m + 1 && (m * s + (u + 1) / 2) % s == 0,
        (u + 1) / 2 < s ==> (m * s + (u + 1) / 2) / s == m && (m * s + (u + 1) / 2) % s == (u + 1)
            / 2,
{
    let x = 2 * s * f;
    let part = (u + 1) / 2;
    lemma_round_half(x, t);
    assert(x < t * (2 * s)) by (nonlinear_arith)
        requires
            x == 2 * s * f,
            f < t,
            s >= 1,
    ;
    lemma_multiply_divide_lt(x as int, t as int, (2 * s) as int);
    assert(2 * s * (m * t + f) + t == (x + t) + (m * s) * (2 * t)) by (nonlinear_arith)
        requires
            x == 2 * s * f,
    ;
    lemma_hoist_over_denominator((x + t) as int, (m * s) as int, 2 * t);
    if part == s {
        assert(m * s + part == s * (m + 1) + 0) by (nonlinear_arith)
            requires
                part == s,
        ;
        lemma_fundamental_div_mod_converse((m * s + part) as int, s as int, (m + 1) as int, 0);
    } else {
        assert(m * s + part == s * m + part) by (nonlinear_arith);
        lemma_fundamental_div_mod_converse((m * s + part) as int, s as int, m as int, part as int);
    }
}

/// A copy of the digits.
pub fn copy_digits(d: &Vec<u8>) -> (r: Vec<u8>)
    ensures
        r@ == d@,
{
    let mut out: Vec<u8> = Vec::new();
    let mut i: usize = 0;
    while i < d.len()
        invariant
            i <= d@.len(),
            out@ =~= d@.take(i as int),
        decreases d@.len() - i,
    {
        out.push(d[i]);
        i += 1;
    }
    assert(d@.take(d@.len() as int) =~= d@);
    out
}

/// The view of a number that may be absent.
pub open spec fn option_view(n: Option<Number>) -> Option<NumberView> {
    match n {
        Some(n) => Some(n@),
        None => None,
    }
}

/// The digits that write the same number without a leading zero.
pub fn without_leading_zeros(d: &Vec<u8>) -> (r: Vec<u8>)
    requires
        all_digits(d@),
    ensures
        canonical(r@),
        digits_value(r@) == digits_value(d@),
{
    let mut k: usize = 0;
    while k < d.len() && d[k] == 0
        invariant
            k <= d.len(),
            all_zero(d@.take(k as int)),
        decreases d.len() - k,
    {
        k += 1;
        assert forall|j: int| 0 <= j < k implies #[trigger] d@.take(k as int)[j] == 0 by {
            if j < k - 1 {
                assert(d@.take(k - 1)[j] == 0);
            }
        }
    }
    let mut out: Vec<u8> = Vec::new();
    let mut i: usize = k;
    while i < d.len()
        invariant
            k <= i <= d.len(),
            out@ =~= d@.subrange(k as int, i as int),
        decreases d.len() - i,
    {
        out.push(d[i]);
        i += 1;
    }
    proof {
        lemma_value_zero(d@.take(k as int));
        lemma_value_concat(d@.take(k as int), out@);
        assert(d@.take(k as int) + out@ =~= d@);
        assert(digits_value(d@.take(k as int)) * pow10(out@.len()) == 0) by (nonlinear_arith)
            requires
                digits_value(d@.take(k as int)) == 0,
        ;
    }
    out
}

/// Whether some digit is not zero.
pub fn has_nonzero(d: &Vec<u8>) -> (r: bool)
    ensures
        r == !all_zero(d@),
{
    let mut i: usize = 0;
    while i < d.len()
        invariant
            i <= d.len(),
            forall|j: int| 0 <= j < i ==> #[trigger] d@[j] == 0,
        decreases d.len() - i,
    {
        if d[i] != 0 {
            return true;
        }
        i += 1;
    }
    false
}

/// The decimal digits of `x`, without a leading zero.
pub fn digits_of_u64(x: u64) -> (r: Vec<u8>)
    ensures
        canonical(r@),
        digits_value(r@) == x,
    decreases x,
{
    if x == 0 {
        Vec::new()
    } else {
        let mut v = digits_of_u64(x / 10);
        let ghost before = v@;
        v.push((x % 10) as u8);
        proof {
            assert(v@.drop_last() =~= before);
            if before.len() > 0 {
                assert(v@[0] == before[0]);
            }
        }
        v
    }
}

impl View for Number {
    type V = NumberView;

    closed spec fn view(&self) -> NumberView {
        NumberView {
            sign: self.sign,
            magnitude: digits_value(self.integer@),
            fraction: self.fraction@,
        }
    }
}

impl Number {
    /// The integer digits have no leading zero, and the fractional digits
    /// are decimal digits.
    #[verifier::type_invariant]
    spec fn inv(&self) -> bool {
        canonical(self.integer@) && all_digits(self.fraction@)
    }

    /// The number that `text` writes, if it writes one.
    pub fn from_text(text: &str) -> (r: Option<Number>)
        ensures
            option_view(r) == parse_number(text@),
    {
        let cs = chars_of(text);
        let n = cs.len();
        let signed = n > 0 && (cs[0] == '+' || cs[0] == '-');
        let minus = signed && cs[0] == '-';
        let start: usize = if signed {
            1
        } else {
            0
        };
        let body = slice_chars(&cs, start, n);
        proof {
            assert(body@ =~= if has_sign(text@) {
                text@.skip(1)
            } else {
                text@
            });
        }
        let mark = find_mark(&body);
        let mantissa = slice_chars(&body, 0, mark);
        assert(mantissa@ =~= body@.take(mark as int));
        let (whole, frac) = match read_mantissa(&mantissa) {
            Some(m) => m,
            None => {
                return None;
            },
        };
        let mut exponent_negative = false;
        let mut exponent_digits: Vec<u8> = Vec::new();
        if mark < body.len() {
            let exponent = slice_chars(&body, mark + 1, body.len());
            assert(exponent@ =~= body@.skip(mark + 1));
            match read_integer(&exponent) {
                Some(e) => {
                    exponent_negative = e.0;
                    exponent_digits = e.1;
                },
                None => {
                    return None;
                },
            }
        }
        let (raw, fraction) = shift_point(&whole, &frac, exponent_negative, &exponent_digits);
        let integer = without_leading_zeros(&raw);
        let nonzero = has_nonzero(&fraction);
        proof {
            if integer@.len() > 0 {
                lemma_canonical_lower_bound(integer@);
                lemma_pow10_positive((integer@.len() - 1) as nat);
            }
        }
        let negative = minus && (integer.len() > 0 || nonzero);
        let sign = if negative {
            Sign::Negative
        } else {
            Sign::Positive
        };
        Some(Number { sign, integer, fraction })
    }

    /// The integer `v`.
    pub fn from_i64(v: i64) -> (r: Number)
        ensures
            r@ == integer_view(v as int),
    {
        let magnitude: u64 = if v >= 0 {
            v as u64
        } else {
            (-(v + 1)) as u64 + 1
        };
        let sign = if v < 0 {
            Sign::Negative
        } else {
            Sign::Positive
        };
        let r = Number { sign, integer: digits_of_u64(magnitude), fraction: Vec::new() };
        assert(r@.fraction =~= Seq::<u8>::empty());
        r
    }

    /// The integer `v`.
    pub fn from_u64(v: u64) -> (r: Number)
        ensures
            r@ == (NumberView { sign: Sign::Positive, magnitude: v as nat, fraction: Seq::empty() }),
    {
        Number { sign: Sign::Positive, integer: digits_of_u64(v), fraction: Vec::new() }
    }

    /// The sign.
    pub fn sign(&self) -> (r: Sign)
        ensures
            r == self@.sign,
    {
        self.sign
    }

    /// Whether the number is below zero.
    pub fn is_negative(&self) -> (r: bool)
        ensures
            r == self@.is_negative(),
    {
        match self.sign {
            Sign::Negative => true,
            Sign::Positive => false,
        }
    }

    /// The digits of the integer part, most significant first and without a
    /// leading zero; none for zero.
    pub fn integer_digits(&self) -> (r: &Vec<u8>)
        ensures
            canonical(r@),
            digits_value(r@) == self@.magnitude,
    {
        proof {
            use_type_invariant(self);
        }
        &self.integer
    }

    /// The digits after the decimal point, as they were written.
    pub fn fraction_digits(&self) -> (r: &Vec<u8>)
        ensures
            r@ == self@.fraction,
            self@.wf(),
    {
        proof {
            use_type_invariant(self);
        }
        &self.fraction
    }

    /// The amount in whole units and in units of which `scale` make one
    /// whole: the number is rounded to the nearest such unit, a half away
    /// from zero, and what rounds up to a whole unit is carried over. The
    /// whole units come as an integer of the same sign.
    pub fn split_units(&self, scale: u32) -> (r: (Number, u32))
        requires
            scale >= 1,
        ensures
            r.0@.sign == self@.sign,
            r.0@.fraction.len() == 0,
            r.0@.magnitude == amount_units(self@, scale as nat) / scale as nat,
            r.1 == amount_units(self@, scale as nat) % scale as nat,
            r.1 < scale,
    {
        proof {
            use_type_invariant(self);
            lemma_value_bound(self.fraction@);
            lemma_pow10_positive(self.fraction@.len());
        }
        let doubled = scaled_floor(&self.fraction, 2 * (scale as u64));
        let part = (doubled + 1) / 2;
        proof {
            lemma_amount_units(
                digits_value(self.integer@),
                digits_value(self.fraction@),
                pow10(self.fraction@.len()),
                scale as nat,
                doubled as nat,
            );
        }
        if part == scale as u64 {
            let whole = Number {
                sign: self.sign,
                integer: increment(&self.integer),
                fraction: Vec::new(),
            };
            (whole, 0)
        } else {
            let whole = Number {
                sign: self.sign,
                integer: copy_digits(&self.integer),
                fraction: Vec::new(),
            };
            (whole, part as u32)
        }
    }

    /// The magnitude of the integer part where it lies below ten thousand.
    pub fn small_magnitude(&self) -> (r: Option<u16>)
        ensures
            r is Some <==> self@.magnitude < 10000,
            r matches Some(v) ==> v == self@.magnitude,
    {
        proof {
            use_type_invariant(self);
            reveal_with_fuel(pow10, 5);
        }
        let n = self.integer.len();
        if n <= 4 {
            let v = digits_to_u64(&self.integer, 0, n);
            proof {
                assert(self.integer@.subrange(0, n as int) =~= self.integer@);
                lemma_pow10_monotone(n as nat, 4);
            }
            Some(v as u16)
        } else {
            proof {
                lemma_canonical_lower_bound(self.integer@);
                lemma_pow10_monotone(4, (n - 1) as nat);
            }
            None
        }
    }

    /// Whether some digit after the decimal point is not zero.
    pub fn is_fractional(&self) -> (r: bool)
        ensures
            r == self@.is_fractional(),
    {
        has_nonzero(&self.fraction)
    }
}

} // verus!
