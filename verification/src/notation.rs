//! Decimal notation: how a text writes a number with a sign, digits, a
//! decimal point and an exponent.
use vstd::prelude::*;
use crate::digits::{
    all_digits, digits_to_u64, digits_value, lemma_canonical_lower_bound, lemma_pow10_add,
    lemma_pow10_monotone, lemma_value_concat, lemma_value_zero, pow10,
};
use crate::number::without_leading_zeros;
use crate::text::{
    all_digit_chars, chars_of, digit_value, digits_of_text, find_char, first_index,
    is_digit_char, lemma_first_index,
};

verus! {

/// Whether the text starts with a sign character.
pub open spec fn has_sign(t: Seq<char>) -> bool {
    t.len() > 0 && (t[0] == '+' || t[0] == '-')
}

/// The place of the first exponent mark, `e` or `E`, in `s`, or the length
/// of `s` where it has none.
pub open spec fn exponent_mark(s: Seq<char>) -> int {
    if first_index(s, 'e') <= first_index(s, 'E') {
        first_index(s, 'e')
    } else {
        first_index(s, 'E')
    }
}

/// The digits before and after the decimal point that a mantissa writes:
/// digits with at most one decimal point among them, and at least one
/// digit.
pub open spec fn mantissa_of(m: Seq<char>) -> Option<(Seq<u8>, Seq<u8>)> {
    let dot = first_index(m, '.');
    let whole = m.take(dot);
    let frac = if dot < m.len() {
        m.skip(dot + 1)
    } else {
        Seq::empty()
    };
    if all_digit_chars(whole) && all_digit_chars(frac) && whole.len() + frac.len() > 0 {
        Some((digits_of_text(whole), digits_of_text(frac)))
    } else {
        None
    }
}

/// The integer that a text writes: an optional sign and at least one
/// digit, of any length.
pub open spec fn integer_of(x: Seq<char>) -> Option<int> {
    let digits = if has_sign(x) {
        x.skip(1)
    } else {
        x
    };
    if digits.len() > 0 && all_digit_chars(digits) {
        let v = digits_value(digits_of_text(digits)) as int;
        Some(
            if has_sign(x) && x[0] == '-' {
                -v
            } else {
                v
            },
        )
    } else {
        None
    }
}

/// The integer that a text writes, where it lies within the 64-bit signed
/// integers.
pub open spec fn i64_of(x: Seq<char>) -> Option<i64> {
    match integer_of(x) {
        Some(v) => if i64::MIN <= v <= i64::MAX {
            Some(v as i64)
        } else {
            None
        },
        None => None,
    }
}

/// So many zeros.
pub open spec fn zeros(n: nat) -> Seq<u8> {
    Seq::new(n, |i: int| 0u8)
}

/// The digits before the decimal point once it has moved `e` places to the
/// right, or `-e` places to the left: digits that the point passes change
/// sides, and zeros fill the places beyond the last digit.
pub open spec fn shifted_integer(whole: Seq<u8>, frac: Seq<u8>, e: int) -> Seq<u8> {
    if e >= 0 {
        if e <= frac.len() {
            whole + frac.take(e)
        } else {
            whole + frac + zeros((e - frac.len()) as nat)
        }
    } else {
        if -e <= whole.len() {
            whole.take(whole.len() + e)
        } else {
            Seq::empty()
        }
    }
}

/// The digits after the decimal point once it has moved `e` places to the
/// right, or `-e` places to the left.
pub open spec fn shifted_fraction(whole: Seq<u8>, frac: Seq<u8>, e: int) -> Seq<u8> {
    if e >= 0 {
        if e <= frac.len() {
            frac.skip(e)
        } else {
            Seq::empty()
        }
    } else {
        if -e <= whole.len() {
            whole.skip(whole.len() + e) + frac
        } else {
            zeros((-e - whole.len()) as nat) + whole + frac
        }
    }
}

/// Where the first `k` characters are digits and the next one, if there is
/// one, is a decimal point, `k` is the place of the first decimal point.
proof fn lemma_first_dot(s: Seq<char>, k: int)
    requires
        0 <= k <= s.len(),
        forall|j: int| 0 <= j < k ==> is_digit_char(#[trigger] s[j]),
        k < s.len() ==> s[k] == '.',
    ensures
        first_index(s, '.') == k,
{
    lemma_first_index(s, '.');
    let r = first_index(s, '.');
    if r < k {
        assert(is_digit_char(s[r]));
    }
}

/// A character that is neither a digit nor a decimal point, with digits
/// alone before it, stands in the part before the first decimal point.
proof fn lemma_stray_in_whole(s: Seq<char>, k: int)
    requires
        0 <= k < s.len(),
        forall|j: int| 0 <= j < k ==> is_digit_char(#[trigger] s[j]),
        !is_digit_char(s[k]),
        s[k] != '.',
    ensures
        !all_digit_chars(s.take(first_index(s, '.'))),
{
    lemma_first_index(s, '.');
    let r = first_index(s, '.');
    if r < k {
        assert(is_digit_char(s[r]));
    }
    assert(s.take(r)[k] == s[k]);
}

/// Reads decimal digits from the place `from` on, as far as they go:
/// the place where they end, and the digits.
fn scan_digits(cs: &Vec<char>, from: usize) -> (r: (usize, Vec<u8>))
    requires
        from <= cs@.len(),
    ensures
        from <= r.0 <= cs@.len(),
        all_digit_chars(cs@.subrange(from as int, r.0 as int)),
        forall|j: int| from <= j < r.0 ==> is_digit_char(#[trigger] cs@[j]),
        r.0 < cs@.len() ==> !is_digit_char(cs@[r.0 as int]),
        r.1@ == digits_of_text(cs@.subrange(from as int, r.0 as int)),
        r.1@.len() == r.0 - from,
        all_digits(r.1@),
{
    let mut out: Vec<u8> = Vec::new();
    let mut i: usize = from;
    while i < cs.len()
        invariant
            from <= i <= cs@.len(),
            forall|j: int| from <= j < i ==> is_digit_char(#[trigger] cs@[j]),
            out@ =~= digits_of_text(cs@.subrange(from as int, i as int)),
            all_digits(out@),
        ensures
            from <= i <= cs@.len(),
            forall|j: int| from <= j < i ==> is_digit_char(#[trigger] cs@[j]),
            out@ =~= digits_of_text(cs@.subrange(from as int, i as int)),
            all_digits(out@),
            i < cs@.len() ==> !is_digit_char(cs@[i as int]),
        decreases cs@.len() - i,
    {
        match digit_value(cs[i]) {
            None => {
                break;
            },
            Some(d) => {
                out.push(d);
            },
        }
        i += 1;
    }
    proof {
        let part = cs@.subrange(from as int, i as int);
        assert forall|j: int| 0 <= j < part.len() implies is_digit_char(#[trigger] part[j]) by {
            assert(part[j] == cs@[j + from]);
        }
    }
    (i, out)
}

/// Moving the decimal point keeps the number but for the power of ten:
/// the digits before and after the point, read as one integer and scaled
/// to the places after the point, are the mantissa times ten to the
/// exponent.
pub proof fn lemma_shift_keeps_value(whole: Seq<u8>, frac: Seq<u8>, e: int)
    ensures
        ({
            let moved = shifted_integer(whole, frac, e) + shifted_fraction(whole, frac, e);
            let places = shifted_fraction(whole, frac, e).len();
            if e >= 0 {
                digits_value(moved) * pow10(frac.len()) == digits_value(whole + frac) * pow10(
                    places + e as nat,
                )
            } else {
                digits_value(moved) * pow10(frac.len() + (-e) as nat) == digits_value(whole + frac)
                    * pow10(places)
            }
        }),
{
    let moved = shifted_integer(whole, frac, e) + shifted_fraction(whole, frac, e);
    let all = whole + frac;
    let v = digits_value(all);
    if e >= 0 {
        if e <= frac.len() {
            assert(moved =~= all);
            assert(frac.len() == frac.skip(e).len() + e);
        } else {
            let k = (e - frac.len()) as nat;
            assert(moved =~= all + zeros(k));
            lemma_value_concat(all, zeros(k));
            lemma_value_zero(zeros(k));
            lemma_pow10_add(k, frac.len());
            assert((v * pow10(k)) * pow10(frac.len()) == v * (pow10(k) * pow10(frac.len())))
                by (nonlinear_arith);
            assert(k + frac.len() == e);
        }
    } else {
        let s = (-e) as nat;
        if s <= whole.len() {
            assert(moved =~= all);
            assert((whole.skip(whole.len() + e) + frac).len() == s + frac.len());
        } else {
            let k = (s - whole.len()) as nat;
            assert(moved =~= zeros(k) + all);
            lemma_value_concat(zeros(k), all);
            lemma_value_zero(zeros(k));
            assert(digits_value(zeros(k)) * pow10(all.len()) == 0) by (nonlinear_arith)
                requires
                    digits_value(zeros(k)) == 0,
            ;
            assert((zeros(k) + whole + frac).len() == s + frac.len());
        }
    }
}

/// The place of the first exponent mark among the characters.
pub fn find_mark(cs: &Vec<char>) -> (r: usize)
    ensures
        r == exponent_mark(cs@),
        r <= cs@.len(),
{
    let lower = find_char(cs, 'e');
    let upper = find_char(cs, 'E');
    proof {
        lemma_first_index(cs@, 'e');
        lemma_first_index(cs@, 'E');
    }
    if lower <= upper {
        lower
    } else {
        upper
    }
}

/// The digits before and after the decimal point, where the characters
/// are a mantissa.
pub fn read_mantissa(m: &Vec<char>) -> (r: Option<(Vec<u8>, Vec<u8>)>)
    ensures
        match r {
            Some(p) => mantissa_of(m@) == Some((p.0@, p.1@)) && all_digits(p.0@) && all_digits(
                p.1@,
            ),
            None => mantissa_of(m@) is None,
        },
{
    let n = m.len();
    let (dot, whole) = scan_digits(m, 0);
    if dot < n && m[dot] != '.' {
        proof {
            lemma_stray_in_whole(m@, dot as int);
        }
        return None;
    }
    proof {
        lemma_first_dot(m@, dot as int);
        assert(m@.take(dot as int) =~= m@.subrange(0, dot as int));
    }
    let mut fraction: Vec<u8> = Vec::new();
    if dot < n {
        let (end, digits) = scan_digits(m, dot + 1);
        if end < n {
            proof {
                let frac = m@.skip(dot + 1);
                assert(frac[end - dot - 1] == m@[end as int]);
                assert(!all_digit_chars(frac));
            }
            return None;
        }
        proof {
            assert(m@.skip(dot + 1) =~= m@.subrange(dot + 1, n as int));
        }
        fraction = digits;
    } else {
        proof {
            assert(fraction@ =~= digits_of_text(Seq::<char>::empty()));
        }
    }
    if whole.len() == 0 && fraction.len() == 0 {
        return None;
    }
    Some((whole, fraction))
}

/// Whether a minus sign stands first, and the digits, where the
/// characters are an optional sign and at least one digit.
pub fn read_integer(x: &Vec<char>) -> (r: Option<(bool, Vec<u8>)>)
    ensures
        match r {
            Some(p) => all_digits(p.1@) && integer_of(x@) == Some(
                if p.0 {
                    -(digits_value(p.1@) as int)
                } else {
                    digits_value(p.1@) as int
                },
            ),
            None => integer_of(x@) is None,
        },
{
    let n = x.len();
    let signed = n > 0 && (x[0] == '+' || x[0] == '-');
    let minus = signed && x[0] == '-';
    let start: usize = if signed {
        1
    } else {
        0
    };
    let ghost digits = x@.skip(start as int);
    proof {
        if start == 0 {
            assert(digits =~= x@);
        }
    }
    let (end, values) = scan_digits(x, start);
    if end < n {
        proof {
            assert(digits[end - start] == x@[end as int]);
            assert(!all_digit_chars(digits));
        }
        return None;
    }
    if values.len() == 0 {
        return None;
    }
    proof {
        assert(digits =~= x@.subrange(start as int, n as int));
    }
    Some((minus, values))
}

/// The 64-bit signed integer that the text writes, where it writes one.
pub fn text_to_i64(text: &str) -> (r: Option<i64>)
    ensures
        r == i64_of(text@),
{
    let cs = chars_of(text);
    let (minus, values) = match read_integer(&cs) {
        Some(p) => p,
        None => {
            return None;
        },
    };
    let digits = without_leading_zeros(&values);
    let n = digits.len();
    proof {
        reveal_with_fuel(pow10, 20);
        assert(pow10(19) == 10_000_000_000_000_000_000);
    }
    if n > 19 {
        proof {
            lemma_canonical_lower_bound(digits@);
            lemma_pow10_monotone(19, (n - 1) as nat);
        }
        return None;
    }
    let v = digits_to_u64(&digits, 0, n);
    assert(digits@.subrange(0, n as int) =~= digits@);
    if minus {
        if v > 9_223_372_036_854_775_808 {
            None
        } else if v == 9_223_372_036_854_775_808 {
            Some(i64::MIN)
        } else {
            Some(-(v as i64))
        }
    } else {
        if v > 9_223_372_036_854_775_807 {
            None
        } else {
            Some(v as i64)
        }
    }
}

/// As many zeros as the digits count.
pub fn zeros_of(d: &Vec<u8>) -> (r: Vec<u8>)
    requires
        all_digits(d@),
    ensures
        r@ == zeros(digits_value(d@)),
{
    let mut acc: Vec<u8> = Vec::new();
    let mut j: usize = 0;
    assert(d@.take(0) =~= Seq::<u8>::empty());
    assert(acc@ =~= zeros(0));
    while j < d.len()
        invariant
            j <= d@.len(),
            all_digits(d@),
            acc@ == zeros(digits_value(d@.take(j as int))),
        decreases d@.len() - j,
    {
        let mut next: Vec<u8> = Vec::new();
        let mut rep: u8 = 0;
        assert(next@ =~= zeros(0));
        assert(0 * acc@.len() == 0) by (nonlinear_arith);
        while rep < 10
            invariant
                rep <= 10,
                next@ == zeros((rep as nat) * acc@.len()),
            decreases 10 - rep,
        {
            let mut i: usize = 0;
            while i < acc.len()
                invariant
                    i <= acc@.len(),
                    rep < 10,
                    next@ == zeros((rep as nat) * acc@.len() + i as nat),
                decreases acc@.len() - i,
            {
                let ghost before = next@;
                next.push(0);
                assert(next@ =~= zeros((rep as nat) * acc@.len() + i as nat + 1));
                i += 1;
            }
            assert((rep as nat) * acc@.len() + acc@.len() == ((rep + 1) as nat) * acc@.len())
                by (nonlinear_arith);
            rep += 1;
        }
        let x = d[j];
        let mut k: u8 = 0;
        assert(x < 10);
        while k < x
            invariant
                k <= x,
                next@ == zeros(10 * acc@.len() + k as nat),
            decreases x - k,
        {
            next.push(0);
            assert(next@ =~= zeros(10 * acc@.len() + k as nat + 1));
            k += 1;
        }
        proof {
            let part = d@.take(j + 1);
            assert(part.drop_last() =~= d@.take(j as int));
            assert(part.last() == x);
            assert(acc@.len() == digits_value(d@.take(j as int)));
        }
        acc = next;
        j += 1;
    }
    assert(d@.take(d@.len() as int) =~= d@);
    acc
}

/// Appends the elements of `src` from place `from` up to place `to`.
pub fn append_range(out: &mut Vec<u8>, src: &Vec<u8>, from: usize, to: usize)
    requires
        from <= to <= src@.len(),
    ensures
        final(out)@ == old(out)@ + src@.subrange(from as int, to as int),
{
    let ghost before = out@;
    let mut i: usize = from;
    while i < to
        invariant
            from <= i <= to <= src@.len(),
            out@ =~= before + src@.subrange(from as int, i as int),
        decreases to - i,
    {
        out.push(src[i]);
        i += 1;
    }
}

/// Moves the decimal point between `whole` and `frac` by the exponent
/// whose digits are given, to the left where it is negative: the digits
/// before the point and those after it.
pub fn shift_point(whole: &Vec<u8>, frac: &Vec<u8>, negative: bool, exponent: &Vec<u8>) -> (r: (
    Vec<u8>,
    Vec<u8>,
))
    requires
        all_digits(whole@),
        all_digits(frac@),
        all_digits(exponent@),
    ensures
        ({
            let e = if negative {
                -(digits_value(exponent@) as int)
            } else {
                digits_value(exponent@) as int
            };
            &&& r.0@ == shifted_integer(whole@, frac@, e)
            &&& r.1@ == shifted_fraction(whole@, frac@, e)
        }),
        all_digits(r.0@),
        all_digits(r.1@),
{
    let fill = zeros_of(exponent);
    let e = fill.len();
    let mut integer: Vec<u8> = Vec::new();
    let mut fraction: Vec<u8> = Vec::new();
    if negative && e > 0 {
        if e <= whole.len() {
            append_range(&mut integer, whole, 0, whole.len() - e);
            append_range(&mut fraction, whole, whole.len() - e, whole.len());
            append_range(&mut fraction, frac, 0, frac.len());
            proof {
                assert(integer@ =~= whole@.take(whole@.len() - e));
                assert(fraction@ =~= whole@.skip(whole@.len() - e) + frac@);
            }
        } else {
            append_range(&mut fraction, &fill, 0, e - whole.len());
            append_range(&mut fraction, whole, 0, whole.len());
            append_range(&mut fraction, frac, 0, frac.len());
            proof {
                assert(integer@ =~= Seq::<u8>::empty());
                assert(fraction@ =~= zeros((e - whole@.len()) as nat) + whole@ + frac@);
            }
        }
    } else {
        if e <= frac.len() {
            append_range(&mut integer, whole, 0, whole.len());
            append_range(&mut integer, frac, 0, e);
            append_range(&mut fraction, frac, e, frac.len());
            proof {
                assert(integer@ =~= whole@ + frac@.take(e as int));
                assert(fraction@ =~= frac@.skip(e as int));
            }
        } else {
            append_range(&mut integer, whole, 0, whole.len());
            append_range(&mut integer, frac, 0, frac.len());
            append_range(&mut integer, &fill, 0, e - frac.len());
            proof {
                assert(integer@ =~= whole@ + frac@ + zeros((e - frac@.len()) as nat));
                assert(fraction@ =~= Seq::<u8>::empty());
            }
        }
    }
    proof {
        assert forall|i: int| 0 <= i < integer@.len() implies #[trigger] integer@[i] < 10 by {
            if i < whole@.len() {
                assert(whole@[i] < 10);
            } else if i < whole@.len() + frac@.len() {
                assert(frac@[i - whole@.len()] < 10);
            }
        }
        assert forall|i: int| 0 <= i < fraction@.len() implies #[trigger] fraction@[i] < 10 by {
            let lead: int = if negative && e > whole@.len() {
                e - whole@.len()
            } else {
                0
            };
            let kept: int = if negative && e > 0 {
                if e <= whole@.len() {
                    e as int
                } else {
                    whole@.len() as int
                }
            } else {
                0
            };
            if negative && e > 0 {
                if i < lead {
                } else if i < lead + kept {
                    assert(whole@[i - lead + (whole@.len() - kept)] < 10);
                } else {
                    assert(frac@[i - lead - kept] < 10);
                }
            } else {
                assert(frac@[i + e] < 10);
            }
        }
    }
    (integer, fraction)
}

} // verus!
