//! What holds of every conversion.
use vstd::prelude::*;
use crate::engine::{
    convert_result, mode_accepts, plain_request, text_view, ConversionRequest, RequestView,
};
use crate::currency::currency_of;
use crate::error::ConversionError;
use crate::group::{
    group_count, groups_magnitude, groups_of, lemma_group_count_bounds,
    lemma_groups_preserve_magnitude, lemma_scale_range, GroupView,
};
use crate::lexicon::{english_lexicon, lexicon_of, LexiconView};
use crate::mode::{
    cardinal_tokens, cardinal_words, fraction_tokens, integer_tokens, ordinal_words,
    sign_tokens, Mode,
};
use crate::ordinal::{ending_from, ordinal_form};
use crate::text::has_ending;
use crate::token::{token_word, token_words};
use crate::number::NumberView;
use crate::render::{
    compose_tokens, group_tokens, magnitude_tokens, placed_tokens, remainder_token,
};
use crate::scale::{in_scale_range, lemma_pow1000_positive, pow1000};
use crate::token::{Choices, Token};

verus! {

/// What has been read of a sequence of tokens: the groups that a scale
/// word has closed, and the group that is still open.
pub struct Reading {
    pub total: nat,
    pub group: nat,
}

/// The reading after one more token. A number word adds to the open
/// group, the word for one hundred multiplies it, a scale word closes it at
/// its power of one thousand; the other words carry no magnitude.
pub open spec fn read_token(s: Reading, t: Token) -> Reading {
    match t {
        Token::Unit(d) => Reading { total: s.total, group: s.group + d as nat },
        Token::Teen(d) => Reading { total: s.total, group: s.group + 10 + d as nat },
        Token::Tens(t) => Reading { total: s.total, group: s.group + 10 * (t as nat) },
        Token::Compound(t, u) => Reading {
            total: s.total,
            group: s.group + 10 * (t as nat) + u as nat,
        },
        Token::Hundred => Reading { total: s.total, group: s.group * 100 },
        Token::Scale(i) => Reading { total: s.total + s.group * pow1000(i as nat), group: 0 },
        _ => s,
    }
}

/// The reading after the tokens, from the reading `s` on.
pub open spec fn read_tokens(s: Reading, ts: Seq<Token>) -> Reading
    decreases ts.len(),
{
    if ts.len() == 0 {
        s
    } else {
        read_token(read_tokens(s, ts.drop_last()), ts.last())
    }
}

/// The magnitude that the tokens say.
pub open spec fn tokens_magnitude(ts: Seq<Token>) -> nat {
    let r = read_tokens(Reading { total: 0, group: 0 }, ts);
    r.total + r.group
}

/// Reading two sequences one after the other is reading the second from
/// where the first ended.
proof fn lemma_read_concat(s: Reading, a: Seq<Token>, b: Seq<Token>)
    ensures
        read_tokens(s, a + b) == read_tokens(read_tokens(s, a), b),
    decreases b.len(),
{
    if b.len() == 0 {
        assert(a + b =~= a);
    } else {
        lemma_read_concat(s, a, b.drop_last());
        assert((a + b).drop_last() =~= a + b.drop_last());
        assert((a + b).last() == b.last());
    }
}

/// Reading one token.
proof fn lemma_read_one(s: Reading, t: Token)
    ensures
        read_tokens(s, seq![t]) == read_token(s, t),
{
    let ts = seq![t];
    assert(ts.drop_last() =~= Seq::<Token>::empty());
    assert(read_tokens(s, ts.drop_last()) == s);
    assert(ts.last() == t);
}

/// The tokens of a group, read from a closed group on, leave the group's
/// value open.
proof fn lemma_read_group(s: Reading, g: GroupView, c: Choices, joined: bool)
    requires
        g.value <= 999,
        s.group == 0,
    ensures
        read_tokens(s, group_tokens(g, c, joined)) == (Reading { total: s.total, group: g.value }),
{
    let h = g.value / 100;
    let r = g.value % 100;
    if g.value == 0 {
        if g.scale_index == 0 {
            lemma_read_one(s, Token::Zero);
        }
    } else {
        let hundreds = if h > 0 {
            seq![Token::Unit(h as u8), Token::Hundred]
        } else {
            Seq::empty()
        };
        let link = if r > 0 && c.conjunction && g.scale_index == 0 && (h > 0 || joined) {
            seq![Token::Conjunction]
        } else {
            Seq::empty()
        };
        let rest = if r > 0 {
            seq![remainder_token(r)]
        } else {
            Seq::empty()
        };
        let s1 = read_tokens(s, hundreds);
        if h > 0 {
            assert(hundreds =~= seq![Token::Unit(h as u8)] + seq![Token::Hundred]);
            lemma_read_concat(s, seq![Token::Unit(h as u8)], seq![Token::Hundred]);
            lemma_read_one(s, Token::Unit(h as u8));
            lemma_read_one(read_token(s, Token::Unit(h as u8)), Token::Hundred);
        }
        assert(s1 == Reading { total: s.total, group: h * 100 });
        let s2 = read_tokens(s1, link);
        if link.len() > 0 {
            lemma_read_one(s1, Token::Conjunction);
        }
        assert(s2 == s1);
        let s3 = read_tokens(s2, rest);
        if r > 0 {
            lemma_read_one(s2, remainder_token(r));
        }
        assert(s3 == Reading { total: s.total, group: h * 100 + r });
        lemma_read_concat(s, hundreds, link);
        lemma_read_concat(s, hundreds + link, rest);
    }
}

/// A group above scale zero is closed at its power of one thousand; the
/// group at scale zero stays open.
proof fn lemma_read_placed(s: Reading, g: GroupView, c: Choices, total: nat)
    requires
        g.value <= 999,
        g.scale_index <= usize::MAX,
        s.group == 0,
    ensures
        g.scale_index > 0 ==> read_tokens(s, placed_tokens(g, c, total)) == (Reading {
            total: s.total + g.value * pow1000(g.scale_index),
            group: 0,
        }),
        g.scale_index == 0 ==> read_tokens(s, placed_tokens(g, c, total)) == (Reading {
            total: s.total,
            group: g.value,
        }),
{
    if g.value == 0 && total > 1 {
        assert(0 * pow1000(g.scale_index) == 0) by (nonlinear_arith);
    } else {
        lemma_read_group(s, g, c, total > 1);
        if g.scale_index > 0 {
            let inner = group_tokens(g, c, total > 1);
            let scale = Token::Scale(g.scale_index as usize);
            assert(inner.push(scale) =~= inner + seq![scale]);
            lemma_read_concat(s, inner, seq![scale]);
            lemma_read_one(read_tokens(s, inner), scale);
        }
    }
}

/// Groups that descend to at most one group of scale zero read as the
/// magnitude that they add up to.
proof fn lemma_read_compose(gs: Seq<GroupView>, c: Choices, total: nat)
    requires
        forall|i: int|
            0 <= i < gs.len() ==> (#[trigger] gs[i]).value <= 999 && gs[i].scale_index
                <= usize::MAX,
        forall|i: int| 0 <= i < gs.len() - 1 ==> (#[trigger] gs[i]).scale_index > 0,
    ensures
        ({
            let r = read_tokens(Reading { total: 0, group: 0 }, compose_tokens(gs, c, total));
            &&& r.total + r.group == groups_magnitude(gs)
            &&& (gs.len() == 0 || gs.last().scale_index > 0) ==> r.group == 0
        }),
    decreases gs.len(),
{
    let zero = Reading { total: 0, group: 0 };
    if gs.len() > 0 {
        let front = gs.drop_last();
        let g = gs.last();
        assert forall|i: int| 0 <= i < front.len() implies (#[trigger] front[i]).value <= 999
            && front[i].scale_index <= usize::MAX by {
            assert(front[i] == gs[i]);
        }
        assert forall|i: int| 0 <= i < front.len() - 1 implies (#[trigger] front[i]).scale_index
            > 0 by {
            assert(front[i] == gs[i]);
        }
        lemma_read_compose(front, c, total);
        if front.len() > 0 {
            assert(front.last() == gs[gs.len() - 2]);
        }
        let before = read_tokens(zero, compose_tokens(front, c, total));
        assert(before.group == 0);
        lemma_read_concat(zero, compose_tokens(front, c, total), placed_tokens(g, c, total));
        lemma_read_placed(before, g, c, total);
        let after = read_tokens(zero, compose_tokens(gs, c, total));
        assert(after == read_tokens(before, placed_tokens(g, c, total)));
        assert(before.total == groups_magnitude(front));
        assert(groups_magnitude(gs) == groups_magnitude(front) + g.value * pow1000(g.scale_index));
        if g.scale_index == 0 {
            assert(pow1000(0) == 1);
            assert(g.value * 1 == g.value) by (nonlinear_arith);
        }
    } else {
        assert(compose_tokens(gs, c, total) =~= Seq::<Token>::empty());
    }
}

/// The tokens of a magnitude say that magnitude: read back word by word,
/// the composition of a number within the range of a scale table gives the
/// number again.
pub proof fn lemma_tokens_preserve_magnitude(n: nat, c: Choices, scale_words: nat)
    requires
        scale_words <= usize::MAX,
        in_scale_range(n, scale_words),
    ensures
        tokens_magnitude(magnitude_tokens(n, c)) == n,
{
    lemma_scale_range(n, scale_words);
    lemma_group_count_bounds(n);
    lemma_groups_preserve_magnitude(n);
    lemma_read_compose(groups_of(n), c, group_count(n));
}

/// The cardinal of an integer within the range of the lexicon's scale
/// table has words, and its tokens say its magnitude: the sign word and
/// the conjunction carry none.
pub proof fn lemma_cardinal_preserves_magnitude(n: NumberView, lex: LexiconView, c: Choices)
    requires
        !n.is_fractional(),
        lex.scales.len() <= usize::MAX,
        in_scale_range(n.magnitude, lex.scales.len()),
    ensures
        cardinal_words(n, lex, c) == Ok::<Seq<Seq<char>>, ConversionError>(
            token_words(lex, c, cardinal_tokens(n, c)),
        ),
        tokens_magnitude(cardinal_tokens(n, c)) == n.magnitude,
{
    let zero = Reading { total: 0, group: 0 };
    let sign = sign_tokens(n);
    let body = magnitude_tokens(n.magnitude, c);
    assert(cardinal_tokens(n, c) =~= sign + body);
    lemma_read_concat(zero, sign, body);
    if n.is_negative() {
        lemma_read_one(zero, Token::Sign);
    }
    lemma_tokens_preserve_magnitude(n.magnitude, c, lex.scales.len());
}

/// Zero has the one group of value zero at scale zero.
pub proof fn lemma_groups_of_zero()
    ensures
        groups_of(0) == seq![GroupView { value: 0, scale_index: 0 }],
{
    assert(pow1000(0) == 1);
    assert(groups_of(0) =~= seq![GroupView { value: 0, scale_index: 0 }]);
}

/// In English the cardinal has words exactly for the magnitudes below one
/// thousand to the power of twenty-two: the lexicon has twenty-one scale
/// words.
pub proof fn lemma_english_range(n: NumberView)
    ensures
        convert_result(plain_request(n)) is Ok <==> n.magnitude < pow1000(22),
{
    assert(english_lexicon().scales.len() == 21);
}

/// Two requests that stand for the same give the same: the same words or
/// the same failure. Nothing but the request decides the outcome.
pub proof fn lemma_convert_deterministic(
    a: ConversionRequest,
    b: ConversionRequest,
    first: Result<String, ConversionError>,
    second: Result<String, ConversionError>,
)
    requires
        a@ == b@,
        text_view(first) == convert_result(a@),
        text_view(second) == convert_result(b@),
    ensures
        text_view(first) == text_view(second),
{
}

/// The cardinal of a number has words exactly where its magnitude lies
/// below one thousand to the power of the number of scale words and one.
/// So the largest scale word itself and all up to one less than a thousand
/// of it have words; one more is out of range.
pub proof fn lemma_scale_boundary(n: NumberView, lex: LexiconView, c: Choices)
    ensures
        cardinal_words(n, lex, c) is Ok <==> n.magnitude < pow1000(lex.scales.len() + 1),
        !(cardinal_words(n, lex, c) is Ok) ==> cardinal_words(n, lex, c) == Err::<
            Seq<Seq<char>>,
            ConversionError,
        >(ConversionError::OutOfRange),
        n.magnitude == pow1000(lex.scales.len()) ==> cardinal_words(n, lex, c) is Ok,
        n.magnitude + 1 == pow1000(lex.scales.len() + 1) ==> cardinal_words(n, lex, c) is Ok,
        n.magnitude == pow1000(lex.scales.len() + 1) ==> cardinal_words(n, lex, c) == Err::<
            Seq<Seq<char>>,
            ConversionError,
        >(ConversionError::OutOfRange),
{
    lemma_pow1000_positive(lex.scales.len());
    assert(pow1000(lex.scales.len() + 1) == 1000 * pow1000(lex.scales.len()));
}

/// The sign word of a negative number stands first among its cardinal
/// tokens, and nowhere else.
pub proof fn lemma_sign_once(n: NumberView, c: Choices)
    requires
        n.is_negative(),
    ensures
        cardinal_tokens(n, c).len() > 0,
        cardinal_tokens(n, c)[0] == Token::Sign,
        forall|i: int| 1 <= i < cardinal_tokens(n, c).len() ==> cardinal_tokens(n, c)[i]
            != Token::Sign,
{
    let body = magnitude_tokens(n.magnitude, c);
    let tail = fraction_tokens(n.fraction);
    lemma_compose_unsigned(groups_of(n.magnitude), c, group_count(n.magnitude));
    let all = cardinal_tokens(n, c);
    assert(all =~= seq![Token::Sign] + body + tail);
    assert forall|i: int| 1 <= i < all.len() implies all[i] != Token::Sign by {
        if i < 1 + body.len() {
            assert(all[i] == body[i - 1]);
        } else {
            assert(all[i] == tail[i - 1 - body.len()]);
        }
    }
}

/// No token of a group is the sign word.
proof fn lemma_compose_unsigned(gs: Seq<GroupView>, c: Choices, total: nat)
    ensures
        forall|i: int|
            0 <= i < compose_tokens(gs, c, total).len() ==> compose_tokens(gs, c, total)[i]
                != Token::Sign,
    decreases gs.len(),
{
    if gs.len() > 0 {
        lemma_compose_unsigned(gs.drop_last(), c, total);
        let head = compose_tokens(gs.drop_last(), c, total);
        let g = gs.last();
        let tail = placed_tokens(g, c, total);
        let inner = group_tokens(g, c, total > 1);
        assert forall|i: int| 0 <= i < inner.len() implies inner[i] != Token::Sign by {}
        assert forall|i: int| 0 <= i < tail.len() implies tail[i] != Token::Sign by {
            if i < inner.len() {
                assert(tail[i] == inner[i]);
            }
        }
        assert forall|i: int| 0 <= i < (head + tail).len() implies (head + tail)[i]
            != Token::Sign by {
            if i < head.len() {
                assert((head + tail)[i] == head[i]);
            } else {
                assert((head + tail)[i] == tail[i - head.len()]);
            }
        }
    }
}

/// The English lexicon has an ordinal form for every word: its last
/// ending rule fits any word.
pub proof fn lemma_english_has_every_ordinal(word: Seq<char>)
    ensures
        ordinal_form(english_lexicon(), word) is Some,
{
    let rules = english_lexicon().ordinal_endings;
    reveal_strlit("");
    assert(rules.len() == 2);
    assert(rules[1].from.len() == 0);
    assert(word.skip(word.len() as int) =~= rules[1].from);
    assert(has_ending(word, rules[1].from));
    assert(ending_from(rules, word, 1) is Some);
    assert(ending_from(rules, word, 0) is Some);
}

/// In English the ordinal of an integer fails for its range alone.
pub proof fn lemma_english_ordinal(n: NumberView, c: Choices)
    requires
        !n.is_fractional(),
    ensures
        ordinal_words(n, english_lexicon(), c) is Ok <==> in_scale_range(
            n.magnitude,
            english_lexicon().scales.len(),
        ),
{
    let lex = english_lexicon();
    let last = integer_tokens(n, c).last();
    match last {
        Token::Compound(tens, unit) => {
            lemma_english_has_every_ordinal(lex.digits[unit as int]);
        },
        _ => {
            lemma_english_has_every_ordinal(token_word(lex, c, last));
        },
    }
}

/// A negative number is no year, in any locale.
pub proof fn lemma_negative_year(req: RequestView)
    requires
        req.mode == Mode::Year,
        req.number.is_negative(),
    ensures
        convert_result(req) == Err::<Seq<char>, ConversionError>(
            ConversionError::InvalidInputForMode,
        ),
{
}

/// A request that its mode accepts, in a locale without a lexicon, fails
/// for that locale, whatever else it holds.
pub proof fn lemma_unknown_locale(req: RequestView)
    requires
        mode_accepts(req.mode, req.number),
        lexicon_of(req.locale) is None,
    ensures
        convert_result(req) == Err::<Seq<char>, ConversionError>(
            ConversionError::UnsupportedLocale,
        ),
{
}

/// An amount in a currency that is not registered, or in none, fails for
/// that currency, whatever the number.
pub proof fn lemma_unknown_currency(req: RequestView)
    requires
        req.mode == Mode::Currency,
        lexicon_of(req.locale) is Some,
        req.currency matches Some(code) ==> currency_of(code) is None,
    ensures
        convert_result(req) == Err::<Seq<char>, ConversionError>(ConversionError::UnknownCurrency),
{
}

} // verus!
