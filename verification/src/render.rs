//! From groups to word tokens: one group, and a whole magnitude.
use vstd::prelude::*;
use crate::error::ConversionError;
use crate::group::{
    decompose, group_at, group_count, group_views, groups_of, lemma_group_count_bounds,
    lemma_scale_range, Group, GroupView,
};
use crate::lexicon::{LexiconPack, LexiconView};
use crate::number::Number;
use crate::scale::{in_scale_range, lemma_pow1000_positive, pow1000};
use crate::token::{all_fit, Choices, Token};

verus! {

/// The one token of a value from one to ninety-nine.
pub open spec fn remainder_token(r: nat) -> Token {
    if r < 10 {
        Token::Unit(r as u8)
    } else if r < 20 {
        Token::Teen((r - 10) as u8)
    } else if r % 10 == 0 {
        Token::Tens((r / 10) as u8)
    } else {
        Token::Compound((r / 10) as u8, (r % 10) as u8)
    }
}

/// The tokens of one group. A value of zero gives the lone zero at scale
/// zero and nothing at a higher scale. Otherwise the hundreds digit, if
/// there is one, comes with the word for one hundred, and the rest below
/// one hundred follows as one token. Where the conjunction is chosen, it
/// stands before that rest in the group of scale zero, provided that
/// something comes before it: the group's own hundreds, or, with `joined`,
/// the groups above.
pub open spec fn group_tokens(g: GroupView, c: Choices, joined: bool) -> Seq<Token> {
    let h = g.value / 100;
    let r = g.value % 100;
    if g.value == 0 {
        if g.scale_index == 0 {
            seq![Token::Zero]
        } else {
            Seq::empty()
        }
    } else {
        let hundreds = if h > 0 {
            seq![Token::Unit(h as u8), Token::Hundred]
        } else {
            Seq::empty()
        };
        let link = if r > 0 && c.conjunction && g.scale_index == 0 && (h > 0 || joined) {
            seq![Token::Conjunction]
        } else {
            Seq::empty()
        };
        let rest = if r > 0 {
            seq![remainder_token(r)]
        } else {
            Seq::empty()
        };
        hundreds + link + rest
    }
}

/// The tokens that a group adds to a composition of `total` groups: none
/// for a group of value zero among others, else the group's own tokens
/// and, above scale zero, its scale word.
pub open spec fn placed_tokens(g: GroupView, c: Choices, total: nat) -> Seq<Token> {
    if g.value == 0 && total > 1 {
        Seq::empty()
    } else if g.scale_index > 0 {
        group_tokens(g, c, total > 1).push(Token::Scale(g.scale_index as usize))
    } else {
        group_tokens(g, c, total > 1)
    }
}

/// The tokens of the groups, in their order, within a composition of
/// `total` groups.
pub open spec fn compose_tokens(gs: Seq<GroupView>, c: Choices, total: nat) -> Seq<Token>
    decreases gs.len(),
{
    if gs.len() == 0 {
        Seq::empty()
    } else {
        compose_tokens(gs.drop_last(), c, total) + placed_tokens(gs.last(), c, total)
    }
}

/// The tokens of a magnitude: those of its groups, the most significant
/// first.
pub open spec fn magnitude_tokens(n: nat, c: Choices) -> Seq<Token> {
    compose_tokens(groups_of(n), c, group_count(n))
}

/// The lexicon has a word for each token of a group.
pub proof fn lemma_group_tokens_fit(g: GroupView, c: Choices, joined: bool, lex: LexiconView)
    requires
        g.value <= 999,
    ensures
        all_fit(group_tokens(g, c, joined), lex),
{
    let h = g.value / 100;
    let r = g.value % 100;
    if r > 0 {
        assert(remainder_token(r).fits(lex));
    }
}

/// The lexicon has a word for each token of groups that lie within its
/// scale table.
pub proof fn lemma_compose_fit(gs: Seq<GroupView>, c: Choices, total: nat, lex: LexiconView)
    requires
        lex.scales.len() <= usize::MAX,
        forall|i: int|
            0 <= i < gs.len() ==> (#[trigger] gs[i]).value <= 999 && gs[i].scale_index
                <= lex.scales.len(),
    ensures
        all_fit(compose_tokens(gs, c, total), lex),
    decreases gs.len(),
{
    if gs.len() > 0 {
        lemma_compose_fit(gs.drop_last(), c, total, lex);
        let g = gs.last();
        lemma_group_tokens_fit(g, c, total > 1, lex);
        let head = compose_tokens(gs.drop_last(), c, total);
        let tail = placed_tokens(g, c, total);
        assert forall|i: int| 0 <= i < tail.len() implies (#[trigger] tail[i]).fits(lex) by {
            if i < group_tokens(g, c, total > 1).len() {
                assert(tail[i] == group_tokens(g, c, total > 1)[i]);
            }
        }
        assert forall|i: int| 0 <= i < (head + tail).len() implies (#[trigger] (head + tail)[i]).fits(
            lex,
        ) by {
            if i < head.len() {
                assert((head + tail)[i] == head[i]);
            } else {
                assert((head + tail)[i] == tail[i - head.len()]);
            }
        }
    }
}

/// The lexicon has a word for each token of a magnitude within its scale
/// table.
pub proof fn lemma_magnitude_tokens_fit(n: nat, c: Choices, lex: LexiconView)
    requires
        lex.scales.len() <= usize::MAX,
        in_scale_range(n, lex.scales.len()),
    ensures
        all_fit(magnitude_tokens(n, c), lex),
{
    lemma_scale_range(n, lex.scales.len());
    lemma_compose_fit(groups_of(n), c, group_count(n), lex);
}

/// The tokens of groups are at least those of the first group.
pub proof fn lemma_compose_len(gs: Seq<GroupView>, c: Choices, total: nat)
    requires
        gs.len() > 0,
    ensures
        compose_tokens(gs, c, total).len() >= placed_tokens(gs[0], c, total).len(),
    decreases gs.len(),
{
    if gs.len() == 1 {
        assert(gs.drop_last().len() == 0);
        assert(compose_tokens(gs.drop_last(), c, total).len() == 0);
    } else {
        lemma_compose_len(gs.drop_last(), c, total);
        assert(gs.drop_last()[0] == gs[0]);
    }
}

/// A magnitude has at least one token.
pub proof fn lemma_magnitude_tokens_nonempty(n: nat, c: Choices)
    ensures
        magnitude_tokens(n, c).len() > 0,
{
    let total = group_count(n);
    lemma_group_count_bounds(n);
    lemma_compose_len(groups_of(n), c, total);
    let top = groups_of(n)[0];
    assert(top == group_at(n, (total - 1) as nat));
    if total > 1 {
        let p = pow1000((total - 1) as nat);
        lemma_pow1000_positive((total - 1) as nat);
        assert(pow1000(total) == 1000 * p);
        assert(1 <= n / p < 1000) by (nonlinear_arith)
            requires
                p > 0,
                p <= n < 1000 * p,
        ;
    }
    let h = top.value / 100;
    let r = top.value % 100;
    if top.value != 0 {
        if r > 0 {
            assert(group_tokens(top, c, total > 1).len() >= 1);
        } else {
            assert(h > 0);
            assert(group_tokens(top, c, total > 1).len() >= 2);
        }
    }
}

/// The one token of a value from one to ninety-nine.
pub fn remainder(r: u16) -> (t: Token)
    requires
        1 <= r <= 99,
    ensures
        t == remainder_token(r as nat),
{
    if r < 10 {
        Token::Unit(r as u8)
    } else if r < 20 {
        Token::Teen((r - 10) as u8)
    } else if r % 10 == 0 {
        Token::Tens((r / 10) as u8)
    } else {
        Token::Compound((r / 10) as u8, (r % 10) as u8)
    }
}

/// Renders one group into its tokens.
pub fn render_group(g: Group, c: Choices, joined: bool) -> (r: Vec<Token>)
    requires
        g.wf(),
    ensures
        r@ == group_tokens(g@, c, joined),
{
    let mut out: Vec<Token> = Vec::new();
    let h = g.value / 100;
    let r = g.value % 100;
    if g.value == 0 {
        if g.scale_index == 0 {
            out.push(Token::Zero);
        }
    } else {
        if h > 0 {
            out.push(Token::Unit(h as u8));
            out.push(Token::Hundred);
        }
        if r > 0 {
            if c.conjunction && g.scale_index == 0 && (h > 0 || joined) {
                out.push(Token::Conjunction);
            }
            out.push(remainder(r));
        }
    }
    proof {
        assert(out@ =~= group_tokens(g@, c, joined));
    }
    out
}

/// Renders the group as it stands in a composition of `total` groups.
pub fn render_placed(g: Group, c: Choices, total: usize) -> (r: Vec<Token>)
    requires
        g.wf(),
    ensures
        r@ == placed_tokens(g@, c, total as nat),
{
    if g.value == 0 && total > 1 {
        Vec::new()
    } else {
        let mut out = render_group(g, c, total > 1);
        if g.scale_index > 0 {
            out.push(Token::Scale(g.scale_index));
        }
        out
    }
}

/// The tokens of the integer part of `number`, or `OutOfRange` where it
/// needs a scale word beyond the lexicon's table.
pub fn render_magnitude(number: &Number, lex: &LexiconPack, c: Choices) -> (r: Result<
    Vec<Token>,
    ConversionError,
>)
    ensures
        r is Ok <==> in_scale_range(number@.magnitude, lex@.scales.len()),
        r matches Ok(ts) ==> ts@ == magnitude_tokens(number@.magnitude, c) && all_fit(ts@, lex@)
            && ts@.len() > 0,
        r matches Err(e) ==> e == ConversionError::OutOfRange,
{
    let gs = match decompose(number, &lex.scales) {
        Ok(gs) => gs,
        Err(e) => {
            return Err(e);
        },
    };
    let ghost n = number@.magnitude;
    let scale_words = lex.scales.len();
    let total = gs.len();
    proof {
        assert(group_views(gs@).len() == gs@.len());
        assert(groups_of(n).len() == group_count(n));
        assert(groups_of(n).take(0) =~= Seq::<GroupView>::empty());
    }
    let mut out: Vec<Token> = Vec::new();
    let mut j: usize = 0;
    while j < total
        invariant
            j <= total,
            total == gs@.len(),
            total == group_count(n),
            lex@.scales.len() == scale_words,
            in_scale_range(n, lex@.scales.len()),
            group_views(gs@) == groups_of(n),
            forall|i: int| 0 <= i < gs@.len() ==> (#[trigger] gs@[i]).wf(),
            out@ == compose_tokens(groups_of(n).take(j as int), c, total as nat),
        decreases total - j,
    {
        let mut part = render_placed(gs[j], c, total);
        proof {
            let next = groups_of(n).take(j + 1);
            assert(next.drop_last() =~= groups_of(n).take(j as int));
            assert(next.last() == group_views(gs@)[j as int]);
        }
        out.append(&mut part);
        j += 1;
    }
    proof {
        assert(groups_of(n).take(total as int) =~= groups_of(n));
        assert(lex@.scales.len() == scale_words);
        lemma_magnitude_tokens_fit(n, c, lex@);
        lemma_magnitude_tokens_nonempty(n, c);
    }
    Ok(out)
}

} // verus!
