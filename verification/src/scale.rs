//! The scale words of a locale: one for each power of one thousand.
use vstd::prelude::*;
use crate::text::texts;

verus! {

/// One thousand to the power `k`.
pub open spec fn pow1000(k: nat) -> nat
    decreases k,
{
    if k == 0 {
        1
    } else {
        1000 * pow1000((k - 1) as nat)
    }
}

/// The scale words of a locale, the word for one thousand first. The word
/// at place `i` names one thousand to the power `i + 1`.
#[derive(Debug)]
pub struct ScaleTable {
    pub words: Vec<String>,
}

impl View for ScaleTable {
    type V = Seq<Seq<char>>;

    open spec fn view(&self) -> Seq<Seq<char>> {
        texts(self.words@)
    }
}

/// Whether a table of `count` scale words can name the magnitude `n`: it
/// can as long as `n` needs no power of one thousand beyond the last word.
pub open spec fn in_scale_range(n: nat, count: nat) -> bool {
    n < pow1000(count + 1)
}

impl ScaleTable {
    /// The number of scale words.
    pub fn len(&self) -> (r: usize)
        ensures
            r == self@.len(),
    {
        self.words.len()
    }

    /// The word for one thousand to the power `scale_index`.
    pub fn word(&self, scale_index: usize) -> (r: &str)
        requires
            1 <= scale_index <= self@.len(),
        ensures
            r@ == self@[scale_index - 1],
    {
        self.words[scale_index - 1].as_str()
    }
}

/// A power of one thousand is positive.
pub proof fn lemma_pow1000_positive(k: nat)
    ensures
        pow1000(k) > 0,
    decreases k,
{
    if k > 0 {
        lemma_pow1000_positive((k - 1) as nat);
    }
}

/// One thousand to a greater power is no smaller.
pub proof fn lemma_pow1000_monotone(a: nat, b: nat)
    requires
        a <= b,
    ensures
        pow1000(a) <= pow1000(b),
    decreases b,
{
    if a < b {
        lemma_pow1000_monotone(a, (b - 1) as nat);
    }
}

} // verus!
