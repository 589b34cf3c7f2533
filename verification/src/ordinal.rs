//! The ordinal form of a cardinal word, by the rules of a lexicon.
use vstd::prelude::*;
use vstd::string::*;
use crate::lexicon::{LexiconPack, LexiconView, OrdinalRule, RuleView, rule_views};
use crate::text::{ends_with, has_ending, replace_ending, same_text, with_ending};

verus! {

/// The ordinal form that the first whole-word rule from place `i` on gives
/// to `word`.
pub open spec fn override_from(rules: Seq<RuleView>, word: Seq<char>, i: int) -> Option<Seq<char>>
    decreases rules.len() - i,
{
    if i < 0 || i >= rules.len() {
        None
    } else if rules[i].from == word {
        Some(rules[i].to)
    } else {
        override_from(rules, word, i + 1)
    }
}

/// The ordinal form that the first ending rule from place `i` on gives to
/// `word`: the word with the rule's ending replaced.
pub open spec fn ending_from(rules: Seq<RuleView>, word: Seq<char>, i: int) -> Option<Seq<char>>
    decreases rules.len() - i,
{
    if i < 0 || i >= rules.len() {
        None
    } else if has_ending(word, rules[i].from) {
        Some(with_ending(word, rules[i].from.len(), rules[i].to))
    } else {
        ending_from(rules, word, i + 1)
    }
}

/// The ordinal form of a cardinal word: by the first whole-word rule for
/// it, else by the first ending rule that fits; none where no rule does.
pub open spec fn ordinal_form(lex: LexiconView, word: Seq<char>) -> Option<Seq<char>> {
    match override_from(lex.ordinal_overrides, word, 0) {
        Some(w) => Some(w),
        None => ending_from(lex.ordinal_endings, word, 0),
    }
}

/// The text of a string that may be absent.
pub open spec fn option_text(s: Option<String>) -> Option<Seq<char>> {
    match s {
        Some(s) => Some(s@),
        None => None,
    }
}

/// The ordinal form by the first whole-word rule for the word.
fn find_override(rules: &Vec<OrdinalRule>, word: &str) -> (r: Option<String>)
    ensures
        option_text(r) == override_from(rule_views(rules@), word@, 0),
{
    let mut i: usize = 0;
    while i < rules.len()
        invariant
            i <= rules@.len(),
            override_from(rule_views(rules@), word@, 0) == override_from(
                rule_views(rules@),
                word@,
                i as int,
            ),
        decreases rules@.len() - i,
    {
        if same_text(rules[i].from.as_str(), word) {
            return Some(rules[i].to.clone());
        }
        i += 1;
    }
    None
}

/// The ordinal form by the first ending rule that fits the word.
fn find_ending(rules: &Vec<OrdinalRule>, word: &str) -> (r: Option<String>)
    ensures
        option_text(r) == ending_from(rule_views(rules@), word@, 0),
{
    let mut i: usize = 0;
    while i < rules.len()
        invariant
            i <= rules@.len(),
            ending_from(rule_views(rules@), word@, 0) == ending_from(
                rule_views(rules@),
                word@,
                i as int,
            ),
        decreases rules@.len() - i,
    {
        if ends_with(word, rules[i].from.as_str()) {
            let cut = rules[i].from.as_str().unicode_len();
            return Some(replace_ending(word, cut, rules[i].to.as_str()));
        }
        i += 1;
    }
    None
}

/// The ordinal form of a cardinal word, where the lexicon has a rule for
/// it.
pub fn ordinal_of(lex: &LexiconPack, word: &str) -> (r: Option<String>)
    ensures
        option_text(r) == ordinal_form(lex@, word@),
{
    match find_override(&lex.ordinal_overrides, word) {
        Some(w) => Some(w),
        None => find_ending(&lex.ordinal_endings, word),
    }
}

} // verus!
