//! Rendering preferences: a sparse mapping from the name of a choice point
//! to the choice made there.
use vstd::prelude::*;
use vstd::string::*;
use crate::text::{chars_of, find_char, first_index, same_text};

verus! {

/// One preference: the key of a choice point and the choice.
#[derive(Debug)]
pub struct PreferenceEntry {
    pub key: String,
    pub choice: String,
}

/// The preferences of a request, in the order in which they were given. A
/// later entry for a key replaces an earlier one. Keys that no choice point
/// reads are kept and have no effect.
#[derive(Debug)]
pub struct RenderPreference {
    pub entries: Vec<PreferenceEntry>,
}

/// The mapping that the entries make, a later one replacing an earlier one.
pub open spec fn entries_map(es: Seq<PreferenceEntry>) -> Map<Seq<char>, Seq<char>>
    decreases es.len(),
{
    if es.len() == 0 {
        Map::empty()
    } else {
        entries_map(es.drop_last()).insert(es.last().key@, es.last().choice@)
    }
}

impl View for RenderPreference {
    type V = Map<Seq<char>, Seq<char>>;

    open spec fn view(&self) -> Map<Seq<char>, Seq<char>> {
        entries_map(self.entries@)
    }
}

/// The choice that a mapping holds for a key, if any.
pub open spec fn choice_of(p: Map<Seq<char>, Seq<char>>, key: Seq<char>) -> Option<Seq<char>> {
    if p.contains_key(key) {
        Some(p[key])
    } else {
        None
    }
}

/// The key and the choice that a preference text names. `key=choice` names
/// both. A bare `oh` or `zero` is a choice of zero-digit style. Any other
/// bare word is a key with an empty choice.
pub open spec fn preference_pair(text: Seq<char>) -> (Seq<char>, Seq<char>) {
    let at = first_index(text, '=');
    if at < text.len() {
        (text.take(at), text.skip(at + 1))
    } else if text == "oh"@ || text == "zero"@ {
        ("zero_digit_style"@, text)
    } else {
        (text, Seq::empty())
    }
}

impl RenderPreference {
    /// No preference at all.
    pub fn new() -> (r: RenderPreference)
        ensures
            r@ == Map::<Seq<char>, Seq<char>>::empty(),
    {
        RenderPreference { entries: Vec::new() }
    }

    /// Sets the choice for `key`, in place of an earlier one.
    pub fn set(&mut self, key: &str, choice: &str)
        ensures
            final(self)@ == old(self)@.insert(key@, choice@),
    {
        let ghost before = self.entries@;
        self.entries.push(
            PreferenceEntry { key: String::from_str(key), choice: String::from_str(choice) },
        );
        proof {
            assert(self.entries@.drop_last() =~= before);
        }
    }

    /// Sets the preference that `text` names.
    pub fn set_from_text(&mut self, text: &str)
        ensures
            final(self)@ == old(self)@.insert(preference_pair(text@).0, preference_pair(text@).1),
    {
        let cs = chars_of(text);
        let at = find_char(&cs, '=');
        if at < cs.len() {
            let key = text.substring_char(0, at);
            let choice = text.substring_char(at + 1, cs.len());
            proof {
                assert(text@.subrange(0, at as int) =~= text@.take(at as int));
                assert(text@.subrange(at + 1, cs@.len() as int) =~= text@.skip(at + 1));
            }
            self.set(key, choice);
        } else if same_text(text, "oh") || same_text(text, "zero") {
            self.set("zero_digit_style", text);
        } else {
            proof {
                assert(""@ =~= Seq::<char>::empty()) by {
                    reveal_strlit("");
                }
            }
            self.set(text, "");
        }
    }

    /// The choice made for `key`, if one was made.
    pub fn choice(&self, key: &str) -> (r: Option<&str>)
        ensures
            r is Some <==> self@.contains_key(key@),
            r matches Some(c) ==> c@ == self@[key@],
    {
        let mut i: usize = self.entries.len();
        proof {
            assert(self.entries@.take(i as int) =~= self.entries@);
        }
        while i > 0
            invariant
                i <= self.entries@.len(),
                choice_of(entries_map(self.entries@), key@) == choice_of(
                    entries_map(self.entries@.take(i as int)),
                    key@,
                ),
            decreases i,
        {
            proof {
                let part = self.entries@.take(i as int);
                assert(part.drop_last() =~= self.entries@.take(i - 1));
                assert(part.last() == self.entries@[i - 1]);
            }
            if same_text(self.entries[i - 1].key.as_str(), key) {
                return Some(self.entries[i - 1].choice.as_str());
            }
            i -= 1;
        }
        proof {
            assert(self.entries@.take(0) =~= Seq::<PreferenceEntry>::empty());
        }
        None
    }

    /// Whether the choice made for `key` is `choice`.
    pub fn chose(&self, key: &str, choice: &str) -> (r: bool)
        ensures
            r == (choice_of(self@, key@) == Some(choice@)),
    {
        match self.choice(key) {
            Some(c) => same_text(c, choice),
            None => false,
        }
    }
}

} // verus!
