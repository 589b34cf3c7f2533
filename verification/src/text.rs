//! Texts as sequences of characters, and the few operations on strings that
//! the rest of the library builds on.
use vstd::prelude::*;
use vstd::string::*;

verus! {

/// The texts that a sequence of strings holds, in order.
pub open spec fn texts(v: Seq<String>) -> Seq<Seq<char>> {
    Seq::new(v.len(), |i: int| v[i]@)
}

/// The words joined into one text, `sep` between each two neighbours.
pub open spec fn join_words(words: Seq<Seq<char>>, sep: Seq<char>) -> Seq<char>
    decreases words.len(),
{
    if words.len() == 0 {
        Seq::empty()
    } else if words.len() == 1 {
        words[0]
    } else {
        join_words(words.drop_last(), sep) + sep + words.last()
    }
}

/// Whether `word` ends in `ending`.
pub open spec fn has_ending(word: Seq<char>, ending: Seq<char>) -> bool {
    ending.len() <= word.len() && word.skip(word.len() - ending.len()) == ending
}

/// `word` with its last `cut` characters replaced by `tail`.
pub open spec fn with_ending(word: Seq<char>, cut: nat, tail: Seq<char>) -> Seq<char>
    recommends
        cut <= word.len(),
{
    word.take(word.len() - cut) + tail
}

/// The character of a decimal digit.
pub open spec fn digit_char(d: u8) -> char {
    ((48 + d) as u8) as char
}

/// Whether `c` is one of `0` to `9`.
pub open spec fn is_digit_char(c: char) -> bool {
    '0' <= c && c <= '9'
}

/// The digit that the character `c` writes.
pub open spec fn digit_of_char(c: char) -> u8
    recommends
        is_digit_char(c),
{
    ((c as u32) - 48) as u8
}

/// The digits that a text of digit characters writes, in order.
pub open spec fn digits_of_text(s: Seq<char>) -> Seq<u8> {
    Seq::new(s.len(), |i: int| digit_of_char(s[i]))
}

/// Whether every character of `s` is a decimal digit.
pub open spec fn all_digit_chars(s: Seq<char>) -> bool {
    forall|i: int| 0 <= i < s.len() ==> is_digit_char(#[trigger] s[i])
}

/// The place of the first `c` in `s`, or the length of `s` where it holds
/// none.
pub open spec fn first_index(s: Seq<char>, c: char) -> int
    decreases s.len(),
{
    if s.len() == 0 || s[0] == c {
        0
    } else {
        1 + first_index(s.drop_first(), c)
    }
}

/// `first_index` is the first place that holds the character.
pub proof fn lemma_first_index(s: Seq<char>, c: char)
    ensures
        0 <= first_index(s, c) <= s.len(),
        forall|j: int| 0 <= j < first_index(s, c) ==> s[j] != c,
        first_index(s, c) < s.len() ==> s[first_index(s, c)] == c,
    decreases s.len(),
{
    if s.len() == 0 || s[0] == c {
    } else {
        let rest = s.drop_first();
        lemma_first_index(rest, c);
        assert forall|j: int| 0 <= j < first_index(s, c) implies s[j] != c by {
            if j > 0 {
                assert(s[j] == rest[j - 1]);
            }
        }
    }
}

/// The place of the first `c` among the characters, or their count where
/// there is none.
pub fn find_char(cs: &Vec<char>, c: char) -> (r: usize)
    ensures
        r == first_index(cs@, c),
{
    let mut i: usize = 0;
    while i < cs.len() && cs[i] != c
        invariant
            i <= cs@.len(),
            forall|j: int| 0 <= j < i ==> cs@[j] != c,
        decreases cs@.len() - i,
    {
        i += 1;
    }
    proof {
        lemma_first_index(cs@, c);
    }
    i
}

/// Whether two texts are the same.
pub fn same_text(a: &str, b: &str) -> (r: bool)
    ensures
        r == (a@ == b@),
{
    let x = String::from_str(a);
    let y = String::from_str(b);
    x == y
}

/// The characters of `s`, in order.
pub fn chars_of(s: &str) -> (v: Vec<char>)
    ensures
        v@ == s@,
{
    let mut v: Vec<char> = Vec::new();
    for c in it: s.chars()
        invariant
            v@ == it.seq().take(it.index() as int),
            it.seq() == s@,
    {
        v.push(c);
    }
    v
}

/// The characters from place `from` up to place `to`.
pub fn slice_chars(cs: &Vec<char>, from: usize, to: usize) -> (r: Vec<char>)
    requires
        from <= to <= cs@.len(),
    ensures
        r@ == cs@.subrange(from as int, to as int),
{
    let mut out: Vec<char> = Vec::new();
    let mut i: usize = from;
    while i < to
        invariant
            from <= i <= to <= cs@.len(),
            out@ =~= cs@.subrange(from as int, i as int),
        decreases to - i,
    {
        out.push(cs[i]);
        i += 1;
    }
    out
}

/// The digit that `c` writes, if it is a decimal digit.
pub fn digit_value(c: char) -> (r: Option<u8>)
    ensures
        r is Some <==> is_digit_char(c),
        r matches Some(d) ==> d == digit_of_char(c) && d < 10,
{
    if c >= '0' && c <= '9' {
        Some(((c as u32) - 48) as u8)
    } else {
        None
    }
}

/// The one-character text of a decimal digit.
pub fn digit_text(d: u8) -> (r: &'static str)
    requires
        d < 10,
    ensures
        r@ == seq![digit_char(d)],
{
    proof {
        reveal_strlit("0");
        reveal_strlit("1");
        reveal_strlit("2");
        reveal_strlit("3");
        reveal_strlit("4");
        reveal_strlit("5");
        reveal_strlit("6");
        reveal_strlit("7");
        reveal_strlit("8");
        reveal_strlit("9");
    }
    let r = if d == 0 {
        "0"
    } else if d == 1 {
        "1"
    } else if d == 2 {
        "2"
    } else if d == 3 {
        "3"
    } else if d == 4 {
        "4"
    } else if d == 5 {
        "5"
    } else if d == 6 {
        "6"
    } else if d == 7 {
        "7"
    } else if d == 8 {
        "8"
    } else {
        "9"
    };
    assert(r@ =~= seq![digit_char(d)]);
    r
}

/// Joins `words` into one string, `sep` between each two neighbours.
pub fn join(words: &Vec<String>, sep: &str) -> (r: String)
    ensures
        r@ == join_words(texts(words@), sep@),
{
    let mut out = String::new();
    let mut i: usize = 0;
    while i < words.len()
        invariant
            i <= words.len(),
            out@ == join_words(texts(words@).take(i as int), sep@),
        decreases words.len() - i,
    {
        proof {
            let next = texts(words@).take(i + 1);
            assert(next.drop_last() =~= texts(words@).take(i as int));
            assert(next.last() == words@[i as int]@);
            if i > 0 {
                assert(join_words(next, sep@) == join_words(next.drop_last(), sep@) + sep@
                    + next.last());
            } else {
                assert(join_words(next, sep@) == next[0]);
            }
        }
        if i > 0 {
            out.append(sep);
        }
        out.append(words[i].as_str());
        i += 1;
    }
    assert(texts(words@).take(words.len() as int) =~= texts(words@));
    out
}

/// Whether `word` ends in `ending`.
pub fn ends_with(word: &str, ending: &str) -> (r: bool)
    ensures
        r == has_ending(word@, ending@),
{
    let n = word.unicode_len();
    let m = ending.unicode_len();
    if m > n {
        false
    } else {
        let tail = word.substring_char(n - m, n);
        assert(word@.subrange(n - m, n as int) =~= word@.skip(n - m));
        same_text(tail, ending)
    }
}

/// `word` without its last `cut` characters, followed by `tail`.
pub fn replace_ending(word: &str, cut: usize, tail: &str) -> (r: String)
    requires
        cut <= word@.len(),
    ensures
        r@ == with_ending(word@, cut as nat, tail@),
{
    let n = word.unicode_len();
    let stem = word.substring_char(0, n - cut);
    assert(word@.subrange(0, n - cut) =~= word@.take(n - cut));
    let mut out = String::from_str(stem);
    out.append(tail);
    out
}

} // verus!
