//! Keywords: the tokens of a name, and sets of words.

use vstd::prelude::*;
use vstd::string::StringExecFns;
use crate::ordered::{ascending, find, holds_key, in_lex_order, key_set, keys_of,
    lemma_insert, lemma_keys_in_order, lemma_position, position, Keyed};
use crate::text::{chars_of, is_digit, is_lower, lex_lt, lower, lower_text, to_lower};

verus! {

impl Keyed for String {
    open spec fn key_view(&self) -> Seq<char> {
        self@
    }

    fn key(&self) -> (k: &str) {
        self.as_str()
    }
}

/// A set of words, kept in ascending order.
#[derive(Debug)]
pub struct WordSet {
    words: Vec<String>,
}

impl View for WordSet {
    type V = Set<Seq<char>>;

    closed spec fn view(&self) -> Set<Seq<char>> {
        Set::new(|w: Seq<char>| holds_key(self.words@, w))
    }
}

impl WordSet {
    #[verifier::type_invariant]
    spec fn well_formed(self) -> bool {
        ascending(self.words@)
    }

    /// The words in ascending order.
    pub closed spec fn ranked(&self) -> Seq<Seq<char>> {
        Seq::new(self.words@.len(), |i: int| self.words@[i]@)
    }

    /// The empty set: it has no member, and no rank is taken.
    pub fn new() -> (s: WordSet)
        ensures
            s@ == Set::<Seq<char>>::empty(),
            s.ranked() == Seq::<Seq<char>>::empty(),
    {
        let s = WordSet { words: Vec::new() };
        assert(s@ =~= Set::<Seq<char>>::empty());
        assert(s.ranked() =~= Seq::<Seq<char>>::empty());
        s
    }

    /// Whether `word` is in the set.
    pub fn contains(&self, word: &str) -> (r: bool)
        ensures
            r == self@.contains(word@),
    {
        proof {
            use_type_invariant(self);
        }
        find(&self.words, word).1
    }

    /// Puts `word` into the set. A word that is in the set already is not
    /// put in again: the result says whether the set grew.
    pub fn insert(&mut self, word: String) -> (grew: bool)
        ensures
            final(self)@ == old(self)@.insert(word@),
            grew == !old(self)@.contains(word@),
    {
        proof {
            use_type_invariant(&*self);
        }
        let (p, found) = find(&self.words, word.as_str());
        if found {
            assert(self@ =~= self@.insert(word@));
            return false;
        }
        let ghost before = self.words@;
        let mut words: Vec<String> = Vec::new();
        core::mem::swap(&mut self.words, &mut words);
        words.insert(p, word);
        proof {
            lemma_insert(before, p as int, word);
        }
        self.words = words;
        assert(self@ =~= old(self)@.insert(word@));
        true
    }

    /// How many words the set holds. Every word of the set has a rank below
    /// that number.
    pub fn len(&self) -> (n: usize)
        ensures
            n == self.ranked().len(),
            forall|w: Seq<char>|
                self@.contains(w) ==> exists|i: int| 0 <= i < n && #[trigger] self.ranked()[i] == w,
    {
        proof {
            let r = self.ranked();
            assert forall|w: Seq<char>| self@.contains(w) implies exists|i: int|
                0 <= i < r.len() && #[trigger] r[i] == w by {
                let q = position(self.words@, w);
                assert(r[q] == w);
            }
        }
        self.words.len()
    }

    /// The word at rank `i`: a member of the set that comes after the words
    /// of all lower ranks.
    pub fn get(&self, i: usize) -> (r: Option<&str>)
        ensures
            match r {
                Some(w) => {
                    &&& i < self.ranked().len()
                    &&& self.ranked()[i as int] == w@
                    &&& self@.contains(w@)
                    &&& forall|j: int| 0 <= j < i ==> lex_lt(#[trigger] self.ranked()[j], w@)
                },
                None => i >= self.ranked().len(),
            },
    {
        proof {
            use_type_invariant(self);
        }
        if i < self.words.len() {
            proof {
                lemma_position(self.words@, i as int);
                let r = self.ranked();
                assert forall|j: int| 0 <= j < i implies lex_lt(
                    #[trigger] r[j],
                    self.words@[i as int]@,
                ) by {
                    assert(lex_lt(self.words@[j].key_view(), self.words@[i as int].key_view()));
                }
            }
            Some(self.words[i].as_str())
        } else {
            None
        }
    }
}

/// The words of a list with `sep` between neighbours.
pub open spec fn join_with(words: Seq<Seq<char>>, sep: char) -> Seq<char>
    decreases words.len(),
{
    if words.len() == 0 {
        Seq::empty()
    } else if words.len() == 1 {
        words[0]
    } else {
        join_with(words.drop_last(), sep) + seq![sep] + words.last()
    }
}

impl WordSet {
    /// The words in ascending order, with `sep` between neighbours.
    pub fn joined(&self, sep: char) -> (out: String)
        ensures
            out@ == join_with(in_lex_order(self@), sep),
            self.ranked() == in_lex_order(self@),
    {
        proof {
            use_type_invariant(self);
            lemma_keys_in_order(self.words@);
            assert(key_set(self.words@) =~= self@);
            assert(keys_of(self.words@) =~= self.ranked());
        }
        let mut out = String::new();
        let mut i: usize = 0;
        let ghost all = self.ranked();
        assert(all.take(0) =~= Seq::<Seq<char>>::empty());
        while i < self.words.len()
            invariant
                i <= self.words.len(),
                all == self.ranked(),
                out@ == join_with(all.take(i as int), sep),
            decreases self.words.len() - i,
        {
            proof {
                assert(all.take(i as int + 1).drop_last() =~= all.take(i as int));
                assert(all.take(i as int + 1).last() == self.words@[i as int]@);
            }
            if i > 0 {
                out.push(sep);
            }
            out.append(self.words[i].as_str());
            proof {
                if i == 0 {
                    assert(out@ =~= all[0]);
                }
            }
            i += 1;
        }
        assert(all.take(i as int) =~= all);
        out
    }
}

/// The kind of token a character can stand in: 1 for a lower-case letter, 2
/// for a digit, 0 for a character that stands in none.
pub open spec fn token_class(c: char) -> int {
    if is_lower(c) {
        1
    } else if is_digit(c) {
        2
    } else {
        0
    }
}

/// `text` holds a token from `i` up to `j`: a run of letters, or of digits,
/// that cannot be made longer at either end.
pub open spec fn is_token_at(text: Seq<char>, i: int, j: int) -> bool {
    &&& 0 <= i < j <= text.len()
    &&& token_class(text[i]) != 0
    &&& forall|k: int| i <= k < j ==> token_class(#[trigger] text[k]) == token_class(text[i])
    &&& (i == 0 || token_class(text[i - 1]) != token_class(text[i]))
    &&& (j == text.len() || token_class(text[j]) != token_class(text[i]))
}

/// The tokens of `text`: its maximal runs of lower-case letters and of
/// digits.
pub open spec fn tokens(text: Seq<char>) -> Set<Seq<char>> {
    Set::new(
        |w: Seq<char>|
            exists|i: int, j: int| #[trigger] is_token_at(text, i, j) && text.subrange(i, j) == w,
    )
}

/// The keywords of a name: the tokens of its lower-cased text.
pub open spec fn keywords(name: Seq<char>) -> Set<Seq<char>> {
    tokens(lower_text(name))
}

spec fn tokens_upto(text: Seq<char>, n: int) -> Set<Seq<char>> {
    Set::new(
        |w: Seq<char>|
            exists|i: int, j: int|
                #[trigger] is_token_at(text, i, j) && j <= n && text.subrange(i, j) == w,
    )
}

spec fn boundary(text: Seq<char>, i: int) -> bool {
    i == 0 || i == text.len() || token_class(text[i]) == 0 || token_class(text[i - 1])
        != token_class(text[i])
}

proof fn lemma_skip_separator(text: Seq<char>, i: int)
    requires
        0 <= i < text.len(),
        token_class(text[i]) == 0,
    ensures
        tokens_upto(text, i + 1) == tokens_upto(text, i),
        boundary(text, i + 1),
{
    assert forall|w: Seq<char>| tokens_upto(text, i + 1).contains(w) implies tokens_upto(
        text,
        i,
    ).contains(w) by {
        let (a, b) = choose|a: int, b: int|
            #[trigger] is_token_at(text, a, b) && b <= i + 1 && text.subrange(a, b) == w;
        if b == i + 1 {
            assert(token_class(text[i]) == token_class(text[a]));
        }
        assert(is_token_at(text, a, b) && b <= i);
    }
    assert forall|w: Seq<char>| tokens_upto(text, i).contains(w) implies tokens_upto(
        text,
        i + 1,
    ).contains(w) by {
        let (a, b) = choose|a: int, b: int|
            #[trigger] is_token_at(text, a, b) && b <= i && text.subrange(a, b) == w;
        assert(is_token_at(text, a, b) && b <= i + 1);
    }
    assert(tokens_upto(text, i + 1) =~= tokens_upto(text, i));
}

proof fn lemma_take_token(text: Seq<char>, i: int, j: int)
    requires
        0 <= i < j <= text.len(),
        boundary(text, i),
        token_class(text[i]) != 0,
        forall|k: int| i <= k < j ==> token_class(#[trigger] text[k]) == token_class(text[i]),
        j == text.len() || token_class(text[j]) != token_class(text[i]),
    ensures
        tokens_upto(text, j) == tokens_upto(text, i).insert(text.subrange(i, j)),
        boundary(text, j),
{
    assert(is_token_at(text, i, j));
    assert(token_class(text[j - 1]) == token_class(text[i]));
    let grown = tokens_upto(text, i).insert(text.subrange(i, j));
    assert forall|w: Seq<char>| tokens_upto(text, j).contains(w) implies grown.contains(w) by {
        let (a, b) = choose|a: int, b: int|
            #[trigger] is_token_at(text, a, b) && b <= j && text.subrange(a, b) == w;
        if b <= i {
            assert(is_token_at(text, a, b) && b <= i);
        } else {
            assert(token_class(text[b - 1]) == token_class(text[a]));
            assert(token_class(text[b - 1]) == token_class(text[i]));
            if a > i {
                assert(token_class(text[a - 1]) == token_class(text[i]));
            }
            if a < i {
                assert(token_class(text[i - 1]) == token_class(text[a]));
                assert(token_class(text[i]) == token_class(text[a]));
            }
            assert(a == i);
            if b < j {
                assert(token_class(text[b]) == token_class(text[i]));
            }
            assert(b == j);
        }
    }
    assert forall|w: Seq<char>| grown.contains(w) implies tokens_upto(text, j).contains(w) by {
        if w == text.subrange(i, j) {
            assert(is_token_at(text, i, j) && j <= j);
        } else {
            let (a, b) = choose|a: int, b: int|
                #[trigger] is_token_at(text, a, b) && b <= i && text.subrange(a, b) == w;
            assert(is_token_at(text, a, b) && b <= j);
        }
    }
    assert(tokens_upto(text, j) =~= grown);
}

proof fn lemma_tokens_upto_end(text: Seq<char>)
    ensures
        tokens_upto(text, text.len() as int) == tokens(text),
{
    assert forall|w: Seq<char>| tokens(text).contains(w) implies tokens_upto(
        text,
        text.len() as int,
    ).contains(w) by {
        let (a, b) = choose|a: int, b: int|
            #[trigger] is_token_at(text, a, b) && text.subrange(a, b) == w;
        assert(is_token_at(text, a, b) && b <= text.len());
    }
    assert forall|w: Seq<char>| tokens_upto(text, text.len() as int).contains(w) implies tokens(
        text,
    ).contains(w) by {
        let (a, b) = choose|a: int, b: int|
            #[trigger] is_token_at(text, a, b) && b <= text.len() && text.subrange(a, b) == w;
        assert(is_token_at(text, a, b));
    }
    assert(tokens_upto(text, text.len() as int) =~= tokens(text));
}

fn class_of(c: char) -> (k: u8)
    ensures
        k == token_class(c),
{
    if c >= 'a' && c <= 'z' {
        1
    } else if c >= '0' && c <= '9' {
        2
    } else {
        0
    }
}

fn lowered(text: &str) -> (out: Vec<char>)
    ensures
        out@ == lower_text(text@),
{
    let raw = chars_of(text);
    let mut out: Vec<char> = Vec::new();
    let mut i: usize = 0;
    while i < raw.len()
        invariant
            i <= raw.len(),
            raw@ == text@,
            out@.len() == i,
            forall|k: int| 0 <= k < i ==> #[trigger] out@[k] == lower(raw@[k]),
        decreases raw.len() - i,
    {
        out.push(to_lower(raw[i]));
        i += 1;
    }
    assert(out@ =~= lower_text(text@));
    out
}

fn word_of(chars: &Vec<char>, from: usize, to: usize) -> (out: String)
    requires
        from <= to <= chars.len(),
    ensures
        out@ == chars@.subrange(from as int, to as int),
{
    let mut out = String::new();
    let mut i: usize = from;
    while i < to
        invariant
            from <= i <= to <= chars.len(),
            out@ == chars@.subrange(from as int, i as int),
        decreases to - i,
    {
        out.push(chars[i]);
        assert(chars@.subrange(from as int, i as int + 1) =~= chars@.subrange(
            from as int,
            i as int,
        ).push(chars@[i as int]));
        i += 1;
    }
    out
}

/// Splits a name into its keywords: the text is lower-cased, and every
/// maximal run of letters and every maximal run of digits is one keyword.
pub fn keywords_of(name: &str) -> (out: WordSet)
    ensures
        out@ == keywords(name@),
{
    let text = lowered(name);
    let mut out = WordSet::new();
    let mut i: usize = 0;
    assert(tokens_upto(text@, 0) =~= Set::<Seq<char>>::empty());
    while i < text.len()
        invariant
            i <= text.len(),
            boundary(text@, i as int),
            out@ == tokens_upto(text@, i as int),
        decreases text.len() - i,
    {
        let class = class_of(text[i]);
        if class == 0 {
            proof {
                lemma_skip_separator(text@, i as int);
            }
            i += 1;
        } else {
            let mut j: usize = i + 1;
            while j < text.len() && class_of(text[j]) == class
                invariant
                    i < j <= text.len(),
                    class == token_class(text@[i as int]),
                    forall|k: int| i <= k < j ==> token_class(#[trigger] text@[k]) == class,
                decreases text.len() - j,
            {
                j += 1;
            }
            proof {
                lemma_take_token(text@, i as int, j as int);
            }
            out.insert(word_of(&text, i, j));
            i = j;
        }
    }
    proof {
        lemma_tokens_upto_end(text@);
    }
    out
}

} // verus!
