//! The two look-up structures of the search: keywords to model ids, and
//! phonetic codes to keywords.

use std::collections::BTreeSet;
use vstd::prelude::*;
use crate::blob::{blob_of, to_blob};
use crate::ids::{add_id, in_order};
use crate::ordered::{ascending, find, holds_key, in_lex_order, item, key_set, keys_of,
    lemma_insert, lemma_keys_in_order, lemma_position,
    lemma_update, position, Keyed};
use crate::phonetic::codes_view;
use crate::text::lex_lt;
use crate::words::{join_with, WordSet};

verus! {

/// The ids filed under one keyword.
#[derive(Debug)]
pub struct KeywordEntry {
    word: String,
    ids: BTreeSet<usize>,
}

impl KeywordEntry {
    /// The keyword of the entry.
    pub closed spec fn label(&self) -> Seq<char> {
        self.word@
    }
}

impl Keyed for KeywordEntry {
    open spec fn key_view(&self) -> Seq<char> {
        self.label()
    }

    fn key(&self) -> (k: &str) {
        self.word.as_str()
    }
}

/// From keyword to the ids of the models whose name holds it.
#[derive(Debug)]
pub struct KeywordIndex {
    entries: Vec<KeywordEntry>,
}

/// The ids filed under `word`: none where the map has no such keyword.
pub open spec fn ids_under(m: Map<Seq<char>, Set<usize>>, word: Seq<char>) -> Set<usize> {
    if m.contains_key(word) {
        m[word]
    } else {
        Set::empty()
    }
}

/// The map with `id` filed under `word`.
pub open spec fn with_id(m: Map<Seq<char>, Set<usize>>, word: Seq<char>, id: usize) -> Map<
    Seq<char>,
    Set<usize>,
> {
    m.insert(word, ids_under(m, word).insert(id))
}

impl View for KeywordIndex {
    type V = Map<Seq<char>, Set<usize>>;

    closed spec fn view(&self) -> Map<Seq<char>, Set<usize>> {
        Map::new(
            |w: Seq<char>| holds_key(self.entries@, w),
            |w: Seq<char>| item(self.entries@, w).ids@,
        )
    }
}

impl KeywordIndex {
    #[verifier::type_invariant]
    spec fn well_formed(self) -> bool {
        ascending(self.entries@)
    }

    /// The keywords in ascending order, each with its ids.
    pub closed spec fn ranked(&self) -> Seq<(Seq<char>, Set<usize>)> {
        Seq::new(self.entries@.len(), |i: int| (self.entries@[i].word@, self.entries@[i].ids@))
    }

    /// The index without any keyword: no word has ids, and no rank is
    /// taken.
    pub fn new() -> (s: KeywordIndex)
        ensures
            s@ == Map::<Seq<char>, Set<usize>>::empty(),
            s.ranked() == Seq::<(Seq<char>, Set<usize>)>::empty(),
    {
        let s = KeywordIndex { entries: Vec::new() };
        assert(s@ =~= Map::<Seq<char>, Set<usize>>::empty());
        assert(s.ranked() =~= Seq::<(Seq<char>, Set<usize>)>::empty());
        s
    }

    /// Files `id` under `word`.
    pub fn register(&mut self, word: &str, id: usize)
        ensures
            final(self)@ == with_id(old(self)@, word@, id),
    {
        proof {
            use_type_invariant(&*self);
        }
        let (p, found) = find(&self.entries, word);
        let ghost before = self.entries@;
        let mut entries: Vec<KeywordEntry> = Vec::new();
        core::mem::swap(&mut self.entries, &mut entries);
        if found {
            add_id(&mut entries[p].ids, id);
            proof {
                lemma_update(before, p as int, entries@[p as int]);
                assert(entries@ =~= before.update(p as int, entries@[p as int]));
            }
        } else {
            let mut ids: BTreeSet<usize> = BTreeSet::new();
            add_id(&mut ids, id);
            let e = KeywordEntry { word: word.to_owned(), ids };
            entries.insert(p, e);
            proof {
                lemma_insert(before, p as int, e);
            }
        }
        self.entries = entries;
        assert(self@ =~= with_id(old(self)@, word@, id));
    }

    /// The ids filed under `word`, if it is a keyword of the index.
    pub fn get(&self, word: &str) -> (r: Option<&BTreeSet<usize>>)
        ensures
            match r {
                Some(ids) => self@.contains_key(word@) && self@[word@] == ids@,
                None => !self@.contains_key(word@),
            },
    {
        proof {
            use_type_invariant(self);
        }
        let (p, found) = find(&self.entries, word);
        if found {
            Some(&self.entries[p].ids)
        } else {
            None
        }
    }

    /// How many keywords the index holds. Every keyword has a rank below
    /// that number.
    pub fn len(&self) -> (n: usize)
        ensures
            n == self.ranked().len(),
            forall|w: Seq<char>|
                self@.contains_key(w) ==> exists|i: int|
                    0 <= i < n && (#[trigger] self.ranked()[i]).0 == w,
    {
        proof {
            let r = self.ranked();
            assert forall|w: Seq<char>| self@.contains_key(w) implies exists|i: int|
                0 <= i < r.len() && (#[trigger] r[i]).0 == w by {
                let q = position(self.entries@, w);
                assert(r[q].0 == w);
            }
        }
        self.entries.len()
    }

    /// The keyword at rank `i` and its ids. It comes after the keywords of
    /// all lower ranks.
    pub fn entry(&self, i: usize) -> (r: Option<(&str, &BTreeSet<usize>)>)
        ensures
            match r {
                Some((w, ids)) => {
                    &&& i < self.ranked().len()
                    &&& self.ranked()[i as int] == (w@, ids@)
                    &&& self@.contains_key(w@)
                    &&& self@[w@] == ids@
                    &&& forall|j: int| 0 <= j < i ==> lex_lt((#[trigger] self.ranked()[j]).0, w@)
                },
                None => i >= self.ranked().len(),
            },
    {
        proof {
            use_type_invariant(self);
        }
        if i < self.entries.len() {
            proof {
                lemma_position(self.entries@, i as int);
                let r = self.ranked();
                assert forall|j: int| 0 <= j < i implies lex_lt(
                    (#[trigger] r[j]).0,
                    self.entries@[i as int].word@,
                ) by {
                    assert(lex_lt(
                        self.entries@[j].key_view(),
                        self.entries@[i as int].key_view(),
                    ));
                }
            }
            Some((self.entries[i].word.as_str(), &self.entries[i].ids))
        } else {
            None
        }
    }

    /// The rows of the keyword table: one for each keyword, in ascending
    /// order of keyword, with the blob of the ids filed under it.
    pub fn rows(&self) -> (out: Vec<(String, Vec<u8>)>)
        ensures
            out@.len() == in_lex_order(self@.dom()).len(),
            forall|i: int|
                0 <= i < out@.len() ==> {
                    &&& (#[trigger] out@[i]).0@ == in_lex_order(self@.dom())[i]
                    &&& self@.contains_key(out@[i].0@)
                    &&& out@[i].1@ == blob_of(in_order(self@[out@[i].0@]))
                },
    {
        proof {
            use_type_invariant(self);
            lemma_keys_in_order(self.entries@);
            assert(key_set(self.entries@) =~= self@.dom());
        }
        let mut out: Vec<(String, Vec<u8>)> = Vec::new();
        let mut i: usize = 0;
        while i < self.entries.len()
            invariant
                i <= self.entries.len(),
                ascending(self.entries@),
                out@.len() == i,
                forall|k: int|
                    0 <= k < i ==> {
                        &&& (#[trigger] out@[k]).0@ == keys_of(self.entries@)[k]
                        &&& self@.contains_key(out@[k].0@)
                        &&& out@[k].1@ == blob_of(in_order(self@[out@[k].0@]))
                    },
            decreases self.entries.len() - i,
        {
            proof {
                lemma_position(self.entries@, i as int);
            }
            out.push((self.entries[i].word.clone(), to_blob(&self.entries[i].ids)));
            i += 1;
        }
        out
    }
}

/// The keywords filed under one phonetic code.
#[derive(Debug)]
pub struct PhoneticEntry {
    code: String,
    words: WordSet,
}

impl PhoneticEntry {
    /// The code of the entry.
    pub closed spec fn label(&self) -> Seq<char> {
        self.code@
    }
}

impl Keyed for PhoneticEntry {
    open spec fn key_view(&self) -> Seq<char> {
        self.label()
    }

    fn key(&self) -> (k: &str) {
        self.code.as_str()
    }
}

/// From phonetic code to the keywords that sound like it.
#[derive(Debug)]
pub struct PhoneticIndex {
    entries: Vec<PhoneticEntry>,
}

/// The keywords filed under `code`: none where the map has no such code.
pub open spec fn words_under(m: Map<Seq<char>, Set<Seq<char>>>, code: Seq<char>) -> Set<
    Seq<char>,
> {
    if m.contains_key(code) {
        m[code]
    } else {
        Set::empty()
    }
}

/// The map with `word` filed under `code`.
pub open spec fn with_word(m: Map<Seq<char>, Set<Seq<char>>>, code: Seq<char>, word: Seq<char>)
    -> Map<Seq<char>, Set<Seq<char>>> {
    m.insert(code, words_under(m, code).insert(word))
}

/// The map with `word` filed under its primary code and under its alternate
/// code; unchanged where the word has no codes.
pub open spec fn with_codes(
    m: Map<Seq<char>, Set<Seq<char>>>,
    word: Seq<char>,
    codes: Option<(Seq<char>, Seq<char>)>,
) -> Map<Seq<char>, Set<Seq<char>>> {
    match codes {
        Some((primary, alternate)) => with_word(with_word(m, primary, word), alternate, word),
        None => m,
    }
}

impl View for PhoneticIndex {
    type V = Map<Seq<char>, Set<Seq<char>>>;

    closed spec fn view(&self) -> Map<Seq<char>, Set<Seq<char>>> {
        Map::new(
            |c: Seq<char>| holds_key(self.entries@, c),
            |c: Seq<char>| item(self.entries@, c).words@,
        )
    }
}

impl PhoneticIndex {
    #[verifier::type_invariant]
    spec fn well_formed(self) -> bool {
        ascending(self.entries@)
    }

    /// The codes in ascending order, each with its keywords in ascending
    /// order.
    pub closed spec fn ranked(&self) -> Seq<(Seq<char>, Seq<Seq<char>>)> {
        Seq::new(
            self.entries@.len(),
            |i: int| (self.entries@[i].code@, self.entries@[i].words.ranked()),
        )
    }

    /// The index without any code: no code has keywords, and no rank is
    /// taken.
    pub fn new() -> (s: PhoneticIndex)
        ensures
            s@ == Map::<Seq<char>, Set<Seq<char>>>::empty(),
            s.ranked() == Seq::<(Seq<char>, Seq<Seq<char>>)>::empty(),
    {
        let s = PhoneticIndex { entries: Vec::new() };
        assert(s@ =~= Map::<Seq<char>, Set<Seq<char>>>::empty());
        assert(s.ranked() =~= Seq::<(Seq<char>, Seq<Seq<char>>)>::empty());
        s
    }

    fn file(&mut self, code: &str, word: &str)
        ensures
            final(self)@ == with_word(old(self)@, code@, word@),
    {
        proof {
            use_type_invariant(&*self);
        }
        let (p, found) = find(&self.entries, code);
        let ghost before = self.entries@;
        let mut entries: Vec<PhoneticEntry> = Vec::new();
        core::mem::swap(&mut self.entries, &mut entries);
        if found {
            entries[p].words.insert(word.to_owned());
            proof {
                lemma_update(before, p as int, entries@[p as int]);
                assert(entries@ =~= before.update(p as int, entries@[p as int]));
            }
        } else {
            let mut words = WordSet::new();
            words.insert(word.to_owned());
            let e = PhoneticEntry { code: code.to_owned(), words };
            entries.insert(p, e);
            proof {
                lemma_insert(before, p as int, e);
            }
        }
        self.entries = entries;
        assert(self@ =~= with_word(old(self)@, code@, word@));
    }

    /// Files `word` under the two codes that the encoder gave for it, or
    /// nowhere if it gave none.
    pub fn register(&mut self, word: &str, codes: &Option<(String, String)>)
        ensures
            final(self)@ == with_codes(old(self)@, word@, codes_view(*codes)),
    {
        match codes {
            Some(pair) => {
                self.file(pair.0.as_str(), word);
                self.file(pair.1.as_str(), word);
            },
            None => {},
        }
    }

    /// The keywords filed under `code`, if the index holds that code.
    pub fn get(&self, code: &str) -> (r: Option<&WordSet>)
        ensures
            match r {
                Some(words) => self@.contains_key(code@) && self@[code@] == words@,
                None => !self@.contains_key(code@),
            },
    {
        proof {
            use_type_invariant(self);
        }
        let (p, found) = find(&self.entries, code);
        if found {
            Some(&self.entries[p].words)
        } else {
            None
        }
    }

    /// How many codes the index holds. Every code has a rank below that
    /// number.
    pub fn len(&self) -> (n: usize)
        ensures
            n == self.ranked().len(),
            forall|c: Seq<char>|
                self@.contains_key(c) ==> exists|i: int|
                    0 <= i < n && (#[trigger] self.ranked()[i]).0 == c,
    {
        proof {
            let r = self.ranked();
            assert forall|c: Seq<char>| self@.contains_key(c) implies exists|i: int|
                0 <= i < r.len() && (#[trigger] r[i]).0 == c by {
                let q = position(self.entries@, c);
                assert(r[q].0 == c);
            }
        }
        self.entries.len()
    }

    /// The code at rank `i` and its keywords. It comes after the codes of
    /// all lower ranks.
    pub fn entry(&self, i: usize) -> (r: Option<(&str, &WordSet)>)
        ensures
            match r {
                Some((c, words)) => {
                    &&& i < self.ranked().len()
                    &&& self.ranked()[i as int] == (c@, words.ranked())
                    &&& self@.contains_key(c@)
                    &&& self@[c@] == words@
                    &&& forall|j: int| 0 <= j < i ==> lex_lt((#[trigger] self.ranked()[j]).0, c@)
                },
                None => i >= self.ranked().len(),
            },
    {
        proof {
            use_type_invariant(self);
        }
        if i < self.entries.len() {
            proof {
                lemma_position(self.entries@, i as int);
                let r = self.ranked();
                assert forall|j: int| 0 <= j < i implies lex_lt(
                    (#[trigger] r[j]).0,
                    self.entries@[i as int].code@,
                ) by {
                    assert(lex_lt(
                        self.entries@[j].key_view(),
                        self.entries@[i as int].key_view(),
                    ));
                }
            }
            Some((self.entries[i].code.as_str(), &self.entries[i].words))
        } else {
            None
        }
    }

    /// The rows of the phonetic table: one for each code, in ascending order
    /// of code, with the keywords filed under it in ascending order and a
    /// bar between neighbours.
    pub fn rows(&self) -> (out: Vec<(String, String)>)
        ensures
            out@.len() == in_lex_order(self@.dom()).len(),
            forall|i: int|
                0 <= i < out@.len() ==> {
                    &&& (#[trigger] out@[i]).0@ == in_lex_order(self@.dom())[i]
                    &&& self@.contains_key(out@[i].0@)
                    &&& out@[i].1@ == join_with(in_lex_order(self@[out@[i].0@]), '|')
                },
    {
        proof {
            use_type_invariant(self);
            lemma_keys_in_order(self.entries@);
            assert(key_set(self.entries@) =~= self@.dom());
        }
        let mut out: Vec<(String, String)> = Vec::new();
        let mut i: usize = 0;
        while i < self.entries.len()
            invariant
                i <= self.entries.len(),
                ascending(self.entries@),
                out@.len() == i,
                forall|k: int|
                    0 <= k < i ==> {
                        &&& (#[trigger] out@[k]).0@ == keys_of(self.entries@)[k]
                        &&& self@.contains_key(out@[k].0@)
                        &&& out@[k].1@ == join_with(in_lex_order(self@[out@[k].0@]), '|')
                    },
            decreases self.entries.len() - i,
        {
            proof {
                lemma_position(self.entries@, i as int);
            }
            out.push((self.entries[i].code.clone(), self.entries[i].words.joined('|')));
            i += 1;
        }
        out
    }
}

} // verus!
