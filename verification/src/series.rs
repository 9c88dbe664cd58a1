//! A series of counts: one positive count per period or category key.

use vstd::prelude::*;
use crate::ordered::{ascending, find, holds_key, item, lemma_insert, lemma_position,
    lemma_update, position, Keyed};
use crate::text::lex_lt;

verus! {

/// One count of a series, filed under its key.
#[derive(Debug)]
pub struct Count {
    key: String,
    value: i32,
}

impl Keyed for Count {
    open spec fn key_view(&self) -> Seq<char> {
        self.label()
    }

    fn key(&self) -> (k: &str) {
        self.key.as_str()
    }
}

impl Count {
    /// The key of the count.
    pub closed spec fn label(&self) -> Seq<char> {
        self.key@
    }

    /// The count itself.
    pub closed spec fn amount(&self) -> int {
        self.value as int
    }
}

/// Counts by key. Every count held is positive, and the keys come in
/// ascending order.
#[derive(Debug)]
pub struct Series {
    entries: Vec<Count>,
}

/// The count a series holds under `key`: zero where it holds none.
pub open spec fn count_of(m: Map<Seq<char>, int>, key: Seq<char>) -> int {
    if m.contains_key(key) {
        m[key]
    } else {
        0
    }
}

/// Whether `n` more under `key` still fits the counter.
pub open spec fn fits(m: Map<Seq<char>, int>, key: Seq<char>, n: int) -> bool {
    n <= 0 || count_of(m, key) + n <= i32::MAX
}

/// The series with `n` more under `key`; nothing is added unless `n` is
/// positive.
pub open spec fn with_added(m: Map<Seq<char>, int>, key: Seq<char>, n: int) -> Map<
    Seq<char>,
    int,
> {
    if n <= 0 {
        m
    } else {
        m.insert(key, count_of(m, key) + n)
    }
}

impl View for Series {
    type V = Map<Seq<char>, int>;

    closed spec fn view(&self) -> Map<Seq<char>, int> {
        Map::new(
            |k: Seq<char>| holds_key(self.entries@, k),
            |k: Seq<char>| item(self.entries@, k).amount(),
        )
    }
}

impl Series {
    #[verifier::type_invariant]
    spec fn well_formed(self) -> bool {
        &&& ascending(self.entries@)
        &&& forall|i: int| 0 <= i < self.entries@.len() ==> (#[trigger] self.entries@[i]).value > 0
    }

    /// The series without any count: no key holds one, and no rank is
    /// taken.
    pub fn new() -> (s: Series)
        ensures
            s@ == Map::<Seq<char>, int>::empty(),
            s.ranked() == Seq::<(Seq<char>, int)>::empty(),
    {
        let s = Series { entries: Vec::new() };
        assert(s@ =~= Map::<Seq<char>, int>::empty());
        assert(s.ranked() =~= Seq::<(Seq<char>, int)>::empty());
        s
    }

    /// The count under `key`, if there is one.
    pub fn get(&self, key: &str) -> (r: Option<i32>)
        ensures
            match r {
                Some(n) => self@.contains_key(key@) && self@[key@] == n && n > 0,
                None => !self@.contains_key(key@),
            },
    {
        proof {
            use_type_invariant(self);
        }
        let (p, found) = find(&self.entries, key);
        if found {
            Some(self.entries[p].value)
        } else {
            None
        }
    }

    /// Adds `n` to the count under `key`, which starts at zero. Nothing is
    /// added unless `n` is positive, nor where the sum would pass
    /// `i32::MAX`: then the result is `false`.
    pub fn add(&mut self, key: String, n: i32) -> (done: bool)
        ensures
            done == fits(old(self)@, key@, n as int),
            final(self)@ == if done {
                with_added(old(self)@, key@, n as int)
            } else {
                old(self)@
            },
    {
        proof {
            use_type_invariant(&*self);
        }
        if n <= 0 {
            return true;
        }
        let (p, found) = find(&self.entries, key.as_str());
        if found && self.entries[p].value > i32::MAX - n {
            return false;
        }
        let ghost before = self.entries@;
        let mut entries: Vec<Count> = Vec::new();
        core::mem::swap(&mut self.entries, &mut entries);
        if found {
            let held: i32 = entries[p].value;
            entries[p].value = held + n;
            proof {
                lemma_update(before, p as int, entries@[p as int]);
                assert(entries@ =~= before.update(p as int, entries@[p as int]));
            }
        } else {
            let c = Count { key, value: n };
            entries.insert(p, c);
            proof {
                lemma_insert(before, p as int, c);
            }
        }
        self.entries = entries;
        assert(self@ =~= with_added(old(self)@, key@, n as int));
        true
    }

    /// The keys and counts in ascending order of key.
    pub closed spec fn ranked(&self) -> Seq<(Seq<char>, int)> {
        Seq::new(
            self.entries@.len(),
            |i: int| (self.entries@[i].key@, self.entries@[i].value as int),
        )
    }

    /// How many keys hold a count. Every key of the series has a rank below
    /// that number.
    pub fn len(&self) -> (n: usize)
        ensures
            n == self.ranked().len(),
            forall|k: Seq<char>|
                self@.contains_key(k) ==> exists|i: int|
                    0 <= i < n && (#[trigger] self.ranked()[i]).0 == k,
    {
        proof {
            use_type_invariant(self);
            let e = self.ranked();
            assert forall|k: Seq<char>| self@.contains_key(k) implies exists|i: int|
                0 <= i < e.len() && (#[trigger] e[i]).0 == k by {
                let p = position(self.entries@, k);
                assert(e[p].0 == k);
            }
        }
        self.entries.len()
    }

    /// The key and count at rank `i`: a count of the series, under a key
    /// that comes after the keys of all lower ranks.
    pub fn entry(&self, i: usize) -> (r: Option<(&str, i32)>)
        ensures
            match r {
                Some((k, n)) => {
                    &&& i < self.ranked().len()
                    &&& self.ranked()[i as int] == (k@, n as int)
                    &&& self@.contains_key(k@)
                    &&& self@[k@] == n
                    &&& forall|j: int|
                        0 <= j < i ==> lex_lt((#[trigger] self.ranked()[j]).0, k@)
                },
                None => i >= self.ranked().len(),
            },
    {
        proof {
            use_type_invariant(self);
        }
        if i < self.entries.len() {
            proof {
                lemma_position(self.entries@, i as int);
                let e = self.ranked();
                assert forall|j: int| 0 <= j < i implies lex_lt(
                    (#[trigger] e[j]).0,
                    self.entries@[i as int].key@,
                ) by {
                    assert(lex_lt(
                        self.entries@[j].key_view(),
                        self.entries@[i as int].key_view(),
                    ));
                }
            }
            Some((self.entries[i].key.as_str(), self.entries[i].value))
        } else {
            None
        }
    }
}

} // verus!
