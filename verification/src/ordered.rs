//! Vectors kept in ascending order of a string key: the shape behind every
//! keyed collection of the index.

use vstd::prelude::*;
use crate::text::{lex_lt, lemma_lex_asymmetric, lemma_lex_irreflexive, lemma_lex_total,
    lemma_lex_transitive, order_of, Order};

verus! {

/// A value that is filed under a string key.
pub trait Keyed {
    /// The key the value is filed under.
    spec fn key_view(&self) -> Seq<char>;

    fn key(&self) -> (k: &str)
        ensures
            k@ == self.key_view(),
    ;
}

/// Keys strictly increase along `s`; in particular no key occurs twice.
pub open spec fn ascending<T: Keyed>(s: Seq<T>) -> bool {
    forall|i: int, j: int|
        0 <= i < j < s.len() ==> lex_lt(#[trigger] s[i].key_view(), #[trigger] s[j].key_view())
}

/// Some element of `s` is filed under `key`.
pub open spec fn holds_key<T: Keyed>(s: Seq<T>, key: Seq<char>) -> bool {
    exists|i: int| 0 <= i < s.len() && #[trigger] s[i].key_view() == key
}

/// A position at which an element filed under `key` stands in `s`.
pub open spec fn position<T: Keyed>(s: Seq<T>, key: Seq<char>) -> int {
    choose|i: int| 0 <= i < s.len() && #[trigger] s[i].key_view() == key
}

/// The element of `s` filed under `key`.
pub open spec fn item<T: Keyed>(s: Seq<T>, key: Seq<char>) -> T {
    s[position(s, key)]
}

/// `p` parts `s` into the keys before `key` and the keys not before it.
pub open spec fn is_slot<T: Keyed>(s: Seq<T>, key: Seq<char>, p: int) -> bool {
    &&& 0 <= p <= s.len()
    &&& forall|i: int| 0 <= i < p ==> lex_lt(#[trigger] s[i].key_view(), key)
    &&& forall|i: int| p <= i < s.len() ==> !lex_lt(#[trigger] s[i].key_view(), key)
}

/// In an ascending sequence each key has one position.
pub proof fn lemma_position<T: Keyed>(s: Seq<T>, i: int)
    requires
        ascending(s),
        0 <= i < s.len(),
    ensures
        holds_key(s, s[i].key_view()),
        position(s, s[i].key_view()) == i,
        item(s, s[i].key_view()) == s[i],
{
    let k = s[i].key_view();
    let p = position(s, k);
    assert(s[i].key_view() == k);
    if p < i {
        lemma_lex_asymmetric(s[p].key_view(), s[i].key_view());
    } else if i < p {
        lemma_lex_asymmetric(s[i].key_view(), s[p].key_view());
    }
}

/// Where the slot of `key` holds `key` itself, that is its position; past
/// the end or under another key, `key` is absent.
pub proof fn lemma_slot<T: Keyed>(s: Seq<T>, key: Seq<char>, p: int)
    requires
        ascending(s),
        is_slot(s, key, p),
    ensures
        holds_key(s, key) <==> (p < s.len() && s[p].key_view() == key),
        holds_key(s, key) ==> position(s, key) == p,
{
    if holds_key(s, key) {
        let q = position(s, key);
        lemma_lex_irreflexive(key);
        assert(!(q < p));
        if q > p {
            lemma_lex_total(s[p].key_view(), key);
            lemma_lex_asymmetric(s[p].key_view(), s[q].key_view());
        }
    }
}

/// Filing a new key at its slot keeps the order, adds that key and moves
/// no other element to another key.
pub proof fn lemma_insert<T: Keyed>(s: Seq<T>, p: int, x: T)
    requires
        ascending(s),
        is_slot(s, x.key_view(), p),
        !holds_key(s, x.key_view()),
    ensures
        ascending(s.insert(p, x)),
        forall|k: Seq<char>|
            #[trigger] holds_key(s.insert(p, x), k) <==> (k == x.key_view() || holds_key(s, k)),
        item(s.insert(p, x), x.key_view()) == x,
        forall|k: Seq<char>|
            holds_key(s, k) ==> #[trigger] item(s.insert(p, x), k) == item(s, k),
{
    let t = s.insert(p, x);
    let xk = x.key_view();
    assert forall|i: int| p <= i < s.len() implies lex_lt(xk, #[trigger] s[i].key_view()) by {
        lemma_lex_total(s[i].key_view(), xk);
    }
    assert forall|i: int, j: int| 0 <= i < j < t.len() implies lex_lt(
        #[trigger] t[i].key_view(),
        #[trigger] t[j].key_view(),
    ) by {
        if j < p {
        } else if j == p {
        } else if i < p {
            lemma_lex_transitive(s[i].key_view(), xk, s[j - 1].key_view());
        } else if i == p {
        } else {
            assert(lex_lt(s[i - 1].key_view(), s[j - 1].key_view()));
        }
    }
    assert(t[p] == x);
    lemma_position(t, p);
    assert forall|k: Seq<char>| #[trigger]
        holds_key(t, k) <==> (k == xk || holds_key(s, k)) by {
        if holds_key(t, k) {
            let q = position(t, k);
            if q < p {
                assert(s[q].key_view() == k);
            } else if q > p {
                assert(s[q - 1].key_view() == k);
            }
        }
        if holds_key(s, k) {
            let q = position(s, k);
            if q < p {
                assert(t[q].key_view() == k);
            } else {
                assert(t[q + 1].key_view() == k);
            }
        }
    }
    assert forall|k: Seq<char>| holds_key(s, k) implies #[trigger] item(t, k) == item(s, k) by {
        let q = position(s, k);
        if q < p {
            assert(t[q] == s[q]);
            lemma_position(t, q);
        } else {
            assert(t[q + 1] == s[q]);
            lemma_position(t, q + 1);
        }
    }
}

/// Replacing an element by one under the same key keeps the order and the
/// keys, and leaves every other element as it was.
pub proof fn lemma_update<T: Keyed>(s: Seq<T>, i: int, y: T)
    requires
        ascending(s),
        0 <= i < s.len(),
        y.key_view() == s[i].key_view(),
    ensures
        ascending(s.update(i, y)),
        forall|k: Seq<char>| #[trigger] holds_key(s.update(i, y), k) <==> holds_key(s, k),
        item(s.update(i, y), y.key_view()) == y,
        forall|k: Seq<char>|
            k != y.key_view() && holds_key(s, k) ==> #[trigger] item(s.update(i, y), k) == item(
                s,
                k,
            ),
{
    let t = s.update(i, y);
    assert forall|a: int, b: int| 0 <= a < b < t.len() implies lex_lt(
        #[trigger] t[a].key_view(),
        #[trigger] t[b].key_view(),
    ) by {
        assert(t[a].key_view() == s[a].key_view());
        assert(t[b].key_view() == s[b].key_view());
    }
    assert forall|k: Seq<char>| #[trigger] holds_key(t, k) <==> holds_key(s, k) by {
        if holds_key(t, k) {
            let q = position(t, k);
            assert(s[q].key_view() == k);
        }
        if holds_key(s, k) {
            let q = position(s, k);
            assert(t[q].key_view() == k);
        }
    }
    lemma_position(t, i);
    assert forall|k: Seq<char>| k != y.key_view() && holds_key(s, k) implies #[trigger] item(t, k)
        == item(s, k) by {
        let q = position(s, k);
        assert(t[q] == s[q]);
        lemma_position(t, q);
    }
}

/// Finds the slot of `key` by bisection, and says whether `key` stands
/// there.
pub fn find<T: Keyed>(v: &Vec<T>, key: &str) -> (r: (usize, bool))
    requires
        ascending(v@),
    ensures
        is_slot(v@, key@, r.0 as int),
        r.1 == holds_key(v@, key@),
        r.1 ==> r.0 < v.len() && v[r.0 as int].key_view() == key@ && position(v@, key@) == r.0,
{
    let mut lo: usize = 0;
    let mut hi: usize = v.len();
    while lo < hi
        invariant
            ascending(v@),
            0 <= lo <= hi <= v.len(),
            forall|i: int| 0 <= i < lo ==> lex_lt(#[trigger] v@[i].key_view(), key@),
            forall|i: int| hi <= i < v.len() ==> !lex_lt(#[trigger] v@[i].key_view(), key@),
        decreases hi - lo,
    {
        let mid: usize = lo + (hi - lo) / 2;
        let before = order_of(v[mid].key(), key) == Order::Less;
        if before {
            assert forall|i: int| 0 <= i < mid + 1 implies lex_lt(
                #[trigger] v@[i].key_view(),
                key@,
            ) by {
                if i < mid {
                    lemma_lex_transitive(v@[i].key_view(), v@[mid as int].key_view(), key@);
                }
            }
            lo = mid + 1;
        } else {
            assert forall|i: int| mid <= i < v.len() implies !lex_lt(
                #[trigger] v@[i].key_view(),
                key@,
            ) by {
                if i > mid && lex_lt(v@[i].key_view(), key@) {
                    lemma_lex_transitive(v@[mid as int].key_view(), v@[i].key_view(), key@);
                }
            }
            hi = mid;
        }
    }
    let found = lo < v.len() && order_of(v[lo].key(), key) == Order::Equal;
    proof {
        lemma_slot(v@, key@, lo as int);
    }
    (lo, found)
}

/// The elements of `s` by key, each as its view.
pub open spec fn view_map<T: Keyed + View>(s: Seq<T>) -> Map<Seq<char>, T::V> {
    Map::new(|k: Seq<char>| holds_key(s, k), |k: Seq<char>| item(s, k)@)
}

/// Filing a new key adds one entry to the map of views.
pub proof fn lemma_view_map_insert<T: Keyed + View>(s: Seq<T>, p: int, x: T)
    requires
        ascending(s),
        is_slot(s, x.key_view(), p),
        !holds_key(s, x.key_view()),
    ensures
        ascending(s.insert(p, x)),
        view_map(s.insert(p, x)) == view_map(s).insert(x.key_view(), x@),
{
    lemma_insert(s, p, x);
    assert(view_map(s.insert(p, x)) =~= view_map(s).insert(x.key_view(), x@));
}

/// Replacing an element under its key replaces one entry of the map of
/// views.
pub proof fn lemma_view_map_update<T: Keyed + View>(s: Seq<T>, i: int, y: T)
    requires
        ascending(s),
        0 <= i < s.len(),
        y.key_view() == s[i].key_view(),
    ensures
        ascending(s.update(i, y)),
        view_map(s.update(i, y)) == view_map(s).insert(y.key_view(), y@),
{
    lemma_update(s, i, y);
    assert(view_map(s.update(i, y)) =~= view_map(s).insert(y.key_view(), y@));
}

/// The element at a position is the entry of its key.
pub proof fn lemma_view_map_at<T: Keyed + View>(s: Seq<T>, i: int)
    requires
        ascending(s),
        0 <= i < s.len(),
    ensures
        view_map(s).contains_key(s[i].key_view()),
        view_map(s)[s[i].key_view()] == s[i]@,
{
    lemma_position(s, i);
}

/// The strings strictly increase along `q`.
pub open spec fn lex_ascending(q: Seq<Seq<char>>) -> bool {
    forall|i: int, j: int| 0 <= i < j < q.len() ==> lex_lt(#[trigger] q[i], #[trigger] q[j])
}

/// The members of a finite set of strings in ascending order.
pub open spec fn in_lex_order(s: Set<Seq<char>>) -> Seq<Seq<char>> {
    choose|q: Seq<Seq<char>>| lex_ascending(q) && q.to_set() == s
}

/// A set of strings has one ascending arrangement at most.
pub proof fn lemma_one_lex_order(p: Seq<Seq<char>>, q: Seq<Seq<char>>)
    requires
        lex_ascending(p),
        lex_ascending(q),
        p.to_set() == q.to_set(),
    ensures
        p == q,
    decreases p.len(),
{
    if p.len() == 0 {
        if q.len() > 0 {
            assert(q.contains(q[0]));
            assert(p.to_set().contains(q[0]));
        }
        assert(p =~= q);
    } else {
        let m = p.last();
        assert(p.contains(m));
        assert(q.to_set().contains(m));
        assert(q.contains(m));
        let k = choose|k: int| 0 <= k < q.len() && q[k] == m;
        assert(q.contains(q.last()));
        assert(p.to_set().contains(q.last()));
        let k2 = choose|k2: int| 0 <= k2 < p.len() && p[k2] == q.last();
        lemma_lex_irreflexive(m);
        if k < q.len() - 1 {
            assert(lex_lt(q[k], q[q.len() - 1]));
            if k2 < p.len() - 1 {
                assert(lex_lt(p[k2], p[p.len() - 1]));
                lemma_lex_asymmetric(m, q.last());
            }
        }
        assert(q.last() == m);
        let shorter_p = p.drop_last();
        let shorter_q = q.drop_last();
        assert forall|x: Seq<char>| shorter_p.to_set().contains(x) <==> shorter_q.to_set().contains(
            x,
        ) by {
            lemma_lex_irreflexive(x);
            if shorter_p.contains(x) {
                let i = choose|i: int| 0 <= i < shorter_p.len() && shorter_p[i] == x;
                assert(p[i] == x);
                assert(lex_lt(p[i], p[p.len() - 1]));
                assert(p.contains(x));
                assert(q.to_set().contains(x));
                let j = choose|j: int| 0 <= j < q.len() && q[j] == x;
                assert(shorter_q[j] == x);
            }
            if shorter_q.contains(x) {
                let i = choose|i: int| 0 <= i < shorter_q.len() && shorter_q[i] == x;
                assert(q[i] == x);
                assert(lex_lt(q[i], q[q.len() - 1]));
                assert(q.contains(x));
                assert(p.to_set().contains(x));
                let j = choose|j: int| 0 <= j < p.len() && p[j] == x;
                assert(shorter_p[j] == x);
            }
        }
        assert(shorter_p.to_set() =~= shorter_q.to_set());
        lemma_one_lex_order(shorter_p, shorter_q);
        assert(p =~= shorter_p.push(m));
        assert(q =~= shorter_q.push(m));
    }
}

/// The keys of the elements of `s`, in the order of `s`.
pub open spec fn keys_of<T: Keyed>(s: Seq<T>) -> Seq<Seq<char>> {
    Seq::new(s.len(), |i: int| s[i].key_view())
}

/// The keys that `s` holds.
pub open spec fn key_set<T: Keyed>(s: Seq<T>) -> Set<Seq<char>> {
    Set::new(|k: Seq<char>| holds_key(s, k))
}

/// The keys along an ascending sequence are its keys in ascending order.
pub proof fn lemma_keys_in_order<T: Keyed>(s: Seq<T>)
    requires
        ascending(s),
    ensures
        keys_of(s) == in_lex_order(key_set(s)),
        lex_ascending(keys_of(s)),
        keys_of(s).to_set() == key_set(s),
{
    let q = keys_of(s);
    assert forall|i: int, j: int| 0 <= i < j < q.len() implies lex_lt(
        #[trigger] q[i],
        #[trigger] q[j],
    ) by {
        assert(lex_lt(s[i].key_view(), s[j].key_view()));
    }
    assert forall|k: Seq<char>| q.to_set().contains(k) <==> key_set(s).contains(k) by {
        if q.contains(k) {
            let i = choose|i: int| 0 <= i < q.len() && q[i] == k;
            assert(s[i].key_view() == k);
        }
        if holds_key(s, k) {
            let i = position(s, k);
            assert(q[i] == k);
        }
    }
    assert(q.to_set() =~= key_set(s));
    lemma_one_lex_order(in_lex_order(key_set(s)), q);
}

} // verus!
