//! Sets of model ids, read in ascending order.

use std::collections::BTreeSet;
use vstd::prelude::*;
use vstd::laws_cmp::group_laws_cmp;
use vstd::std_specs::btree::{axiom_increasing_seq_meaning, group_btree_axioms, increasing_seq};
use vstd::std_specs::cmp::OrdSpec;
use vstd::std_specs::iter::IteratorSpec;

verus! {

/// The ids strictly increase along `q`.
pub open spec fn increasing(q: Seq<usize>) -> bool {
    forall|i: int, j: int| 0 <= i < j < q.len() ==> q[i] < q[j]
}

/// The members of a finite set of ids in ascending order.
pub open spec fn in_order(s: Set<usize>) -> Seq<usize> {
    choose|q: Seq<usize>| increasing(q) && q.to_set() == s
}

/// A set has one ascending arrangement at most.
pub proof fn lemma_one_order(p: Seq<usize>, q: Seq<usize>)
    requires
        increasing(p),
        increasing(q),
        p.to_set() == q.to_set(),
    ensures
        p == q,
    decreases p.len(),
{
    if p.len() == 0 {
        if q.len() > 0 {
            assert(q.contains(q[0]));
            assert(p.to_set().contains(q[0]));
        }
        assert(p =~= q);
    } else {
        let m = p.last();
        assert(p.contains(m));
        assert(q.to_set().contains(m));
        assert(q.contains(m));
        let k = choose|k: int| 0 <= k < q.len() && q[k] == m;
        assert(q.contains(q.last()));
        assert(p.to_set().contains(q.last()));
        let k2 = choose|k2: int| 0 <= k2 < p.len() && p[k2] == q.last();
        assert(q.last() == m);
        let shorter_p = p.drop_last();
        let shorter_q = q.drop_last();
        assert forall|x: usize| shorter_p.to_set().contains(x) <==> shorter_q.to_set().contains(x) by {
            if shorter_p.contains(x) {
                let i = choose|i: int| 0 <= i < shorter_p.len() && shorter_p[i] == x;
                assert(p[i] == x);
                assert(p.contains(x));
                assert(q.to_set().contains(x));
                let j = choose|j: int| 0 <= j < q.len() && q[j] == x;
                assert(shorter_q[j] == x);
            }
            if shorter_q.contains(x) {
                let i = choose|i: int| 0 <= i < shorter_q.len() && shorter_q[i] == x;
                assert(q[i] == x);
                assert(q.contains(x));
                assert(p.to_set().contains(x));
                let j = choose|j: int| 0 <= j < p.len() && p[j] == x;
                assert(shorter_p[j] == x);
            }
        }
        assert(shorter_p.to_set() =~= shorter_q.to_set());
        lemma_one_order(shorter_p, shorter_q);
        assert(p =~= shorter_p.push(m));
        assert(q =~= shorter_q.push(m));
    }
}

/// An ascending arrangement of a set is its [`in_order`].
pub proof fn lemma_in_order(s: Set<usize>, q: Seq<usize>)
    requires
        increasing(q),
        q.to_set() == s,
    ensures
        in_order(s) == q,
{
    lemma_one_order(in_order(s), q);
}

proof fn lemma_walk_increasing(q: Seq<&usize>)
    requires
        increasing_seq(q),
    ensures
        increasing(q.unref()),
{
    broadcast use group_laws_cmp;

    axiom_increasing_seq_meaning::<&usize>(q);
    assert forall|i: int, j: int| 0 <= i < j < q.len() implies q.unref()[i] < q.unref()[j] by {
        assert((&q[i]).cmp_spec(&q[j]) is Less);
    }
}

/// The ids of a set in ascending order.
pub fn ids_in_order(set: &BTreeSet<usize>) -> (out: Vec<usize>)
    ensures
        out@ == in_order(set@),
        increasing(out@),
        out@.to_set() == set@,
{
    broadcast use {group_btree_axioms, group_laws_cmp};

    let mut out: Vec<usize> = Vec::new();
    let ghost all = set.iter().remaining();
    for x in it: set.iter()
        invariant
            it.seq() == all,
            out@.len() == it.index(),
            forall|k: int| 0 <= k < out@.len() ==> out@[k] == *all[k],
    {
        out.push(*x);
    }
    proof {
        assert(out@ =~= all.unref());
        lemma_walk_increasing(all);
        lemma_in_order(set@, out@);
    }
    out
}

/// Puts `id` into the set; the result says whether the set grew.
pub fn add_id(set: &mut BTreeSet<usize>, id: usize) -> (grew: bool)
    ensures
        final(set)@ == old(set)@.insert(id),
        grew == !old(set)@.contains(id),
{
    broadcast use group_laws_cmp;

    set.insert(id)
}

} // verus!
