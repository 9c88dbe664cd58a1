//! Links: how one entity names another without holding it, and sets of
//! them.

use vstd::prelude::*;
use crate::text::{lemma_lex_asymmetric, lemma_lex_irreflexive, lemma_lex_total,
    lemma_lex_transitive, lex_lt, order_of, Order};

verus! {

/// The slug and the name of an entity that another one refers to.
#[derive(Debug, Clone, PartialEq, Eq, PartialOrd, Ord)]
pub struct Link {
    pub slug: String,
    pub name: String,
}

/// A [`Link`] as character sequences.
pub struct LinkView {
    pub slug: Seq<char>,
    pub name: Seq<char>,
}

impl View for Link {
    type V = LinkView;

    open spec fn view(&self) -> LinkView {
        LinkView { slug: self.slug@, name: self.name@ }
    }
}

/// The order of links: by slug, and by name among links of one slug.
pub open spec fn link_lt(a: LinkView, b: LinkView) -> bool {
    lex_lt(a.slug, b.slug) || (a.slug == b.slug && lex_lt(a.name, b.name))
}

/// The order of links is transitive.
pub proof fn lemma_link_transitive(a: LinkView, b: LinkView, c: LinkView)
    requires
        link_lt(a, b),
        link_lt(b, c),
    ensures
        link_lt(a, c),
{
    lemma_lex_irreflexive(a.slug);
    lemma_lex_irreflexive(b.slug);
    if lex_lt(a.slug, b.slug) && lex_lt(b.slug, c.slug) {
        lemma_lex_transitive(a.slug, b.slug, c.slug);
    }
    if a.slug == b.slug && b.slug == c.slug {
        lemma_lex_transitive(a.name, b.name, c.name);
    }
}

/// Any two links are equal or ordered one way round, and never both ways.
pub proof fn lemma_link_total(a: LinkView, b: LinkView)
    ensures
        link_lt(a, b) || a == b || link_lt(b, a),
        !(link_lt(a, b) && link_lt(b, a)),
        !link_lt(a, a),
{
    lemma_lex_total(a.slug, b.slug);
    lemma_lex_total(a.name, b.name);
    lemma_lex_irreflexive(a.slug);
    lemma_lex_irreflexive(a.name);
    if lex_lt(a.slug, b.slug) {
        lemma_lex_asymmetric(a.slug, b.slug);
    }
    if lex_lt(b.slug, a.slug) {
        lemma_lex_asymmetric(b.slug, a.slug);
    }
    if lex_lt(a.name, b.name) {
        lemma_lex_asymmetric(a.name, b.name);
    }
}

impl Link {
    /// Compares two links in the order of [`link_lt`].
    pub fn order(&self, other: &Link) -> (r: Order)
        ensures
            r == Order::Less <==> link_lt(self@, other@),
            r == Order::Equal <==> self@ == other@,
            r == Order::Greater <==> link_lt(other@, self@),
    {
        proof {
            lemma_link_total(self@, other@);
        }
        match order_of(self.slug.as_str(), other.slug.as_str()) {
            Order::Less => Order::Less,
            Order::Greater => Order::Greater,
            Order::Equal => order_of(self.name.as_str(), other.name.as_str()),
        }
    }
}

/// A set of links, kept in ascending order.
#[derive(Debug)]
pub struct LinkSet {
    links: Vec<Link>,
}

/// Links strictly increase along `s`.
pub open spec fn links_ascending(s: Seq<Link>) -> bool {
    forall|i: int, j: int| 0 <= i < j < s.len() ==> link_lt(#[trigger] s[i]@, #[trigger] s[j]@)
}

/// The links that stand in `s`.
pub open spec fn links_of(s: Seq<Link>) -> Set<LinkView> {
    Set::new(|l: LinkView| exists|i: int| 0 <= i < s.len() && #[trigger] s[i]@ == l)
}

proof fn lemma_links_insert(s: Seq<Link>, p: int, x: Link)
    requires
        links_ascending(s),
        0 <= p <= s.len(),
        forall|i: int| 0 <= i < p ==> link_lt(#[trigger] s[i]@, x@),
        forall|i: int| p <= i < s.len() ==> link_lt(x@, #[trigger] s[i]@),
    ensures
        links_ascending(s.insert(p, x)),
        links_of(s.insert(p, x)) == links_of(s).insert(x@),
{
    let t = s.insert(p, x);
    assert forall|i: int, j: int| 0 <= i < j < t.len() implies link_lt(
        #[trigger] t[i]@,
        #[trigger] t[j]@,
    ) by {
        if j < p {
        } else if j == p {
        } else if i < p {
            lemma_link_transitive(s[i]@, x@, s[j - 1]@);
        } else if i == p {
        } else {
            assert(link_lt(s[i - 1]@, s[j - 1]@));
        }
    }
    assert forall|l: LinkView| links_of(t).contains(l) <==> links_of(s).insert(x@).contains(
        l,
    ) by {
        if links_of(t).contains(l) {
            let q = choose|i: int| 0 <= i < t.len() && #[trigger] t[i]@ == l;
            if q < p {
                assert(s[q]@ == l);
            } else if q > p {
                assert(s[q - 1]@ == l);
            }
        }
        if links_of(s).contains(l) {
            let q = choose|i: int| 0 <= i < s.len() && #[trigger] s[i]@ == l;
            if q < p {
                assert(t[q]@ == l);
            } else {
                assert(t[q + 1]@ == l);
            }
        }
        if l == x@ {
            assert(t[p]@ == l);
        }
    }
    assert(links_of(t) =~= links_of(s).insert(x@));
}

impl View for LinkSet {
    type V = Set<LinkView>;

    closed spec fn view(&self) -> Set<LinkView> {
        links_of(self.links@)
    }
}

impl LinkSet {
    #[verifier::type_invariant]
    spec fn well_formed(self) -> bool {
        links_ascending(self.links@)
    }

    /// The links in ascending order.
    pub closed spec fn ranked(&self) -> Seq<LinkView> {
        Seq::new(self.links@.len(), |i: int| self.links@[i]@)
    }

    /// The empty set: it has no member, and no rank is taken.
    pub fn new() -> (s: LinkSet)
        ensures
            s@ == Set::<LinkView>::empty(),
            s.ranked() == Seq::<LinkView>::empty(),
    {
        let s = LinkSet { links: Vec::new() };
        assert(s@ =~= Set::<LinkView>::empty());
        assert(s.ranked() =~= Seq::<LinkView>::empty());
        s
    }

    /// Puts `link` into the set. A link that is in the set already is not
    /// put in again: the result says whether the set grew.
    pub fn insert(&mut self, link: Link) -> (grew: bool)
        ensures
            final(self)@ == old(self)@.insert(link@),
            grew == !old(self)@.contains(link@),
    {
        proof {
            use_type_invariant(&*self);
        }
        let mut lo: usize = 0;
        let mut hi: usize = self.links.len();
        while lo < hi
            invariant
                links_ascending(self.links@),
                0 <= lo <= hi <= self.links.len(),
                forall|i: int| 0 <= i < lo ==> link_lt(#[trigger] self.links@[i]@, link@),
                forall|i: int|
                    hi <= i < self.links.len() ==> !link_lt(#[trigger] self.links@[i]@, link@),
            decreases hi - lo,
        {
            let mid: usize = lo + (hi - lo) / 2;
            let before = self.links[mid].order(&link) == Order::Less;
            if before {
                assert forall|i: int| 0 <= i < mid + 1 implies link_lt(
                    #[trigger] self.links@[i]@,
                    link@,
                ) by {
                    if i < mid {
                        lemma_link_transitive(self.links@[i]@, self.links@[mid as int]@, link@);
                    }
                }
                lo = mid + 1;
            } else {
                assert forall|i: int| mid <= i < self.links.len() implies !link_lt(
                    #[trigger] self.links@[i]@,
                    link@,
                ) by {
                    if i > mid && link_lt(self.links@[i]@, link@) {
                        lemma_link_transitive(self.links@[mid as int]@, self.links@[i]@, link@);
                    }
                }
                hi = mid;
            }
        }
        let held = lo < self.links.len() && self.links[lo].order(&link) == Order::Equal;
        proof {
            let s = self.links@;
            if held {
                assert(s[lo as int]@ == link@);
                assert(self@ =~= self@.insert(link@));
            } else {
                assert forall|i: int| 0 <= i < s.len() implies #[trigger] s[i]@ != link@ by {
                    lemma_link_total(s[i]@, link@);
                    if i > lo {
                        lemma_link_total(s[lo as int]@, link@);
                        lemma_link_transitive(link@, s[lo as int]@, s[i]@);
                    }
                }
                assert forall|i: int| lo <= i < s.len() implies link_lt(link@, #[trigger] s[i]@) by {
                    lemma_link_total(s[i]@, link@);
                }
            }
        }
        if held {
            return false;
        }
        let ghost before = self.links@;
        let mut links: Vec<Link> = Vec::new();
        core::mem::swap(&mut self.links, &mut links);
        links.insert(lo, link);
        proof {
            lemma_links_insert(before, lo as int, link);
        }
        self.links = links;
        true
    }

    /// How many links the set holds. Every link of the set has a rank below
    /// that number.
    pub fn len(&self) -> (n: usize)
        ensures
            n == self.ranked().len(),
            forall|l: LinkView|
                self@.contains(l) ==> exists|i: int| 0 <= i < n && #[trigger] self.ranked()[i] == l,
    {
        proof {
            let r = self.ranked();
            assert forall|l: LinkView| self@.contains(l) implies exists|i: int|
                0 <= i < r.len() && #[trigger] r[i] == l by {
                let q = choose|i: int| 0 <= i < self.links@.len() && #[trigger] self.links@[i]@ == l;
                assert(r[q] == l);
            }
        }
        self.links.len()
    }

    /// The link at rank `i`: a member of the set that comes after the links
    /// of all lower ranks.
    pub fn get(&self, i: usize) -> (r: Option<&Link>)
        ensures
            match r {
                Some(l) => {
                    &&& i < self.ranked().len()
                    &&& self.ranked()[i as int] == l@
                    &&& self@.contains(l@)
                    &&& forall|j: int| 0 <= j < i ==> link_lt(#[trigger] self.ranked()[j], l@)
                },
                None => i >= self.ranked().len(),
            },
    {
        proof {
            use_type_invariant(self);
        }
        if i < self.links.len() {
            proof {
                assert(self.links@[i as int]@ == self.links@[i as int]@);
                let r = self.ranked();
                assert forall|j: int| 0 <= j < i implies link_lt(
                    #[trigger] r[j],
                    self.links@[i as int]@,
                ) by {
                    assert(link_lt(self.links@[j]@, self.links@[i as int]@));
                }
            }
            Some(&self.links[i])
        } else {
            None
        }
    }
}

} // verus!
