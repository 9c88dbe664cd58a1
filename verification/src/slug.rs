//! Slugs: the keys under which makes, generic models and models are filed.

use vstd::prelude::*;
use vstd::std_specs::iter::IteratorSpec;
use vstd::string::group_string_axioms;
use crate::error::{IngestError, IngestErrorView};
use crate::text::{is_ascii_char, lower, to_lower};

verus! {

broadcast use group_string_axioms;

/// What a character of a name becomes in a slug: a space or a slash turns
/// into an underscore, a letter into its lower case.
pub open spec fn slug_char(c: char) -> char {
    if c == ' ' || c == '/' {
        '_'
    } else {
        lower(c)
    }
}

/// One name as it stands in a slug.
pub open spec fn slug_part(name: Seq<char>) -> Seq<char> {
    Seq::new(name.len(), |i: int| slug_char(name[i]))
}

/// The slug of a list of names: each as [`slug_part`] gives it, with an
/// underscore between neighbours.
pub open spec fn slug_of(names: Seq<Seq<char>>) -> Seq<char>
    decreases names.len(),
{
    if names.len() == 0 {
        Seq::empty()
    } else if names.len() == 1 {
        slug_part(names[0])
    } else {
        slug_of(names.drop_last()) + seq!['_'] + slug_part(names.last())
    }
}

/// Every character of every name is ASCII.
pub open spec fn all_ascii(names: Seq<Seq<char>>) -> bool {
    forall|i: int, j: int|
        0 <= i < names.len() && 0 <= j < names[i].len() ==> is_ascii_char(#[trigger] names[i][j])
}

/// The names of a slice as character sequences.
pub open spec fn texts(parts: Seq<&str>) -> Seq<Seq<char>> {
    Seq::new(parts.len(), |i: int| parts[i]@)
}

fn owned(parts: &[&str]) -> (names: Vec<String>)
    ensures
        Seq::new(names@.len(), |i: int| names@[i]@) == texts(parts@),
{
    let mut names: Vec<String> = Vec::new();
    let mut i: usize = 0;
    while i < parts.len()
        invariant
            i <= parts.len(),
            names@.len() == i,
            forall|k: int| 0 <= k < i ==> (#[trigger] names@[k])@ == parts@[k]@,
        decreases parts.len() - i,
    {
        names.push(parts[i].to_owned());
        i += 1;
    }
    assert(Seq::new(names@.len(), |i: int| names@[i]@) =~= texts(parts@));
    names
}

/// Appends the slug form of `name` to `out`, as far as `name` is ASCII.
fn push_slug_part(out: &mut String, name: &str) -> (ascii: bool)
    ensures
        ascii == (forall|j: int| 0 <= j < name@.len() ==> is_ascii_char(#[trigger] name@[j])),
        ascii ==> final(out)@ == old(out)@ + slug_part(name@),
{
    let mut it = name.chars();
    let ghost n: int = 0;
    let mut ascii = true;
    assert(old(out)@ + slug_part(name@.take(0)) =~= old(out)@);
    loop
        invariant_except_break
            0 <= n <= name@.len(),
            it.remaining() == name@.skip(n),
            out@ == old(out)@ + slug_part(name@.take(n)),
            forall|j: int| 0 <= j < n ==> is_ascii_char(#[trigger] name@[j]),
            it.decrease() is Some,
            ascii,
        ensures
            ascii == (forall|j: int| 0 <= j < name@.len() ==> is_ascii_char(#[trigger] name@[j])),
            ascii ==> out@ == old(out)@ + slug_part(name@),
        decreases it.decrease()->0,
    {
        match it.next() {
            Some(c) => {
                assert(c == name@[n]);
                if c > '\x7f' {
                    ascii = false;
                    break;
                }
                let d = if c == ' ' || c == '/' {
                    '_'
                } else {
                    to_lower(c)
                };
                out.push(d);
                proof {
                    assert(name@.skip(n).drop_first() =~= name@.skip(n + 1));
                    assert(slug_part(name@.take(n + 1)) =~= slug_part(name@.take(n)).push(d));
                    assert(out@ =~= old(out)@ + slug_part(name@.take(n + 1)));
                    n = n + 1;
                }
            },
            None => {
                assert(name@.take(n) =~= name@);
                break;
            },
        }
    }
    ascii
}

/// Derives the slug of a list of names. A name with a character outside
/// ASCII has no slug: then the names come back in the error.
pub fn slugify(parts: &[&str]) -> (r: Result<String, IngestError>)
    ensures
        match r {
            Ok(slug) => all_ascii(texts(parts@)) && slug@ == slug_of(texts(parts@)),
            Err(e) => !all_ascii(texts(parts@)) && e@ == IngestErrorView::InvalidCharacter(
                texts(parts@),
            ),
        },
{
    let mut out = String::new();
    let mut i: usize = 0;
    let ghost names = texts(parts@);
    assert(names.take(0) =~= Seq::<Seq<char>>::empty());
    while i < parts.len()
        invariant
            i <= parts.len(),
            names == texts(parts@),
            out@ == slug_of(names.take(i as int)),
            all_ascii(names.take(i as int)),
        decreases parts.len() - i,
    {
        if i > 0 {
            out.push('_');
        }
        let ascii = push_slug_part(&mut out, parts[i]);
        proof {
            assert(names.take(i as int + 1).drop_last() =~= names.take(i as int));
            assert(names.take(i as int + 1).last() == parts@[i as int]@);
        }
        if !ascii {
            proof {
                let j = choose|j: int|
                    0 <= j < parts@[i as int]@.len() && !is_ascii_char(
                        #[trigger] parts@[i as int]@[j],
                    );
                assert(!is_ascii_char(names[i as int][j]));
            }
            return Err(IngestError::InvalidCharacter(owned(parts)));
        }
        proof {
            let next = names.take(i as int + 1);
            assert forall|a: int, b: int|
                0 <= a < next.len() && 0 <= b < next[a].len() implies is_ascii_char(
                #[trigger] next[a][b],
            ) by {
                if a < i {
                    assert(names.take(i as int)[a][b] == next[a][b]);
                }
            }
            if i == 0 {
                assert(out@ =~= slug_part(names[0]));
            }
        }
        i += 1;
    }
    proof {
        assert(names.take(i as int) =~= names);
    }
    Ok(out)
}

/// The slug of a make's name and a second name: the two parts with an
/// underscore between them.
pub proof fn lemma_slug_pair(make: Seq<char>, name: Seq<char>)
    ensures
        slug_of(seq![make]) == slug_part(make),
        slug_of(seq![make, name]) == slug_part(make) + seq!['_'] + slug_part(name),
{
    let pair = seq![make, name];
    assert(seq![make].len() == 1 && seq![make][0] == make);
    assert(slug_of(seq![make]) == slug_part(make));
    assert(pair.len() == 2);
    assert(pair.drop_last() =~= seq![make]);
    assert(pair.last() == name);
}

/// Names that differ only by case, or by a space or a slash standing for an
/// underscore, have one slug; names that differ in any other way have two.
pub proof fn lemma_slug_part_injective(a: Seq<char>, b: Seq<char>)
    ensures
        slug_part(a) == slug_part(b) <==> (a.len() == b.len() && forall|i: int|
            0 <= i < a.len() ==> slug_char(#[trigger] a[i]) == slug_char(b[i])),
{
    if slug_part(a) == slug_part(b) {
        assert(a.len() == slug_part(a).len());
        assert forall|i: int| 0 <= i < a.len() implies slug_char(#[trigger] a[i]) == slug_char(
            b[i],
        ) by {
            assert(slug_part(a)[i] == slug_part(b)[i]);
        }
    }
    if a.len() == b.len() && (forall|i: int|
        0 <= i < a.len() ==> slug_char(#[trigger] a[i]) == slug_char(b[i])) {
        assert(slug_part(a) =~= slug_part(b));
    }
}

/// One name under two makes: the slugs agree only where the makes' own
/// slugs do. So a generic model or a model never shares its slug with one
/// of the same name under a make with another slug.
pub proof fn lemma_slug_tells_makes_apart(make_a: Seq<char>, make_b: Seq<char>, name: Seq<char>)
    requires
        slug_of(seq![make_a, name]) == slug_of(seq![make_b, name]),
    ensures
        slug_of(seq![make_a]) == slug_of(seq![make_b]),
{
    lemma_slug_pair(make_a, name);
    lemma_slug_pair(make_b, name);
    let x = slug_of(seq![make_a, name]);
    let n = slug_part(make_a).len() as int;
    assert(slug_part(make_b).len() == n) by {
        assert(x.len() == n + 1 + slug_part(name).len());
        assert(x.len() == slug_part(make_b).len() + 1 + slug_part(name).len());
    }
    assert(slug_part(make_a) =~= x.subrange(0, n));
    assert(slug_part(make_b) =~= x.subrange(0, n));
}

/// Two names under one make: the slugs agree only where the names' own slug
/// forms do.
pub proof fn lemma_slug_tells_names_apart(make: Seq<char>, name_a: Seq<char>, name_b: Seq<char>)
    requires
        slug_of(seq![make, name_a]) == slug_of(seq![make, name_b]),
    ensures
        slug_part(name_a) == slug_part(name_b),
{
    lemma_slug_pair(make, name_a);
    lemma_slug_pair(make, name_b);
    let x = slug_of(seq![make, name_a]);
    let n = slug_part(make).len() as int + 1;
    assert(slug_part(name_a) =~= x.subrange(n, x.len() as int));
    assert(slug_part(name_b) =~= x.subrange(n, x.len() as int));
}

/// No character of the name turns into an underscore: it holds no space,
/// no slash and no underscore.
pub open spec fn plain(name: Seq<char>) -> bool {
    forall|j: int| 0 <= j < name.len() ==> slug_char(#[trigger] name[j]) != '_'
}

/// Among lists of equally many plain names the slug tells every position
/// apart: equal slugs come only from names whose slug forms agree one by
/// one.
pub proof fn lemma_slug_injective(a: Seq<Seq<char>>, b: Seq<Seq<char>>)
    requires
        a.len() == b.len(),
        forall|i: int| 0 <= i < a.len() ==> plain(#[trigger] a[i]),
        forall|i: int| 0 <= i < b.len() ==> plain(#[trigger] b[i]),
        slug_of(a) == slug_of(b),
    ensures
        forall|i: int| 0 <= i < a.len() ==> slug_part(#[trigger] a[i]) == slug_part(b[i]),
    decreases a.len(),
{
    if a.len() <= 1 {
    } else {
        let x = slug_of(a);
        let pa = slug_part(a.last());
        let pb = slug_part(b.last());
        let ha = slug_of(a.drop_last());
        let hb = slug_of(b.drop_last());
        assert(x == ha + seq!['_'] + pa);
        assert(x == hb + seq!['_'] + pb);
        assert(plain(a.last()));
        assert(plain(b.last()));
        if pa.len() < pb.len() {
            let k = x.len() - pa.len() - 1;
            assert(x[k] == '_');
            assert(x[k] == pb[k - hb.len() - 1]);
            assert(pb[k - hb.len() - 1] == slug_char(b.last()[k - hb.len() - 1]));
        }
        if pb.len() < pa.len() {
            let k = x.len() - pb.len() - 1;
            assert(x[k] == '_');
            assert(x[k] == pa[k - ha.len() - 1]);
            assert(pa[k - ha.len() - 1] == slug_char(a.last()[k - ha.len() - 1]));
        }
        let xa = ha + seq!['_'] + pa;
        let xb = hb + seq!['_'] + pb;
        assert(pa =~= xa.subrange(xa.len() - pa.len(), xa.len() as int));
        assert(pb =~= xb.subrange(xb.len() - pb.len(), xb.len() as int));
        assert(ha =~= xa.subrange(0, ha.len() as int));
        assert(hb =~= xb.subrange(0, hb.len() as int));
        assert forall|i: int| 0 <= i < a.drop_last().len() implies plain(
            #[trigger] a.drop_last()[i],
        ) by {
            assert(a.drop_last()[i] == a[i]);
        }
        assert forall|i: int| 0 <= i < b.drop_last().len() implies plain(
            #[trigger] b.drop_last()[i],
        ) by {
            assert(b.drop_last()[i] == b[i]);
        }
        lemma_slug_injective(a.drop_last(), b.drop_last());
        assert forall|i: int| 0 <= i < a.len() implies slug_part(#[trigger] a[i]) == slug_part(
            b[i],
        ) by {
            if i < a.len() - 1 {
                assert(a.drop_last()[i] == a[i]);
                assert(b.drop_last()[i] == b[i]);
            }
        }
    }
}

} // verus!
