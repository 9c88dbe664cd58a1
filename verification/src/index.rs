//! The index: makes, generic models and models by slug, and the search
//! structures that follow from the models.

use vstd::prelude::*;
use crate::dft::{HasIdentity, IdentityView, VehicleIdentity, Veh0120, Veh0124, Veh0160, Veh0220};
use crate::entity::{full_name, GenericModel, GenericModelView, Make, MakeView, Model, ModelView};
use crate::error::{IngestError, IngestErrorView};
use crate::link::LinkView;
use crate::ordered::{ascending, find, lemma_view_map_at, lemma_view_map_insert,
    lemma_view_map_update, view_map, Keyed};
use crate::phonetic::{codes_of, phonetic_codes};
use crate::rules::{MergeRule, Veh0120Gb, Veh0120Uk, Veh0124Years, Veh0160Gb, Veh0160Uk,
    Veh0220Engines};
use crate::search::{ids_under, with_codes, with_id, KeywordIndex, PhoneticIndex};
use crate::slug::{all_ascii, slug_of, slugify, texts};
use crate::stats::empty_stats;
use crate::words::keywords;

verus! {

/// The entities of an index by slug, and the slugs of its models in the
/// order in which the models were created.
pub struct IndexView {
    pub makes: Map<Seq<char>, MakeView>,
    pub generic_models: Map<Seq<char>, GenericModelView>,
    pub models: Map<Seq<char>, ModelView>,
    pub created: Seq<Seq<char>>,
}

/// The slug of the make that a row names.
pub open spec fn make_slug(id: IdentityView) -> Seq<char> {
    slug_of(seq![id.make])
}

/// The slug of the generic model that a row names: it takes in the name of
/// the make.
pub open spec fn generic_model_slug(id: IdentityView) -> Seq<char> {
    slug_of(seq![id.make, id.generic_model])
}

/// The slug of the model that a row names: it takes in the name of the
/// make.
pub open spec fn model_slug(id: IdentityView) -> Seq<char> {
    slug_of(seq![id.make, id.model])
}

/// A make as it is created.
pub open spec fn fresh_make(name: Seq<char>, slug: Seq<char>) -> MakeView {
    MakeView { name, slug, generic_models: Set::empty(), stats: empty_stats() }
}

/// A generic model as it is created under a make.
pub open spec fn fresh_generic_model(make: MakeView, name: Seq<char>, slug: Seq<char>)
    -> GenericModelView {
    GenericModelView {
        name,
        slug,
        make: LinkView { slug: make.slug, name: make.name },
        models: Set::empty(),
        stats: empty_stats(),
    }
}

/// A model as it is created under a make and a generic model.
pub open spec fn fresh_model(
    make: MakeView,
    generic_model: GenericModelView,
    name: Seq<char>,
    slug: Seq<char>,
    index: usize,
) -> ModelView {
    ModelView {
        name,
        slug,
        make: LinkView { slug: make.slug, name: make.name },
        generic_model: LinkView { slug: generic_model.slug, name: generic_model.name },
        stats: empty_stats(),
        index,
    }
}

/// The make of a row: the one on file under its slug, or a new one.
pub open spec fn make_found(v: IndexView, id: IdentityView) -> MakeView {
    if v.makes.contains_key(make_slug(id)) {
        v.makes[make_slug(id)]
    } else {
        fresh_make(id.make, make_slug(id))
    }
}

/// The generic model of a row: the one on file under its slug, or a new
/// one.
pub open spec fn generic_model_found(v: IndexView, id: IdentityView) -> GenericModelView {
    if v.generic_models.contains_key(generic_model_slug(id)) {
        v.generic_models[generic_model_slug(id)]
    } else {
        fresh_generic_model(make_found(v, id), id.generic_model, generic_model_slug(id))
    }
}

/// The model of a row: the one on file under its slug, or a new one, whose
/// index is the number of models created so far.
pub open spec fn model_found(v: IndexView, id: IdentityView) -> ModelView {
    if v.models.contains_key(model_slug(id)) {
        v.models[model_slug(id)]
    } else {
        fresh_model(
            make_found(v, id),
            generic_model_found(v, id),
            id.model,
            model_slug(id),
            v.created.len() as usize,
        )
    }
}

/// The index after the three entities of a row were found or created and
/// linked: the generic model under the make, the model under the generic
/// model.
pub open spec fn filed(v: IndexView, id: IdentityView) -> IndexView {
    let make = make_found(v, id);
    let generic_model = generic_model_found(v, id);
    let model = model_found(v, id);
    IndexView {
        makes: v.makes.insert(
            make_slug(id),
            MakeView {
                generic_models: make.generic_models.insert(
                    LinkView { slug: generic_model.slug, name: generic_model.name },
                ),
                ..make
            },
        ),
        generic_models: v.generic_models.insert(
            generic_model_slug(id),
            GenericModelView {
                models: generic_model.models.insert(
                    LinkView { slug: model.slug, name: model.name },
                ),
                ..generic_model
            },
        ),
        models: v.models.insert(model_slug(id), model),
        created: if v.models.contains_key(model_slug(id)) {
            v.created
        } else {
            v.created.push(model_slug(id))
        },
    }
}

/// The index after a row was merged into the statistics of its make, then
/// of its generic model, then of its model, and whether every count
/// fitted. A level is reached only if all counts fitted on the levels
/// before it.
pub open spec fn merged_all<R, M: MergeRule<R>>(
    v: IndexView,
    id: IdentityView,
    rule: &M,
    row: &R,
) -> (IndexView, bool) {
    let make = v.makes[make_slug(id)];
    let generic_model = v.generic_models[generic_model_slug(id)];
    let model = v.models[model_slug(id)];
    let a = rule.merged(make.stats, row);
    let b = rule.merged(generic_model.stats, row);
    let c = rule.merged(model.stats, row);
    (
        IndexView {
            makes: v.makes.insert(make_slug(id), MakeView { stats: a.0, ..make }),
            generic_models: if a.1 {
                v.generic_models.insert(
                    generic_model_slug(id),
                    GenericModelView { stats: b.0, ..generic_model },
                )
            } else {
                v.generic_models
            },
            models: if a.1 && b.1 {
                v.models.insert(model_slug(id), ModelView { stats: c.0, ..model })
            } else {
                v.models
            },
            created: v.created,
        },
        a.1 && b.1 && c.1,
    )
}

/// The names of a row of which a slug cannot be made: those of the first
/// slug that fails, the make's, then the generic model's, then the
/// model's.
pub open spec fn rejected_names(id: IdentityView) -> Option<Seq<Seq<char>>> {
    if !all_ascii(seq![id.make]) {
        Some(seq![id.make])
    } else if !all_ascii(seq![id.make, id.generic_model]) {
        Some(seq![id.make, id.generic_model])
    } else if !all_ascii(seq![id.make, id.model]) {
        Some(seq![id.make, id.model])
    } else {
        None
    }
}

/// The index after a row was taken in, and the error if there was one. A
/// row with a name outside ASCII changes nothing.
pub open spec fn inserted<R, M: MergeRule<R>>(
    v: IndexView,
    id: IdentityView,
    rule: &M,
    row: &R,
) -> (IndexView, Option<IngestErrorView>) {
    match rejected_names(id) {
        Some(names) => (v, Some(IngestErrorView::InvalidCharacter(names))),
        None => {
            let m = merged_all(filed(v, id), id, rule, row);
            (
                m.0,
                if m.1 {
                    None
                } else {
                    Some(IngestErrorView::CountOverflow)
                },
            )
        },
    }
}

/// `l` names a make of the index.
pub open spec fn names_make(v: IndexView, l: LinkView) -> bool {
    v.makes.contains_key(l.slug) && v.makes[l.slug].name == l.name
}

/// `l` names a generic model of the index.
pub open spec fn names_generic_model(v: IndexView, l: LinkView) -> bool {
    v.generic_models.contains_key(l.slug) && v.generic_models[l.slug].name == l.name
}

/// `l` names a model of the index.
pub open spec fn names_model(v: IndexView, l: LinkView) -> bool {
    v.models.contains_key(l.slug) && v.models[l.slug].name == l.name
}

/// Every entity is filed under its own slug.
pub open spec fn keyed(v: IndexView) -> bool {
    &&& forall|k: Seq<char>| #[trigger] v.makes.contains_key(k) ==> v.makes[k].slug == k
    &&& forall|k: Seq<char>|
        #[trigger] v.generic_models.contains_key(k) ==> v.generic_models[k].slug == k
    &&& forall|k: Seq<char>| #[trigger] v.models.contains_key(k) ==> v.models[k].slug == k
}

/// Every link of every entity names an entity of the index.
pub open spec fn linked(v: IndexView) -> bool {
    &&& forall|k: Seq<char>, l: LinkView|
        v.makes.contains_key(k) && #[trigger] v.makes[k].generic_models.contains(l)
            ==> names_generic_model(v, l)
    &&& forall|k: Seq<char>| #[trigger]
        v.generic_models.contains_key(k) ==> names_make(v, v.generic_models[k].make)
    &&& forall|k: Seq<char>, l: LinkView|
        v.generic_models.contains_key(k) && #[trigger] v.generic_models[k].models.contains(l)
            ==> names_model(v, l)
    &&& forall|k: Seq<char>| #[trigger]
        v.models.contains_key(k) ==> names_make(v, v.models[k].make) && names_generic_model(
            v,
            v.models[k].generic_model,
        )
}

/// The models are numbered in the order of their creation: the model
/// created as the `i`-th has the index `i`, and every model is one of
/// them.
pub open spec fn numbered(v: IndexView) -> bool {
    &&& forall|i: int|
        0 <= i < v.created.len() ==> v.models.contains_key(#[trigger] v.created[i])
            && v.models[v.created[i]].index == i
    &&& forall|k: Seq<char>| #[trigger]
        v.models.contains_key(k) ==> v.models[k].index < v.created.len()
            && v.created[v.models[k].index as int] == k
}

/// What holds of every index between two rows.
pub open spec fn consistent(v: IndexView) -> bool {
    keyed(v) && linked(v) && numbered(v)
}

/// The index without any entity.
pub open spec fn empty_index() -> IndexView {
    IndexView {
        makes: Map::empty(),
        generic_models: Map::empty(),
        models: Map::empty(),
        created: Seq::empty(),
    }
}

fn file_make(makes: &mut Vec<Make>, name: &str, slug: &str) -> (i: usize)
    requires
        ascending(old(makes)@),
    ensures
        ascending(final(makes)@),
        i < final(makes)@.len(),
        final(makes)@[i as int].slug@ == slug@,
        view_map(final(makes)@) == (if view_map(old(makes)@).contains_key(slug@) {
            view_map(old(makes)@)
        } else {
            view_map(old(makes)@).insert(slug@, fresh_make(name@, slug@))
        }),
        view_map(final(makes)@).contains_key(slug@),
        view_map(final(makes)@)[slug@] == final(makes)@[i as int]@,
{
    let (p, found) = find(makes, slug);
    if !found {
        let m = Make::new(name, slug);
        proof {
            lemma_view_map_insert(makes@, p as int, m);
        }
        makes.insert(p, m);
    }
    proof {
        lemma_view_map_at(makes@, p as int);
    }
    p
}

fn file_generic_model(list: &mut Vec<GenericModel>, make: &Make, name: &str, slug: &str) -> (i:
    usize)
    requires
        ascending(old(list)@),
    ensures
        ascending(final(list)@),
        i < final(list)@.len(),
        final(list)@[i as int].slug@ == slug@,
        view_map(final(list)@) == (if view_map(old(list)@).contains_key(slug@) {
            view_map(old(list)@)
        } else {
            view_map(old(list)@).insert(slug@, fresh_generic_model(make@, name@, slug@))
        }),
        view_map(final(list)@).contains_key(slug@),
        view_map(final(list)@)[slug@] == final(list)@[i as int]@,
{
    let (p, found) = find(list, slug);
    if !found {
        let g = GenericModel::new(make, name, slug);
        proof {
            lemma_view_map_insert(list@, p as int, g);
        }
        list.insert(p, g);
    }
    proof {
        lemma_view_map_at(list@, p as int);
    }
    p
}

fn file_model(
    list: &mut Vec<Model>,
    make: &Make,
    generic_model: &GenericModel,
    name: &str,
    slug: &str,
) -> (r: (usize, bool))
    requires
        ascending(old(list)@),
    ensures
        ascending(final(list)@),
        r.0 < final(list)@.len(),
        final(list)@[r.0 as int].slug@ == slug@,
        r.1 == !view_map(old(list)@).contains_key(slug@),
        final(list)@.len() == old(list)@.len() + if r.1 { 1int } else { 0 },
        view_map(final(list)@) == (if r.1 {
            view_map(old(list)@).insert(
                slug@,
                fresh_model(make@, generic_model@, name@, slug@, old(list)@.len() as usize),
            )
        } else {
            view_map(old(list)@)
        }),
        view_map(final(list)@).contains_key(slug@),
        view_map(final(list)@)[slug@] == final(list)@[r.0 as int]@,
{
    let (p, found) = find(list, slug);
    if !found {
        let m = Model::new(make, generic_model, name, slug, list.len());
        proof {
            lemma_view_map_insert(list@, p as int, m);
        }
        list.insert(p, m);
    }
    proof {
        lemma_view_map_at(list@, p as int);
    }
    (p, !found)
}

/// The keywords of all models.
pub open spec fn all_keywords(models: Map<Seq<char>, ModelView>) -> Set<Seq<char>> {
    Set::new(
        |w: Seq<char>|
            exists|k: Seq<char>| #[trigger]
                models.contains_key(k) && keywords(full_name(models[k])).contains(w),
    )
}

/// From every keyword to the indices of the models whose full name holds
/// it.
pub open spec fn keyword_map(models: Map<Seq<char>, ModelView>) -> Map<Seq<char>, Set<usize>> {
    Map::new(
        |w: Seq<char>| all_keywords(models).contains(w),
        |w: Seq<char>|
            Set::new(
                |id: usize|
                    exists|k: Seq<char>| #[trigger]
                        models.contains_key(k) && models[k].index == id && keywords(
                            full_name(models[k]),
                        ).contains(w),
            ),
    )
}

/// `code` is the primary or the alternate code of `word`.
pub open spec fn sounds_like(word: Seq<char>, code: Seq<char>) -> bool {
    match codes_of(word) {
        Some((primary, alternate)) => code == primary || code == alternate,
        None => false,
    }
}

/// From every phonetic code to the words among `words` that have it.
pub open spec fn sound_map(words: Set<Seq<char>>) -> Map<Seq<char>, Set<Seq<char>>> {
    Map::new(
        |c: Seq<char>| exists|w: Seq<char>| words.contains(w) && #[trigger] sounds_like(w, c),
        |c: Seq<char>| Set::new(|w: Seq<char>| words.contains(w) && sounds_like(w, c)),
    )
}

/// The keyword map with `id` filed under every word of `words`.
pub open spec fn with_ids(m: Map<Seq<char>, Set<usize>>, words: Set<Seq<char>>, id: usize) -> Map<
    Seq<char>,
    Set<usize>,
> {
    Map::new(
        |w: Seq<char>| m.contains_key(w) || words.contains(w),
        |w: Seq<char>|
            if words.contains(w) {
                ids_under(m, w).insert(id)
            } else {
                m[w]
            },
    )
}

proof fn lemma_with_id_step(
    m: Map<Seq<char>, Set<usize>>,
    words: Set<Seq<char>>,
    word: Seq<char>,
    id: usize,
)
    ensures
        with_id(with_ids(m, words, id), word, id) == with_ids(m, words.insert(word), id),
{
    let a = with_id(with_ids(m, words, id), word, id);
    let b = with_ids(m, words.insert(word), id);
    assert forall|w: Seq<char>| a.contains_key(w) implies a[w] =~= b[w] by {}
    assert(a =~~= b);
}

proof fn lemma_sound_step(known: Set<Seq<char>>, word: Seq<char>)
    ensures
        with_codes(sound_map(known), word, codes_of(word)) == sound_map(known.insert(word)),
{
    let a = with_codes(sound_map(known), word, codes_of(word));
    let b = sound_map(known.insert(word));
    assert forall|c: Seq<char>| a.contains_key(c) <==> b.contains_key(c) by {
        if a.contains_key(c) {
            if sound_map(known).contains_key(c) {
                let w = choose|w: Seq<char>| known.contains(w) && #[trigger] sounds_like(w, c);
                assert(known.insert(word).contains(w) && sounds_like(w, c));
            } else {
                assert(known.insert(word).contains(word) && sounds_like(word, c));
            }
        }
        if b.contains_key(c) {
            let w = choose|w: Seq<char>|
                known.insert(word).contains(w) && #[trigger] sounds_like(w, c);
            if w != word {
                assert(known.contains(w) && sounds_like(w, c));
            }
        }
    }
    assert forall|c: Seq<char>| a.contains_key(c) implies a[c] =~= b[c] by {}
    assert(a =~~= b);
}

/// Where the models keep their names and indices and one model is added or
/// stays, the keyword map gains that model's index under each of its
/// keywords, and nothing else.
proof fn lemma_search_grows(
    before: Map<Seq<char>, ModelView>,
    after: Map<Seq<char>, ModelView>,
    slug: Seq<char>,
)
    requires
        after.dom() =~= before.dom().insert(slug),
        forall|k: Seq<char>| #[trigger]
            before.contains_key(k) ==> full_name(after[k]) == full_name(before[k])
                && after[k].index == before[k].index,
    ensures
        all_keywords(after) == all_keywords(before).union(keywords(full_name(after[slug]))),
        keyword_map(after) == with_ids(
            keyword_map(before),
            keywords(full_name(after[slug])),
            after[slug].index,
        ),
{
    let mine = keywords(full_name(after[slug]));
    let id = after[slug].index;
    assert(after.contains_key(slug));
    assert forall|w: Seq<char>| all_keywords(after).contains(w) <==> all_keywords(before).union(
        mine,
    ).contains(w) by {
        if all_keywords(after).contains(w) {
            let k = choose|k: Seq<char>| #[trigger]
                after.contains_key(k) && keywords(full_name(after[k])).contains(w);
            if k != slug {
                assert(before.contains_key(k));
            }
        }
        if all_keywords(before).contains(w) {
            let k = choose|k: Seq<char>| #[trigger]
                before.contains_key(k) && keywords(full_name(before[k])).contains(w);
            assert(after.contains_key(k));
        }
    }
    assert(all_keywords(after) =~= all_keywords(before).union(mine));
    let a = keyword_map(after);
    let b = with_ids(keyword_map(before), mine, id);
    assert forall|w: Seq<char>| a.contains_key(w) implies a[w] =~= b[w] by {
        assert forall|i: usize| a[w].contains(i) <==> b[w].contains(i) by {
            if a[w].contains(i) {
                let k = choose|k: Seq<char>| #[trigger]
                    after.contains_key(k) && after[k].index == i && keywords(
                        full_name(after[k]),
                    ).contains(w);
                if k != slug {
                    assert(before.contains_key(k));
                }
            }
            if b[w].contains(i) {
                if mine.contains(w) && i == id {
                    assert(after.contains_key(slug));
                } else {
                    let k = choose|k: Seq<char>| #[trigger]
                        before.contains_key(k) && before[k].index == i && keywords(
                            full_name(before[k]),
                        ).contains(w);
                    assert(after.contains_key(k));
                }
            }
        }
    }
    assert(a =~~= b);
}

/// Filing the entities of a row keeps an index consistent.
pub proof fn lemma_filed_consistent(v: IndexView, id: IdentityView)
    requires
        consistent(v),
        v.created.len() <= usize::MAX,
    ensures
        consistent(filed(v, id)),
{
    let f = filed(v, id);
    let make = make_found(v, id);
    let generic_model = generic_model_found(v, id);
    let model = model_found(v, id);
    assert(make.slug == make_slug(id));
    assert(generic_model.slug == generic_model_slug(id));
    assert(model.slug == model_slug(id));
    assert(names_make(f, LinkView { slug: make.slug, name: make.name }));
    assert(names_generic_model(f, LinkView { slug: generic_model.slug, name: generic_model.name }));
    assert(names_model(f, LinkView { slug: model.slug, name: model.name }));
    assert forall|l: LinkView| names_make(v, l) implies names_make(f, l) by {}
    assert forall|l: LinkView| names_generic_model(v, l) implies names_generic_model(f, l) by {}
    assert forall|l: LinkView| names_model(v, l) implies names_model(f, l) by {}
    assert(keyed(f));
    assert forall|k: Seq<char>, l: LinkView|
        f.makes.contains_key(k) && #[trigger] f.makes[k].generic_models.contains(
            l,
        ) implies names_generic_model(f, l) by {
        if k == make_slug(id) {
            if l != (LinkView { slug: generic_model.slug, name: generic_model.name }) {
                assert(make.generic_models.contains(l));
                assert(v.makes.contains_key(k) && v.makes[k].generic_models.contains(l));
            }
        } else {
            assert(v.makes.contains_key(k) && v.makes[k].generic_models.contains(l));
        }
    }
    assert forall|k: Seq<char>| #[trigger] f.generic_models.contains_key(k) implies names_make(
        f,
        f.generic_models[k].make,
    ) by {
        if k == generic_model_slug(id) {
            if v.generic_models.contains_key(k) {
                assert(names_make(v, v.generic_models[k].make));
            }
        } else {
            assert(v.generic_models.contains_key(k));
            assert(names_make(v, v.generic_models[k].make));
        }
    }
    assert forall|k: Seq<char>, l: LinkView|
        f.generic_models.contains_key(k) && #[trigger] f.generic_models[k].models.contains(
            l,
        ) implies names_model(f, l) by {
        if k == generic_model_slug(id) {
            if l != (LinkView { slug: model.slug, name: model.name }) {
                assert(generic_model.models.contains(l));
                assert(v.generic_models.contains_key(k) && v.generic_models[k].models.contains(l));
            }
        } else {
            assert(v.generic_models.contains_key(k) && v.generic_models[k].models.contains(l));
        }
    }
    assert forall|k: Seq<char>| #[trigger] f.models.contains_key(k) implies names_make(
        f,
        f.models[k].make,
    ) && names_generic_model(f, f.models[k].generic_model) by {
        if k == model_slug(id) {
            if v.models.contains_key(k) {
                assert(names_make(v, v.models[k].make));
                assert(names_generic_model(v, v.models[k].generic_model));
            }
        } else {
            assert(v.models.contains_key(k));
            assert(names_make(v, v.models[k].make));
            assert(names_generic_model(v, v.models[k].generic_model));
        }
    }
    assert(linked(f));
    assert forall|i: int| 0 <= i < f.created.len() implies f.models.contains_key(
        #[trigger] f.created[i],
    ) && f.models[f.created[i]].index == i by {
        if i < v.created.len() {
            assert(v.models.contains_key(v.created[i]));
        }
    }
    assert forall|k: Seq<char>| #[trigger] f.models.contains_key(k) implies f.models[k].index
        < f.created.len() && f.created[f.models[k].index as int] == k by {
        if v.models.contains_key(k) {
            assert(v.created[v.models[k].index as int] == k);
        }
    }
}

/// Merging a row into the statistics keeps an index consistent.
pub proof fn lemma_merged_consistent<R, M: MergeRule<R>>(
    v: IndexView,
    id: IdentityView,
    rule: &M,
    row: &R,
)
    requires
        consistent(v),
        v.makes.contains_key(make_slug(id)),
        v.generic_models.contains_key(generic_model_slug(id)),
        v.models.contains_key(model_slug(id)),
    ensures
        consistent(merged_all(v, id, rule, row).0),
{
    let f = merged_all(v, id, rule, row).0;
    assert forall|l: LinkView| names_make(v, l) implies names_make(f, l) by {}
    assert forall|l: LinkView| names_generic_model(v, l) implies names_generic_model(f, l) by {}
    assert forall|l: LinkView| names_model(v, l) implies names_model(f, l) by {}
    assert(keyed(f));
    assert forall|k: Seq<char>, l: LinkView|
        f.makes.contains_key(k) && #[trigger] f.makes[k].generic_models.contains(
            l,
        ) implies names_generic_model(f, l) by {
        assert(v.makes.contains_key(k) && v.makes[k].generic_models.contains(l));
    }
    assert forall|k: Seq<char>| #[trigger] f.generic_models.contains_key(k) implies names_make(
        f,
        f.generic_models[k].make,
    ) by {
        assert(v.generic_models.contains_key(k));
        assert(names_make(v, v.generic_models[k].make));
    }
    assert forall|k: Seq<char>, l: LinkView|
        f.generic_models.contains_key(k) && #[trigger] f.generic_models[k].models.contains(
            l,
        ) implies names_model(f, l) by {
        assert(v.generic_models.contains_key(k) && v.generic_models[k].models.contains(l));
    }
    assert forall|k: Seq<char>| #[trigger] f.models.contains_key(k) implies names_make(
        f,
        f.models[k].make,
    ) && names_generic_model(f, f.models[k].generic_model) by {
        assert(v.models.contains_key(k));
        assert(names_make(v, v.models[k].make));
        assert(names_generic_model(v, v.models[k].generic_model));
    }
    assert(linked(f));
    assert forall|i: int| 0 <= i < f.created.len() implies f.models.contains_key(
        #[trigger] f.created[i],
    ) && f.models[f.created[i]].index == i by {
        assert(v.models.contains_key(v.created[i]));
    }
    assert forall|k: Seq<char>| #[trigger] f.models.contains_key(k) implies f.models[k].index
        < f.created.len() && f.created[f.models[k].index as int] == k by {
        assert(v.models.contains_key(k));
    }
}

/// Taking a row in keeps an index consistent, whether the row is accepted
/// or not.
pub proof fn lemma_inserted_consistent<R, M: MergeRule<R>>(
    v: IndexView,
    id: IdentityView,
    rule: &M,
    row: &R,
)
    requires
        consistent(v),
        v.created.len() <= usize::MAX,
    ensures
        consistent(inserted(v, id, rule, row).0),
{
    if rejected_names(id) is None {
        lemma_filed_consistent(v, id);
        lemma_merged_consistent(filed(v, id), id, rule, row);
    }
}

/// The words of the first `n` ranks.
spec fn seen(ranked: Seq<Seq<char>>, n: int) -> Set<Seq<char>> {
    Set::new(|w: Seq<char>| exists|k: int| 0 <= k < n && #[trigger] ranked[k] == w)
}

/// Files a model in the search structures: its index under each of its
/// keywords, and each keyword under its phonetic codes.
fn register_model(
    keywords: &mut KeywordIndex,
    metaphones: &mut PhoneticIndex,
    model: &Model,
    Ghost(known): Ghost<Set<Seq<char>>>,
)
    requires
        old(metaphones)@ == sound_map(known),
    ensures
        final(keywords)@ == with_ids(
            old(keywords)@,
            crate::words::keywords(full_name(model@)),
            model.index,
        ),
        final(metaphones)@ == sound_map(
            known.union(crate::words::keywords(full_name(model@))),
        ),
{
    let words = model.keywords();
    let n: usize = words.len();
    let ghost ranked = words.ranked();
    let ghost start = keywords@;
    let mut i: usize = 0;
    proof {
        assert(seen(ranked, 0) =~= Set::<Seq<char>>::empty());
        assert(with_ids(start, seen(ranked, 0), model.index) =~~= start);
        assert(known.union(seen(ranked, 0)) =~= known);
    }
    while i < n
        invariant
            i <= n,
            n == ranked.len(),
            ranked == words.ranked(),
            forall|k: int| 0 <= k < i ==> words@.contains(#[trigger] ranked[k]),
            keywords@ == with_ids(start, seen(ranked, i as int), model.index),
            metaphones@ == sound_map(known.union(seen(ranked, i as int))),
        decreases n - i,
    {
        match words.get(i) {
            Some(word) => {
                keywords.register(word, model.index);
                let codes = phonetic_codes(word);
                metaphones.register(word, &codes);
                proof {
                    let before = seen(ranked, i as int);
                    assert(seen(ranked, i as int + 1) =~= before.insert(word@)) by {
                        assert forall|w: Seq<char>| seen(ranked, i as int + 1).contains(w)
                            <==> before.insert(word@).contains(w) by {
                            if seen(ranked, i as int + 1).contains(w) {
                                let k = choose|k: int| 0 <= k < i + 1 && #[trigger] ranked[k] == w;
                                if k < i {
                                    assert(ranked[k] == w);
                                }
                            }
                            if before.contains(w) {
                                let k = choose|k: int| 0 <= k < i && #[trigger] ranked[k] == w;
                                assert(0 <= k < i + 1 && ranked[k] == w);
                            }
                            if w == word@ {
                                assert(ranked[i as int] == w);
                            }
                        }
                    }
                    lemma_with_id_step(start, before, word@, model.index);
                    lemma_sound_step(known.union(before), word@);
                    assert(known.union(before).insert(word@) =~= known.union(
                        before.insert(word@),
                    ));
                }
            },
            None => {},
        }
        i += 1;
    }
    proof {
        let mine = crate::words::keywords(full_name(model@));
        assert(seen(ranked, n as int) =~= mine) by {
            assert forall|w: Seq<char>| mine.contains(w) implies seen(ranked, n as int).contains(
                w,
            ) by {
                let k = choose|k: int| 0 <= k < n && #[trigger] ranked[k] == w;
                assert(ranked[k] == w);
            }
            assert forall|w: Seq<char>| seen(ranked, n as int).contains(w) implies mine.contains(
                w,
            ) by {
                let k = choose|k: int| 0 <= k < n && #[trigger] ranked[k] == w;
                assert(words@.contains(ranked[k]));
            }
        }
    }
}

/// Derives the three slugs of a row.
fn slugs_of(id: &VehicleIdentity) -> (r: Result<(String, String, String), IngestError>)
    ensures
        match r {
            Ok(slugs) => {
                &&& rejected_names(id@) is None
                &&& slugs.0@ == make_slug(id@)
                &&& slugs.1@ == generic_model_slug(id@)
                &&& slugs.2@ == model_slug(id@)
            },
            Err(e) => rejected_names(id@) matches Some(names) && e@
                == IngestErrorView::InvalidCharacter(names),
        },
{
    let one: [&str; 1] = [id.make];
    assert(texts(one@) =~= seq![id.make@]);
    let make = match slugify(one.as_slice()) {
        Ok(slug) => slug,
        Err(e) => {
            return Err(e);
        },
    };
    let two: [&str; 2] = [id.make, id.generic_model];
    assert(texts(two@) =~= seq![id.make@, id.generic_model@]);
    let generic_model = match slugify(two.as_slice()) {
        Ok(slug) => slug,
        Err(e) => {
            return Err(e);
        },
    };
    let three: [&str; 2] = [id.make, id.model];
    assert(texts(three@) =~= seq![id.make@, id.model@]);
    let model = match slugify(three.as_slice()) {
        Ok(slug) => slug,
        Err(e) => {
            return Err(e);
        },
    };
    Ok((make, generic_model, model))
}

/// Makes, generic models and models by slug, with the keyword index and
/// the phonetic index of the models.
pub struct Index {
    makes: Vec<Make>,
    generic_models: Vec<GenericModel>,
    models: Vec<Model>,
    keywords: KeywordIndex,
    metaphones: PhoneticIndex,
    created: Ghost<Seq<Seq<char>>>,
}

impl View for Index {
    type V = IndexView;

    closed spec fn view(&self) -> IndexView {
        IndexView {
            makes: view_map(self.makes@),
            generic_models: view_map(self.generic_models@),
            models: view_map(self.models@),
            created: self.created@,
        }
    }
}

impl Index {
    /// The entities stand in ascending order of slug, and every model was
    /// counted when it was created.
    pub closed spec fn stored(&self) -> bool {
        &&& ascending(self.makes@)
        &&& ascending(self.generic_models@)
        &&& ascending(self.models@)
        &&& self.created@.len() == self.models@.len()
    }

    /// From keyword to model indices, as the index holds it.
    pub closed spec fn keyword_view(&self) -> Map<Seq<char>, Set<usize>> {
        self.keywords@
    }

    /// From phonetic code to keywords, as the index holds it.
    pub closed spec fn phonetic_view(&self) -> Map<Seq<char>, Set<Seq<char>>> {
        self.metaphones@
    }

    /// The search structures are what the models make them.
    pub open spec fn searchable(&self) -> bool {
        &&& self.keyword_view() == keyword_map(self@.models)
        &&& self.phonetic_view() == sound_map(all_keywords(self@.models))
    }

    /// The index is in order: its entities are consistent and its search
    /// structures are up to date.
    pub open spec fn wf(&self) -> bool {
        self.stored() && consistent(self@) && self.searchable()
    }

    /// The index without any entity.
    pub fn new() -> (index: Index)
        ensures
            index.wf(),
            index@ == empty_index(),
    {
        let index = Index {
            models: Vec::new(),
            generic_models: Vec::new(),
            makes: Vec::new(),
            keywords: KeywordIndex::new(),
            metaphones: PhoneticIndex::new(),
            created: Ghost(Seq::empty()),
        };
        proof {
            assert(index@.makes =~= Map::<Seq<char>, MakeView>::empty());
            assert(index@.generic_models =~= Map::<Seq<char>, GenericModelView>::empty());
            assert(index@.models =~= Map::<Seq<char>, ModelView>::empty());
            assert(all_keywords(index@.models) =~= Set::<Seq<char>>::empty());
            assert(keyword_map(index@.models) =~~= Map::<Seq<char>, Set<usize>>::empty());
            assert(sound_map(Set::<Seq<char>>::empty()) =~~= Map::<
                Seq<char>,
                Set<Seq<char>>,
            >::empty());
        }
        index
    }

    /// Finds or creates the three entities of a row, links them, and files
    /// the model in the search structures.
    fn file(&mut self, id: &VehicleIdentity, slugs: &(String, String, String)) -> (at: (
        usize,
        usize,
        usize,
    ))
        requires
            old(self).stored(),
            old(self).searchable(),
            slugs.0@ == make_slug(id@),
            slugs.1@ == generic_model_slug(id@),
            slugs.2@ == model_slug(id@),
        ensures
            final(self).stored(),
            final(self).searchable(),
            final(self)@ == filed(old(self)@, id@),
            at.0 < final(self).makes@.len(),
            at.1 < final(self).generic_models@.len(),
            at.2 < final(self).models@.len(),
            final(self).makes@[at.0 as int].slug@ == make_slug(id@),
            final(self).generic_models@[at.1 as int].slug@ == generic_model_slug(id@),
            final(self).models@[at.2 as int].slug@ == model_slug(id@),
    {
        let ghost v = self@;
        let mi = file_make(&mut self.makes, id.make, slugs.0.as_str());
        let gi = file_generic_model(
            &mut self.generic_models,
            &self.makes[mi],
            id.generic_model,
            slugs.1.as_str(),
        );
        assert(self.makes@[mi as int]@ == make_found(v, id@));
        assert(self.generic_models@[gi as int]@ == generic_model_found(v, id@));
        let generic_link = self.generic_models[gi].link();
        let ghost makes1 = self.makes@;
        self.makes[mi].generic_models.insert(generic_link);
        proof {
            assert(self.makes@ =~= makes1.update(mi as int, self.makes@[mi as int]));
            lemma_view_map_update(makes1, mi as int, self.makes@[mi as int]);
        }
        let (oi, created) = file_model(
            &mut self.models,
            &self.makes[mi],
            &self.generic_models[gi],
            id.model,
            slugs.2.as_str(),
        );
        assert(self.models@[oi as int]@ == model_found(v, id@));
        let model_link = self.models[oi].link();
        let ghost list1 = self.generic_models@;
        self.generic_models[gi].models.insert(model_link);
        proof {
            assert(self.generic_models@ =~= list1.update(
                gi as int,
                self.generic_models@[gi as int],
            ));
            lemma_view_map_update(list1, gi as int, self.generic_models@[gi as int]);
            if created {
                self.created@ = self.created@.push(slugs.2@);
            }
            assert(self@.makes =~= filed(v, id@).makes);
            assert(self@.generic_models =~= filed(v, id@).generic_models);
            assert(self@.models =~= filed(v, id@).models);
        }
        register_model(
            &mut self.keywords,
            &mut self.metaphones,
            &self.models[oi],
            Ghost(all_keywords(v.models)),
        );
        proof {
            lemma_search_grows(v.models, self@.models, slugs.2@);
        }
        (mi, gi, oi)
    }

    /// Merges a row into the statistics of its make, its generic model and
    /// its model, in that order, as far as the counts fit.
    fn merge_row<R, M: MergeRule<R>>(
        &mut self,
        at: (usize, usize, usize),
        Ghost(id): Ghost<IdentityView>,
        update: &M,
        row: &R,
    ) -> (r: Result<(), IngestError>)
        requires
            old(self).stored(),
            at.0 < old(self).makes@.len(),
            at.1 < old(self).generic_models@.len(),
            at.2 < old(self).models@.len(),
            old(self).makes@[at.0 as int].slug@ == make_slug(id),
            old(self).generic_models@[at.1 as int].slug@ == generic_model_slug(id),
            old(self).models@[at.2 as int].slug@ == model_slug(id),
        ensures
            final(self).stored(),
            final(self).keyword_view() == old(self).keyword_view(),
            final(self).phonetic_view() == old(self).phonetic_view(),
            final(self)@ == merged_all(old(self)@, id, update, row).0,
            r is Ok <==> merged_all(old(self)@, id, update, row).1,
            r matches Err(e) ==> e == IngestError::CountOverflow,
    {
        let ghost v = self@;
        let ghost makes0 = self.makes@;
        let ghost list0 = self.generic_models@;
        let ghost models0 = self.models@;
        proof {
            lemma_view_map_at(makes0, at.0 as int);
            lemma_view_map_at(list0, at.1 as int);
            lemma_view_map_at(models0, at.2 as int);
        }
        let a = update.merge(&mut self.makes[at.0].stats, row);
        proof {
            assert(self.makes@ =~= makes0.update(at.0 as int, self.makes@[at.0 as int]));
            lemma_view_map_update(makes0, at.0 as int, self.makes@[at.0 as int]);
        }
        if let Err(e) = a {
            assert(self@ == merged_all(v, id, update, row).0);
            return Err(e);
        }
        let b = update.merge(&mut self.generic_models[at.1].stats, row);
        proof {
            assert(self.generic_models@ =~= list0.update(
                at.1 as int,
                self.generic_models@[at.1 as int],
            ));
            lemma_view_map_update(list0, at.1 as int, self.generic_models@[at.1 as int]);
        }
        if let Err(e) = b {
            assert(self@ == merged_all(v, id, update, row).0);
            return Err(e);
        }
        let c = update.merge(&mut self.models[at.2].stats, row);
        proof {
            assert(self.models@ =~= models0.update(at.2 as int, self.models@[at.2 as int]));
            lemma_view_map_update(models0, at.2 as int, self.models@[at.2 as int]);
            assert(self@ == merged_all(v, id, update, row).0);
        }
        c
    }

    /// Takes a row into the index. The make, the generic model and the
    /// model that the row names are found under their slugs or created,
    /// the generic model is linked under the make and the model under the
    /// generic model, the model is filed in the search structures, and the
    /// row is merged by `update` into the statistics of all three.
    pub fn insert<R: HasIdentity + Clone, M: MergeRule<R>>(&mut self, row: R, update: &M) -> (r:
        Result<(), IngestError>)
        requires
            old(self).wf(),
        ensures
            final(self).wf(),
            final(self)@ == inserted(old(self)@, row.names(), update, &row).0,
            match r {
                Ok(()) => inserted(old(self)@, row.names(), update, &row).1 is None,
                Err(e) => inserted(old(self)@, row.names(), update, &row).1 == Some(e@),
            },
    {
        self.insert_row(&row, update)
    }

    /// Takes a row into the index as [`Index::insert`] does, and leaves the
    /// row with the caller.
    pub fn insert_row<R: HasIdentity, M: MergeRule<R>>(&mut self, row: &R, update: &M) -> (r:
        Result<(), IngestError>)
        requires
            old(self).wf(),
        ensures
            final(self).wf(),
            final(self)@ == inserted(old(self)@, row.names(), update, row).0,
            match r {
                Ok(()) => inserted(old(self)@, row.names(), update, row).1 is None,
                Err(e) => inserted(old(self)@, row.names(), update, row).1 == Some(e@),
            },
    {
        let id = row.identity();
        let slugs = match slugs_of(&id) {
            Ok(slugs) => slugs,
            Err(e) => {
                return Err(e);
            },
        };
        let ghost v = self@;
        let count: usize = self.models.len();
        assert(v.created.len() == count);
        let at = self.file(&id, &slugs);
        let ghost f = self@;
        let r = self.merge_row(at, Ghost(id@), update, row);
        proof {
            lemma_filed_consistent(v, id@);
            lemma_merged_consistent(f, id@, update, row);
            lemma_search_grows(f.models, f.models, model_slug(id@));
            lemma_search_grows(f.models, self@.models, model_slug(id@));
        }
        r
    }

    /// Takes the rows of one table into the index, in their order, up to
    /// the first row that fails.
    pub fn ingest<R: HasIdentity, M: MergeRule<R>>(&mut self, rows: &Vec<R>, update: &M) -> (r:
        Result<(), IngestError>)
        requires
            old(self).wf(),
        ensures
            final(self).wf(),
            final(self)@ == ingested(old(self)@, rows@, update).0,
            match r {
                Ok(()) => ingested(old(self)@, rows@, update).1 is None,
                Err(e) => ingested(old(self)@, rows@, update).1 == Some(e@),
            },
    {
        let ghost v = self@;
        let mut i: usize = 0;
        assert(rows@.take(0) =~= Seq::<R>::empty());
        while i < rows.len()
            invariant
                i <= rows.len(),
                self.wf(),
                v == old(self)@,
                self@ == ingested(v, rows@.take(i as int), update).0,
                ingested(v, rows@.take(i as int), update).1 is None,
            decreases rows.len() - i,
        {
            proof {
                assert(rows@.take(i as int + 1).drop_last() =~= rows@.take(i as int));
                assert(rows@.take(i as int + 1).last() == rows@[i as int]);
            }
            if let Err(e) = self.insert_row(&rows[i], update) {
                proof {
                    lemma_ingested_ended(v, rows@, update, i as int + 1);
                }
                return Err(e);
            }
            i += 1;
        }
        assert(rows@.take(i as int) =~= rows@);
        Ok(())
    }

    /// The makes in ascending order of slug.
    pub fn makes(&self) -> (list: &Vec<Make>)
        ensures
            view_map(list@) == self@.makes,
            self.stored() ==> ascending(list@),
    {
        &self.makes
    }

    /// The generic models in ascending order of slug.
    pub fn generic_models(&self) -> (list: &Vec<GenericModel>)
        ensures
            view_map(list@) == self@.generic_models,
            self.stored() ==> ascending(list@),
    {
        &self.generic_models
    }

    /// The models in ascending order of slug.
    pub fn models(&self) -> (list: &Vec<Model>)
        ensures
            view_map(list@) == self@.models,
            self.stored() ==> ascending(list@),
            self.stored() ==> list@.len() == self@.created.len(),
    {
        &self.models
    }

    /// The make filed under `slug`.
    pub fn make(&self, slug: &str) -> (r: Option<&Make>)
        requires
            self.wf(),
        ensures
            match r {
                Some(m) => self@.makes.contains_key(slug@) && self@.makes[slug@] == m@,
                None => !self@.makes.contains_key(slug@),
            },
    {
        let (p, found) = find(&self.makes, slug);
        if found {
            proof {
                lemma_view_map_at(self.makes@, p as int);
            }
            Some(&self.makes[p])
        } else {
            None
        }
    }

    /// The generic model filed under `slug`.
    pub fn generic_model(&self, slug: &str) -> (r: Option<&GenericModel>)
        requires
            self.wf(),
        ensures
            match r {
                Some(g) => self@.generic_models.contains_key(slug@) && self@.generic_models[slug@]
                    == g@,
                None => !self@.generic_models.contains_key(slug@),
            },
    {
        let (p, found) = find(&self.generic_models, slug);
        if found {
            proof {
                lemma_view_map_at(self.generic_models@, p as int);
            }
            Some(&self.generic_models[p])
        } else {
            None
        }
    }

    /// The model filed under `slug`.
    pub fn model(&self, slug: &str) -> (r: Option<&Model>)
        requires
            self.wf(),
        ensures
            match r {
                Some(m) => self@.models.contains_key(slug@) && self@.models[slug@] == m@,
                None => !self@.models.contains_key(slug@),
            },
    {
        let (p, found) = find(&self.models, slug);
        if found {
            proof {
                lemma_view_map_at(self.models@, p as int);
            }
            Some(&self.models[p])
        } else {
            None
        }
    }

    /// The keyword index.
    pub fn keywords(&self) -> (r: &KeywordIndex)
        ensures
            r@ == self.keyword_view(),
    {
        &self.keywords
    }

    /// The phonetic index.
    pub fn metaphones(&self) -> (r: &PhoneticIndex)
        ensures
            r@ == self.phonetic_view(),
    {
        &self.metaphones
    }
}

/// The index after the rows of one table were taken in, in their order, and
/// the error of the first row that failed. The rows after that one are not
/// looked at.
pub open spec fn ingested<R: HasIdentity, M: MergeRule<R>>(v: IndexView, rows: Seq<R>, rule: &M)
    -> (IndexView, Option<IngestErrorView>)
    decreases rows.len(),
{
    if rows.len() == 0 {
        (v, None)
    } else {
        let before = ingested(v, rows.drop_last(), rule);
        if before.1 is Some {
            before
        } else {
            inserted(before.0, rows.last().names(), rule, &rows.last())
        }
    }
}

/// Once a row has failed, later rows change nothing.
pub proof fn lemma_ingested_ended<R: HasIdentity, M: MergeRule<R>>(
    v: IndexView,
    rows: Seq<R>,
    rule: &M,
    n: int,
)
    requires
        0 <= n <= rows.len(),
        ingested(v, rows.take(n), rule).1 is Some,
    ensures
        ingested(v, rows, rule) == ingested(v, rows.take(n), rule),
    decreases rows.len(),
{
    if n == rows.len() {
        assert(rows.take(n) =~= rows);
    } else {
        assert(rows.drop_last().take(n) =~= rows.take(n));
        lemma_ingested_ended(v, rows.drop_last(), rule, n);
    }
}

/// The rows of the seven source tables.
pub struct Tables {
    pub veh0120_gb: Vec<Veh0120>,
    pub veh0120_uk: Vec<Veh0120>,
    pub veh0124_am: Vec<Veh0124>,
    pub veh0124_nz: Vec<Veh0124>,
    pub veh0160_gb: Vec<Veh0160>,
    pub veh0160_uk: Vec<Veh0160>,
    pub veh0220: Vec<Veh0220>,
}

/// The next table, unless a row has failed already.
pub open spec fn and_then<R: HasIdentity, M: MergeRule<R>>(
    state: (IndexView, Option<IngestErrorView>),
    rows: Seq<R>,
    rule: &M,
) -> (IndexView, Option<IngestErrorView>) {
    if state.1 is Some {
        state
    } else {
        ingested(state.0, rows, rule)
    }
}

/// The index that the seven tables give, taken in this order: quarterly
/// counts of Great Britain and of the United Kingdom, the two year tables,
/// first registrations of Great Britain and of the United Kingdom, engine
/// sizes.
pub open spec fn parsed(tables: &Tables) -> (IndexView, Option<IngestErrorView>) {
    let s1 = ingested(empty_index(), tables.veh0120_gb@, &Veh0120Gb);
    let s2 = and_then(s1, tables.veh0120_uk@, &Veh0120Uk);
    let s3 = and_then(s2, tables.veh0124_am@, &Veh0124Years);
    let s4 = and_then(s3, tables.veh0124_nz@, &Veh0124Years);
    let s5 = and_then(s4, tables.veh0160_gb@, &Veh0160Gb);
    let s6 = and_then(s5, tables.veh0160_uk@, &Veh0160Uk);
    and_then(s6, tables.veh0220@, &Veh0220Engines)
}

/// Builds the index from the rows of the seven tables. The first row that
/// fails ends the run with its error.
pub fn parse(tables: &Tables) -> (r: Result<Index, IngestError>)
    ensures
        match r {
            Ok(index) => index.wf() && parsed(tables).1 is None && index@ == parsed(tables).0,
            Err(e) => parsed(tables).1 == Some(e@),
        },
{
    let mut index = Index::new();
    if let Err(e) = index.ingest(&tables.veh0120_gb, &Veh0120Gb) {
        return Err(e);
    }
    if let Err(e) = index.ingest(&tables.veh0120_uk, &Veh0120Uk) {
        return Err(e);
    }
    if let Err(e) = index.ingest(&tables.veh0124_am, &Veh0124Years) {
        return Err(e);
    }
    if let Err(e) = index.ingest(&tables.veh0124_nz, &Veh0124Years) {
        return Err(e);
    }
    if let Err(e) = index.ingest(&tables.veh0160_gb, &Veh0160Gb) {
        return Err(e);
    }
    if let Err(e) = index.ingest(&tables.veh0160_uk, &Veh0160Uk) {
        return Err(e);
    }
    if let Err(e) = index.ingest(&tables.veh0220, &Veh0220Engines) {
        return Err(e);
    }
    Ok(index)
}

/// A row that is taken in adds the entities it names where they are not on
/// file yet, and no others; a model is counted when it is added.
pub proof fn lemma_inserted_keys<R, M: MergeRule<R>>(
    v: IndexView,
    id: IdentityView,
    rule: &M,
    row: &R,
)
    requires
        rejected_names(id) is None,
    ensures
        inserted(v, id, rule, row).0.makes.dom() == v.makes.dom().insert(make_slug(id)),
        inserted(v, id, rule, row).0.generic_models.dom() == v.generic_models.dom().insert(
            generic_model_slug(id),
        ),
        inserted(v, id, rule, row).0.models.dom() == v.models.dom().insert(model_slug(id)),
        inserted(v, id, rule, row).0.created == if v.models.contains_key(model_slug(id)) {
            v.created
        } else {
            v.created.push(model_slug(id))
        },
{
    let w = inserted(v, id, rule, row).0;
    assert(w.makes.dom() =~= v.makes.dom().insert(make_slug(id)));
    assert(w.generic_models.dom() =~= v.generic_models.dom().insert(generic_model_slug(id)));
    assert(w.models.dom() =~= v.models.dom().insert(model_slug(id)));
}

/// Rows with one derived identity share their entities: after the first of
/// them a second one adds no make, no generic model and no model.
pub proof fn lemma_same_identity_one_entity<R, M: MergeRule<R>, R2, M2: MergeRule<R2>>(
    v: IndexView,
    id: IdentityView,
    rule: &M,
    row: &R,
    id2: IdentityView,
    rule2: &M2,
    row2: &R2,
)
    requires
        rejected_names(id) is None,
        rejected_names(id2) is None,
        make_slug(id2) == make_slug(id),
        generic_model_slug(id2) == generic_model_slug(id),
        model_slug(id2) == model_slug(id),
    ensures
        ({
            let once = inserted(v, id, rule, row).0;
            let twice = inserted(once, id2, rule2, row2).0;
            &&& twice.makes.dom() == once.makes.dom()
            &&& twice.generic_models.dom() == once.generic_models.dom()
            &&& twice.models.dom() == once.models.dom()
            &&& twice.created == once.created
        }),
{
    let once = inserted(v, id, rule, row).0;
    let twice = inserted(once, id2, rule2, row2).0;
    lemma_inserted_keys(v, id, rule, row);
    lemma_inserted_keys(once, id2, rule2, row2);
    assert(once.makes.dom().contains(make_slug(id)));
    assert(once.generic_models.dom().contains(generic_model_slug(id)));
    assert(once.models.dom().contains(model_slug(id)));
    assert(twice.makes.dom() =~= once.makes.dom());
    assert(twice.generic_models.dom() =~= once.generic_models.dom());
    assert(twice.models.dom() =~= once.models.dom());
}

/// A row that is accepted reaches the statistics of its make, its generic
/// model and its model: each is what the rule makes of what the entity
/// held before, or of empty statistics where the entity is new.
pub proof fn lemma_inserted_stats<R, M: MergeRule<R>>(
    v: IndexView,
    id: IdentityView,
    rule: &M,
    row: &R,
)
    requires
        inserted(v, id, rule, row).1 is None,
    ensures
        inserted(v, id, rule, row).0.makes[make_slug(id)].stats == rule.merged(
            make_found(v, id).stats,
            row,
        ).0,
        inserted(v, id, rule, row).0.generic_models[generic_model_slug(id)].stats == rule.merged(
            generic_model_found(v, id).stats,
            row,
        ).0,
        inserted(v, id, rule, row).0.models[model_slug(id)].stats == rule.merged(
            model_found(v, id).stats,
            row,
        ).0,
{
}

/// Some model has the index `i`.
pub open spec fn has_index(v: IndexView, i: int) -> bool {
    exists|k: Seq<char>| #[trigger] v.models.contains_key(k) && v.models[k].index == i
}

/// The indices of the models are the numbers below the count of models,
/// each of them once.
pub proof fn lemma_indices_dense(v: IndexView)
    requires
        numbered(v),
    ensures
        forall|k: Seq<char>| #[trigger] v.models.contains_key(k) ==> v.models[k].index
            < v.created.len(),
        forall|i: int| 0 <= i < v.created.len() ==> #[trigger] has_index(v, i),
        forall|a: Seq<char>, b: Seq<char>|
            #[trigger] v.models.contains_key(a) && #[trigger] v.models.contains_key(b)
                && v.models[a].index == v.models[b].index ==> a == b,
{
    assert forall|i: int| 0 <= i < v.created.len() implies #[trigger] has_index(v, i) by {
        assert(v.models.contains_key(v.created[i]));
    }
}

/// Indices go by first appearance: a model that a row adds gets the number
/// of models created before it, and every model on file keeps its index.
pub proof fn lemma_first_seen_order<R, M: MergeRule<R>>(
    v: IndexView,
    id: IdentityView,
    rule: &M,
    row: &R,
)
    requires
        rejected_names(id) is None,
        v.created.len() <= usize::MAX,
    ensures
        !v.models.contains_key(model_slug(id)) ==> inserted(v, id, rule, row).0.models[model_slug(
            id,
        )].index == v.created.len(),
        forall|k: Seq<char>| #[trigger]
            v.models.contains_key(k) ==> inserted(v, id, rule, row).0.models[k].index
                == v.models[k].index,
{
}

} // verus!
