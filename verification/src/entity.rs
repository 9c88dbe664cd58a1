//! The three levels of the hierarchy: makes, generic models and models.

use vstd::prelude::*;
use vstd::string::StringExecFns;
use crate::link::{Link, LinkSet, LinkView};
use crate::ordered::Keyed;
use crate::stats::{empty_stats, Stats, StatsView};
use crate::words::{keywords, keywords_of, WordSet};

verus! {

/// A vehicle manufacturer.
#[derive(Debug)]
pub struct Make {
    pub name: String,
    pub slug: String,
    pub generic_models: LinkSet,
    pub stats: Stats,
}

/// A [`Make`] as plain values.
pub struct MakeView {
    pub name: Seq<char>,
    pub slug: Seq<char>,
    pub generic_models: Set<LinkView>,
    pub stats: StatsView,
}

impl View for Make {
    type V = MakeView;

    open spec fn view(&self) -> MakeView {
        MakeView {
            name: self.name@,
            slug: self.slug@,
            generic_models: self.generic_models@,
            stats: self.stats@,
        }
    }
}

impl Keyed for Make {
    open spec fn key_view(&self) -> Seq<char> {
        self.slug@
    }

    fn key(&self) -> (k: &str) {
        self.slug.as_str()
    }
}

impl Make {
    /// A make without generic models and without counts.
    pub fn new(name: &str, slug: &str) -> (m: Make)
        ensures
            m@ == (MakeView {
                name: name@,
                slug: slug@,
                generic_models: Set::empty(),
                stats: empty_stats(),
            }),
    {
        Make {
            name: name.to_owned(),
            slug: slug.to_owned(),
            generic_models: LinkSet::new(),
            stats: Stats::new(),
        }
    }

    /// The link by which other entities refer to this make.
    pub fn link(&self) -> (l: Link)
        ensures
            l@ == (LinkView { slug: self.slug@, name: self.name@ }),
    {
        Link { name: self.name.clone(), slug: self.slug.clone() }
    }
}

/// A family of models under a make.
#[derive(Debug)]
pub struct GenericModel {
    pub name: String,
    pub slug: String,
    pub make: Link,
    pub models: LinkSet,
    pub stats: Stats,
}

/// A [`GenericModel`] as plain values.
pub struct GenericModelView {
    pub name: Seq<char>,
    pub slug: Seq<char>,
    pub make: LinkView,
    pub models: Set<LinkView>,
    pub stats: StatsView,
}

impl View for GenericModel {
    type V = GenericModelView;

    open spec fn view(&self) -> GenericModelView {
        GenericModelView {
            name: self.name@,
            slug: self.slug@,
            make: self.make@,
            models: self.models@,
            stats: self.stats@,
        }
    }
}

impl Keyed for GenericModel {
    open spec fn key_view(&self) -> Seq<char> {
        self.slug@
    }

    fn key(&self) -> (k: &str) {
        self.slug.as_str()
    }
}

impl GenericModel {
    /// A generic model of `make` without models and without counts.
    pub fn new(make: &Make, name: &str, slug: &str) -> (g: GenericModel)
        ensures
            g@ == (GenericModelView {
                name: name@,
                slug: slug@,
                make: LinkView { slug: make.slug@, name: make.name@ },
                models: Set::empty(),
                stats: empty_stats(),
            }),
    {
        GenericModel {
            name: name.to_owned(),
            slug: slug.to_owned(),
            make: make.link(),
            models: LinkSet::new(),
            stats: Stats::new(),
        }
    }

    /// The link by which other entities refer to this generic model.
    pub fn link(&self) -> (l: Link)
        ensures
            l@ == (LinkView { slug: self.slug@, name: self.name@ }),
    {
        Link { name: self.name.clone(), slug: self.slug.clone() }
    }
}

/// One model of a make. Its `index` is the number of models that were
/// created before it.
#[derive(Debug)]
pub struct Model {
    pub name: String,
    pub slug: String,
    pub make: Link,
    pub generic_model: Link,
    pub stats: Stats,
    pub index: usize,
}

/// A [`Model`] as plain values.
pub struct ModelView {
    pub name: Seq<char>,
    pub slug: Seq<char>,
    pub make: LinkView,
    pub generic_model: LinkView,
    pub stats: StatsView,
    pub index: usize,
}

/// The name under which a model is searched for: the name of its make, a
/// space, and its own name.
pub open spec fn full_name(model: ModelView) -> Seq<char> {
    model.make.name + seq![' '] + model.name
}

impl View for Model {
    type V = ModelView;

    open spec fn view(&self) -> ModelView {
        ModelView {
            name: self.name@,
            slug: self.slug@,
            make: self.make@,
            generic_model: self.generic_model@,
            stats: self.stats@,
            index: self.index,
        }
    }
}

impl Keyed for Model {
    open spec fn key_view(&self) -> Seq<char> {
        self.slug@
    }

    fn key(&self) -> (k: &str) {
        self.slug.as_str()
    }
}

impl Model {
    /// A model of `make` and `generic_model` without counts.
    pub fn new(make: &Make, generic_model: &GenericModel, name: &str, slug: &str, index: usize) -> (m:
        Model)
        ensures
            m@ == (ModelView {
                name: name@,
                slug: slug@,
                make: LinkView { slug: make.slug@, name: make.name@ },
                generic_model: LinkView { slug: generic_model.slug@, name: generic_model.name@ },
                stats: empty_stats(),
                index,
            }),
    {
        Model {
            name: name.to_owned(),
            slug: slug.to_owned(),
            make: make.link(),
            generic_model: generic_model.link(),
            stats: Stats::new(),
            index,
        }
    }

    /// The link by which other entities refer to this model.
    pub fn link(&self) -> (l: Link)
        ensures
            l@ == (LinkView { slug: self.slug@, name: self.name@ }),
    {
        Link { name: self.name.clone(), slug: self.slug.clone() }
    }

    /// The name of the make, a space, and the name of the model.
    pub fn full_name(&self) -> (s: String)
        ensures
            s@ == full_name(self@),
    {
        let mut s = self.make.name.clone();
        s.push(' ');
        s.append(self.name.as_str());
        s
    }

    /// The keywords of the model: the tokens of its lower-cased full name.
    pub fn keywords(&self) -> (words: WordSet)
        ensures
            words@ == keywords(full_name(self@)),
    {
        let name = self.full_name();
        keywords_of(name.as_str())
    }
}

} // verus!
