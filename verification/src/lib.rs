//! Aggregation and search index over vehicle licensing statistics.
//!
//! Rows of the source tables ([`dft`]) are taken into an [`index::Index`]:
//! every row names a make, a generic model and a model, which are filed
//! under their slugs ([`slug`]) and linked to each other ([`link`],
//! [`entity`]), and the counts of the row are merged into the statistics of
//! all three ([`stats`], [`rules`], [`series`]). From the names of the
//! models follow the keyword index and the phonetic index ([`words`],
//! [`phonetic`], [`search`]), whose rows are packed for the snapshot
//! ([`blob`], [`ids`]). The keyed collections rest on [`ordered`] and on the
//! order of strings in [`text`].

pub mod blob;
pub mod dft;
pub mod entity;
pub mod error;
pub mod ids;
pub mod index;
pub mod link;
pub mod ordered;
pub mod phonetic;
pub mod rules;
pub mod search;
pub mod series;
pub mod slug;
pub mod stats;
pub mod text;
pub mod words;
