//! Merge rules as values: what the index is told to do with the rows of one
//! source table.

use vstd::prelude::*;
use crate::dft::{Veh0120, Veh0124, Veh0160, Veh0220};
use crate::error::IngestError;
use crate::stats::{merged_veh0120, merged_veh0124, merged_veh0160, merged_veh0220, Stats,
    StatsView};

verus! {

/// A rule by which a row of type `R` is merged into the statistics of an
/// entity.
pub trait MergeRule<R> {
    /// The statistics after the row was merged, and whether every count
    /// fitted.
    spec fn merged(&self, stats: StatsView, row: &R) -> (StatsView, bool);

    fn merge(&self, stats: &mut Stats, row: &R) -> (r: Result<(), IngestError>)
        ensures
            final(stats)@ == self.merged(old(stats)@, row).0,
            r is Ok <==> self.merged(old(stats)@, row).1,
            r matches Err(e) ==> e == IngestError::CountOverflow,
    ;
}

/// The quarterly table of Great Britain.
pub struct Veh0120Gb;

/// The quarterly table of the United Kingdom.
pub struct Veh0120Uk;

/// The tables by year of manufacture and of first use.
pub struct Veh0124Years;

/// The table of first registrations of Great Britain.
pub struct Veh0160Gb;

/// The table of first registrations of the United Kingdom.
pub struct Veh0160Uk;

/// The table by fuel and engine size.
pub struct Veh0220Engines;

impl MergeRule<Veh0120> for Veh0120Gb {
    open spec fn merged(&self, stats: StatsView, row: &Veh0120) -> (StatsView, bool) {
        merged_veh0120(stats, row, true)
    }

    fn merge(&self, stats: &mut Stats, row: &Veh0120) -> (r: Result<(), IngestError>) {
        stats.merge_veh0120_gb(row)
    }
}

impl MergeRule<Veh0120> for Veh0120Uk {
    open spec fn merged(&self, stats: StatsView, row: &Veh0120) -> (StatsView, bool) {
        merged_veh0120(stats, row, false)
    }

    fn merge(&self, stats: &mut Stats, row: &Veh0120) -> (r: Result<(), IngestError>) {
        stats.merge_veh0120_uk(row)
    }
}

impl MergeRule<Veh0124> for Veh0124Years {
    open spec fn merged(&self, stats: StatsView, row: &Veh0124) -> (StatsView, bool) {
        merged_veh0124(stats, row)
    }

    fn merge(&self, stats: &mut Stats, row: &Veh0124) -> (r: Result<(), IngestError>) {
        stats.merge_veh0124(row)
    }
}

impl MergeRule<Veh0160> for Veh0160Gb {
    open spec fn merged(&self, stats: StatsView, row: &Veh0160) -> (StatsView, bool) {
        merged_veh0160(stats, row, true)
    }

    fn merge(&self, stats: &mut Stats, row: &Veh0160) -> (r: Result<(), IngestError>) {
        stats.merge_veh0160_gb(row)
    }
}

impl MergeRule<Veh0160> for Veh0160Uk {
    open spec fn merged(&self, stats: StatsView, row: &Veh0160) -> (StatsView, bool) {
        merged_veh0160(stats, row, false)
    }

    fn merge(&self, stats: &mut Stats, row: &Veh0160) -> (r: Result<(), IngestError>) {
        stats.merge_veh0160_uk(row)
    }
}

impl MergeRule<Veh0220> for Veh0220Engines {
    open spec fn merged(&self, stats: StatsView, row: &Veh0220) -> (StatsView, bool) {
        merged_veh0220(stats, row)
    }

    fn merge(&self, stats: &mut Stats, row: &Veh0220) -> (r: Result<(), IngestError>) {
        stats.merge_veh0220(row)
    }
}

} // verus!
