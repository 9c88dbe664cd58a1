//! The statistics kept for every make, generic model and model, and the
//! rules by which a row of each source table is merged into them.

use vstd::prelude::*;
use vstd::std_specs::iter::IteratorSpec;
use vstd::string::group_string_axioms;
use crate::dft::{cell_named, cells, first_under, FuelType, LicenceStatus, OptionalNumber, Veh0120,
    Veh0124, Veh0160, Veh0220};
use crate::error::IngestError;
use crate::series::{count_of, fits, with_added, Series};
use crate::text::{chars_of, comes_before, decimal, decimal_text, is_digit, lex_lt, same_text};

verus! {

broadcast use group_string_axioms;

/// The independent series of one entity.
#[derive(Debug)]
pub struct Stats {
    pub quarterly_licensed: Series,
    pub quarterly_sorn: Series,
    pub first_reg_licensed: Series,
    pub first_reg_sorn: Series,
    pub manufacture_licensed: Series,
    pub manufacture_sorn: Series,
    pub new_reg: Series,
    pub petrol_licensed: Series,
    pub petrol_sorn: Series,
    pub diesel_licensed: Series,
    pub diesel_sorn: Series,
    pub other_licensed: Series,
    pub other_sorn: Series,
}

/// The series of a [`Stats`] as maps from key to count.
pub struct StatsView {
    pub quarterly_licensed: Map<Seq<char>, int>,
    pub quarterly_sorn: Map<Seq<char>, int>,
    pub first_reg_licensed: Map<Seq<char>, int>,
    pub first_reg_sorn: Map<Seq<char>, int>,
    pub manufacture_licensed: Map<Seq<char>, int>,
    pub manufacture_sorn: Map<Seq<char>, int>,
    pub new_reg: Map<Seq<char>, int>,
    pub petrol_licensed: Map<Seq<char>, int>,
    pub petrol_sorn: Map<Seq<char>, int>,
    pub diesel_licensed: Map<Seq<char>, int>,
    pub diesel_sorn: Map<Seq<char>, int>,
    pub other_licensed: Map<Seq<char>, int>,
    pub other_sorn: Map<Seq<char>, int>,
}

impl View for Stats {
    type V = StatsView;

    open spec fn view(&self) -> StatsView {
        StatsView {
            quarterly_licensed: self.quarterly_licensed@,
            quarterly_sorn: self.quarterly_sorn@,
            first_reg_licensed: self.first_reg_licensed@,
            first_reg_sorn: self.first_reg_sorn@,
            manufacture_licensed: self.manufacture_licensed@,
            manufacture_sorn: self.manufacture_sorn@,
            new_reg: self.new_reg@,
            petrol_licensed: self.petrol_licensed@,
            petrol_sorn: self.petrol_sorn@,
            diesel_licensed: self.diesel_licensed@,
            diesel_sorn: self.diesel_sorn@,
            other_licensed: self.other_licensed@,
            other_sorn: self.other_sorn@,
        }
    }
}

/// Statistics in which no series holds a count.
pub open spec fn empty_stats() -> StatsView {
    StatsView {
        quarterly_licensed: Map::empty(),
        quarterly_sorn: Map::empty(),
        first_reg_licensed: Map::empty(),
        first_reg_sorn: Map::empty(),
        manufacture_licensed: Map::empty(),
        manufacture_sorn: Map::empty(),
        new_reg: Map::empty(),
        petrol_licensed: Map::empty(),
        petrol_sorn: Map::empty(),
        diesel_licensed: Map::empty(),
        diesel_sorn: Map::empty(),
        other_licensed: Map::empty(),
        other_sorn: Map::empty(),
    }
}

/// The first period that the table for Great Britain no longer covers: from
/// there on the table for the United Kingdom is the source.
pub open spec fn gb_cutoff() -> Seq<char> {
    "2014Q3"@
}

/// The column that holds the count of the current reporting year.
pub open spec fn current_year() -> Seq<char> {
    "2024"@
}

/// The bucket of a period column: `Q` gives way to a space and `q`, so that
/// `2013Q4` is filed under `2013 q4`.
pub open spec fn quarter_label(key: Seq<char>) -> Seq<char>
    decreases key.len(),
{
    if key.len() == 0 {
        Seq::empty()
    } else if key.last() == 'Q' {
        quarter_label(key.drop_last()) + seq![' ', 'q']
    } else {
        quarter_label(key.drop_last()).push(key.last())
    }
}

/// The bucket of a year cell: the year in decimal notation, or `Unknown`
/// where the table gives a flag in place of a year.
pub open spec fn year_label(cell: OptionalNumber) -> Seq<char> {
    match cell {
        OptionalNumber::Count(y) => decimal(y as int),
        OptionalNumber::Flag(_) => "Unknown"@,
    }
}

/// The bucket of an engine size: the description as it stands, or `Unknown`
/// for the flags `[z]` and `[x]`.
pub open spec fn engine_label(desc: Seq<char>) -> Seq<char> {
    if desc == "[z]"@ || desc == "[x]"@ {
        "Unknown"@
    } else {
        desc
    }
}

/// The name of a period column: a quarter code, that is four digits for the
/// year, `Q`, and one digit for the quarter, as in `2013Q4`.
pub open spec fn is_quarter_code(key: Seq<char>) -> bool {
    &&& key.len() == 6
    &&& is_digit(key[0])
    &&& is_digit(key[1])
    &&& is_digit(key[2])
    &&& is_digit(key[3])
    &&& key[4] == 'Q'
    &&& is_digit(key[5])
}

/// Whether a column is merged as a period: its name is a quarter code, its
/// count is positive and, for the table of Great Britain, its period lies
/// before the cutoff. A column that fails one of these is skipped; it is no
/// error.
pub open spec fn period_counts(cell: (Seq<char>, int), gb_only: bool) -> bool {
    is_quarter_code(cell.0) && cell.1 > 0 && (gb_only ==> lex_lt(cell.0, gb_cutoff()))
}

/// `n` more under `key` where that fits, and whether it did.
pub open spec fn try_add(m: Map<Seq<char>, int>, key: Seq<char>, n: int) -> (
    Map<Seq<char>, int>,
    bool,
) {
    if fits(m, key, n) {
        (with_added(m, key, n), true)
    } else {
        (m, false)
    }
}

/// The series after the period columns were merged in order, and whether
/// all of them fitted. The first count that does not fit ends the merge:
/// the columns before it stay merged, that one and the later ones are not.
pub open spec fn merge_periods(
    series: Map<Seq<char>, int>,
    columns: Seq<(Seq<char>, int)>,
    gb_only: bool,
) -> (Map<Seq<char>, int>, bool)
    decreases columns.len(),
{
    if columns.len() == 0 {
        (series, true)
    } else {
        let before = merge_periods(series, columns.drop_last(), gb_only);
        let cell = columns.last();
        if !before.1 {
            before
        } else if period_counts(cell, gb_only) {
            try_add(before.0, quarter_label(cell.0), cell.1)
        } else {
            before
        }
    }
}

/// Once a count did not fit, later columns change nothing.
pub proof fn lemma_merge_periods_ended(
    series: Map<Seq<char>, int>,
    columns: Seq<(Seq<char>, int)>,
    gb_only: bool,
    n: int,
)
    requires
        0 <= n <= columns.len(),
        !merge_periods(series, columns.take(n), gb_only).1,
    ensures
        merge_periods(series, columns, gb_only) == merge_periods(series, columns.take(n), gb_only),
    decreases columns.len(),
{
    if n == columns.len() {
        assert(columns.take(n) =~= columns);
    } else {
        assert(columns.drop_last().take(n) =~= columns.take(n));
        lemma_merge_periods_ended(series, columns.drop_last(), gb_only, n);
    }
}

/// Statistics after a row of licensed or SORN vehicles by quarter.
pub open spec fn merged_veh0120(stats: StatsView, row: &Veh0120, gb_only: bool) -> (
    StatsView,
    bool,
) {
    match row.licence_status {
        LicenceStatus::Licensed => {
            let m = merge_periods(stats.quarterly_licensed, cells(row.extra@), gb_only);
            (StatsView { quarterly_licensed: m.0, ..stats }, m.1)
        },
        LicenceStatus::SORN => {
            let m = merge_periods(stats.quarterly_sorn, cells(row.extra@), gb_only);
            (StatsView { quarterly_sorn: m.0, ..stats }, m.1)
        },
    }
}

/// Statistics after a row of first registrations by quarter.
pub open spec fn merged_veh0160(stats: StatsView, row: &Veh0160, gb_only: bool) -> (
    StatsView,
    bool,
) {
    let m = merge_periods(stats.new_reg, cells(row.extra@), gb_only);
    (StatsView { new_reg: m.0, ..stats }, m.1)
}

/// The count that a row of the year tables brings: that of the current
/// reporting year, where it is a positive number.
pub open spec fn current_count_0124(row: &Veh0124) -> Option<int> {
    match first_under(row.extra@, current_year()) {
        Some(OptionalNumber::Count(n)) => if n > 0 {
            Some(n as int)
        } else {
            None
        },
        _ => None,
    }
}

/// Statistics after a row by year of manufacture and of first use: the
/// count goes under the year of manufacture first, then under the year of
/// first use.
pub open spec fn merged_veh0124(stats: StatsView, row: &Veh0124) -> (StatsView, bool) {
    match current_count_0124(row) {
        Some(n) => {
            let made = year_label(row.manufactured);
            let used = year_label(row.first_used);
            match row.licence_status {
                LicenceStatus::Licensed => {
                    let a = try_add(stats.manufacture_licensed, made, n);
                    if !a.1 {
                        (stats, false)
                    } else {
                        let b = try_add(stats.first_reg_licensed, used, n);
                        (
                            StatsView {
                                manufacture_licensed: a.0,
                                first_reg_licensed: b.0,
                                ..stats
                            },
                            b.1,
                        )
                    }
                },
                LicenceStatus::SORN => {
                    let a = try_add(stats.manufacture_sorn, made, n);
                    if !a.1 {
                        (stats, false)
                    } else {
                        let b = try_add(stats.first_reg_sorn, used, n);
                        (
                            StatsView { manufacture_sorn: a.0, first_reg_sorn: b.0, ..stats },
                            b.1,
                        )
                    }
                },
            }
        },
        None => (stats, true),
    }
}

/// The count that a row of the engine-size table brings: that of the
/// current reporting year, where it is positive.
pub open spec fn current_count_0220(row: &Veh0220) -> Option<int> {
    match first_under(row.extra@, current_year()) {
        Some(n) => if n > 0 {
            Some(n as int)
        } else {
            None
        },
        None => None,
    }
}

/// Statistics after a row by fuel and engine size. Every fuel but petrol and
/// diesel counts as other.
pub open spec fn merged_veh0220(stats: StatsView, row: &Veh0220) -> (StatsView, bool) {
    match current_count_0220(row) {
        Some(n) => {
            let size = engine_label(row.engine_size_desc@);
            match (row.licence_status, row.fuel) {
                (LicenceStatus::Licensed, FuelType::Petrol) => {
                    let a = try_add(stats.petrol_licensed, size, n);
                    (StatsView { petrol_licensed: a.0, ..stats }, a.1)
                },
                (LicenceStatus::SORN, FuelType::Petrol) => {
                    let a = try_add(stats.petrol_sorn, size, n);
                    (StatsView { petrol_sorn: a.0, ..stats }, a.1)
                },
                (LicenceStatus::Licensed, FuelType::Diesel) => {
                    let a = try_add(stats.diesel_licensed, size, n);
                    (StatsView { diesel_licensed: a.0, ..stats }, a.1)
                },
                (LicenceStatus::SORN, FuelType::Diesel) => {
                    let a = try_add(stats.diesel_sorn, size, n);
                    (StatsView { diesel_sorn: a.0, ..stats }, a.1)
                },
                (LicenceStatus::Licensed, _) => {
                    let a = try_add(stats.other_licensed, size, n);
                    (StatsView { other_licensed: a.0, ..stats }, a.1)
                },
                (LicenceStatus::SORN, _) => {
                    let a = try_add(stats.other_sorn, size, n);
                    (StatsView { other_sorn: a.0, ..stats }, a.1)
                },
            }
        },
        None => (stats, true),
    }
}

/// Whether `key` is a quarter code.
pub fn is_quarter(key: &str) -> (r: bool)
    ensures
        r == is_quarter_code(key@),
{
    let k = chars_of(key);
    if k.len() != 6 {
        return false;
    }
    let mut i: usize = 0;
    while i < 6
        invariant
            i <= 6,
            k@.len() == 6,
            k@ == key@,
            forall|j: int| 0 <= j < i && j != 4 ==> is_digit(#[trigger] k@[j]),
            i > 4 ==> k@[4] == 'Q',
        decreases 6 - i,
    {
        let c = k[i];
        if i == 4 {
            if c != 'Q' {
                return false;
            }
        } else if !(c >= '0' && c <= '9') {
            return false;
        }
        i += 1;
    }
    true
}

/// Computes [`quarter_label`].
pub fn to_quarter_label(key: &str) -> (out: String)
    ensures
        out@ == quarter_label(key@),
{
    let mut out = String::new();
    let mut it = key.chars();
    let ghost n: int = 0;
    assert(key@.take(0) =~= Seq::<char>::empty());
    loop
        invariant_except_break
            0 <= n <= key@.len(),
            it.remaining() == key@.skip(n),
            out@ == quarter_label(key@.take(n)),
            it.decrease() is Some,
        ensures
            out@ == quarter_label(key@),
        decreases it.decrease()->0,
    {
        match it.next() {
            Some(c) => {
                proof {
                    assert(c == key@[n]);
                    assert(key@.take(n + 1).drop_last() =~= key@.take(n));
                    assert(key@.take(n + 1).last() == c);
                    assert(key@.skip(n).drop_first() =~= key@.skip(n + 1));
                    n = n + 1;
                }
                if c == 'Q' {
                    out.push(' ');
                    out.push('q');
                    assert(out@ =~= quarter_label(key@.take(n)));
                } else {
                    out.push(c);
                }
            },
            None => {
                assert(key@.take(n) =~= key@);
                break;
            },
        }
    }
    out
}

/// Computes [`year_label`].
pub fn year_bucket(cell: OptionalNumber) -> (out: String)
    ensures
        out@ == year_label(cell),
{
    match cell {
        OptionalNumber::Count(y) => decimal_text(y),
        OptionalNumber::Flag(_) => "Unknown".to_owned(),
    }
}

/// Computes [`engine_label`].
pub fn engine_bucket(desc: &str) -> (out: String)
    ensures
        out@ == engine_label(desc@),
{
    if same_text(desc, "[z]") || same_text(desc, "[x]") {
        "Unknown".to_owned()
    } else {
        desc.to_owned()
    }
}

/// Merges the period columns of a row into one series, in their order. A
/// column whose name is no quarter code is skipped.
fn merge_period_columns(series: &mut Series, extra: &Vec<(String, i32)>, gb_only: bool) -> (done:
    bool)
    ensures
        final(series)@ == merge_periods(old(series)@, cells(extra@), gb_only).0,
        done == merge_periods(old(series)@, cells(extra@), gb_only).1,
{
    let ghost start = series@;
    let ghost columns = cells(extra@);
    let mut i: usize = 0;
    assert(columns.take(0) =~= Seq::<(Seq<char>, int)>::empty());
    while i < extra.len()
        invariant
            i <= extra.len(),
            columns == cells(extra@),
            start == old(series)@,
            series@ == merge_periods(start, columns.take(i as int), gb_only).0,
            merge_periods(start, columns.take(i as int), gb_only).1,
        decreases extra.len() - i,
    {
        let n: i32 = extra[i].1;
        proof {
            assert(columns.take(i as int + 1).drop_last() =~= columns.take(i as int));
            assert(columns.take(i as int + 1).last() == (extra@[i as int].0@, n as int));
        }
        if n > 0 && is_quarter(extra[i].0.as_str()) && (!gb_only || comes_before(
            extra[i].0.as_str(),
            "2014Q3",
        )) {
            let label = to_quarter_label(extra[i].0.as_str());
            if !series.add(label, n) {
                proof {
                    lemma_merge_periods_ended(start, columns, gb_only, i as int + 1);
                }
                return false;
            }
        }
        i += 1;
    }
    assert(columns.take(i as int) =~= columns);
    true
}

fn outcome(done: bool) -> (r: Result<(), IngestError>)
    ensures
        r is Ok <==> done,
        r matches Err(e) ==> e == IngestError::CountOverflow,
{
    if done {
        Ok(())
    } else {
        Err(IngestError::CountOverflow)
    }
}

impl Stats {
    /// Statistics without any count.
    pub fn new() -> (s: Stats)
        ensures
            s@ == empty_stats(),
    {
        Stats {
            quarterly_licensed: Series::new(),
            quarterly_sorn: Series::new(),
            first_reg_licensed: Series::new(),
            first_reg_sorn: Series::new(),
            manufacture_licensed: Series::new(),
            manufacture_sorn: Series::new(),
            new_reg: Series::new(),
            petrol_licensed: Series::new(),
            petrol_sorn: Series::new(),
            diesel_licensed: Series::new(),
            diesel_sorn: Series::new(),
            other_licensed: Series::new(),
            other_sorn: Series::new(),
        }
    }

    /// Merges a row of the quarterly table for Great Britain: the positive
    /// counts of the periods before the cutoff, each under its quarter
    /// label, into the licensed or the SORN series. Only columns named by
    /// a quarter code are periods; any other column is skipped.
    pub fn merge_veh0120_gb(&mut self, row: &Veh0120) -> (r: Result<(), IngestError>)
        ensures
            final(self)@ == merged_veh0120(old(self)@, row, true).0,
            r is Ok <==> merged_veh0120(old(self)@, row, true).1,
            r matches Err(e) ==> e == IngestError::CountOverflow,
    {
        let done = match row.licence_status {
            LicenceStatus::Licensed => merge_period_columns(
                &mut self.quarterly_licensed,
                &row.extra,
                true,
            ),
            LicenceStatus::SORN => merge_period_columns(&mut self.quarterly_sorn, &row.extra, true),
        };
        outcome(done)
    }

    /// Merges a row of the quarterly table for the United Kingdom: as for
    /// Great Britain, but every period counts. A column that is not named
    /// by a quarter code is skipped here too.
    pub fn merge_veh0120_uk(&mut self, row: &Veh0120) -> (r: Result<(), IngestError>)
        ensures
            final(self)@ == merged_veh0120(old(self)@, row, false).0,
            r is Ok <==> merged_veh0120(old(self)@, row, false).1,
            r matches Err(e) ==> e == IngestError::CountOverflow,
    {
        let done = match row.licence_status {
            LicenceStatus::Licensed => merge_period_columns(
                &mut self.quarterly_licensed,
                &row.extra,
                false,
            ),
            LicenceStatus::SORN => merge_period_columns(
                &mut self.quarterly_sorn,
                &row.extra,
                false,
            ),
        };
        outcome(done)
    }

    /// Merges a row of first registrations for Great Britain: the positive
    /// counts of the periods before the cutoff go into the series of new
    /// registrations. A column that is not named by a quarter code is
    /// skipped.
    pub fn merge_veh0160_gb(&mut self, row: &Veh0160) -> (r: Result<(), IngestError>)
        ensures
            final(self)@ == merged_veh0160(old(self)@, row, true).0,
            r is Ok <==> merged_veh0160(old(self)@, row, true).1,
            r matches Err(e) ==> e == IngestError::CountOverflow,
    {
        let done = merge_period_columns(&mut self.new_reg, &row.extra, true);
        outcome(done)
    }

    /// Merges a row of first registrations for the United Kingdom: every
    /// period counts. A column that is not named by a quarter code is
    /// skipped.
    pub fn merge_veh0160_uk(&mut self, row: &Veh0160) -> (r: Result<(), IngestError>)
        ensures
            final(self)@ == merged_veh0160(old(self)@, row, false).0,
            r is Ok <==> merged_veh0160(old(self)@, row, false).1,
            r matches Err(e) ==> e == IngestError::CountOverflow,
    {
        let done = merge_period_columns(&mut self.new_reg, &row.extra, false);
        outcome(done)
    }

    /// Merges a row by year of manufacture and of first use. Only the count
    /// of the current reporting year is read.
    pub fn merge_veh0124(&mut self, row: &Veh0124) -> (r: Result<(), IngestError>)
        ensures
            final(self)@ == merged_veh0124(old(self)@, row).0,
            r is Ok <==> merged_veh0124(old(self)@, row).1,
            r matches Err(e) ==> e == IngestError::CountOverflow,
    {
        if let Some(OptionalNumber::Count(n)) = cell_named(&row.extra, "2024") {
            let n: i32 = *n;
            if n <= 0 {
                return Ok(());
            }
            let made = year_bucket(row.manufactured);
            let used = year_bucket(row.first_used);
            let done = match row.licence_status {
                LicenceStatus::Licensed => {
                    self.manufacture_licensed.add(made, n) && self.first_reg_licensed.add(used, n)
                },
                LicenceStatus::SORN => {
                    self.manufacture_sorn.add(made, n) && self.first_reg_sorn.add(used, n)
                },
            };
            outcome(done)
        } else {
            Ok(())
        }
    }

    /// Merges a row by fuel and engine size. Only the count of the current
    /// reporting year is read.
    pub fn merge_veh0220(&mut self, row: &Veh0220) -> (r: Result<(), IngestError>)
        ensures
            final(self)@ == merged_veh0220(old(self)@, row).0,
            r is Ok <==> merged_veh0220(old(self)@, row).1,
            r matches Err(e) ==> e == IngestError::CountOverflow,
    {
        if let Some(n) = cell_named(&row.extra, "2024") {
            let n: i32 = *n;
            if n <= 0 {
                return Ok(());
            }
            let size = engine_bucket(row.engine_size_desc.as_str());
            let done = match (row.licence_status, row.fuel) {
                (LicenceStatus::Licensed, FuelType::Petrol) => self.petrol_licensed.add(size, n),
                (LicenceStatus::SORN, FuelType::Petrol) => self.petrol_sorn.add(size, n),
                (LicenceStatus::Licensed, FuelType::Diesel) => self.diesel_licensed.add(size, n),
                (LicenceStatus::SORN, FuelType::Diesel) => self.diesel_sorn.add(size, n),
                (LicenceStatus::Licensed, _) => self.other_licensed.add(size, n),
                (LicenceStatus::SORN, _) => self.other_sorn.add(size, n),
            };
            outcome(done)
        } else {
            Ok(())
        }
    }
}

/// What becomes of one column. A column whose name is no quarter code is
/// left out by both tables, whatever its count. Of the quarter codes the
/// table of Great Britain leaves out the cutoff and every period after it;
/// a period before the cutoff is merged under its quarter label if its
/// count is positive, and so is every period of the table of the United
/// Kingdom.
pub proof fn lemma_gb_cutoff(series: Map<Seq<char>, int>, cell: (Seq<char>, int))
    ensures
        !is_quarter_code(cell.0) ==> merge_periods(series, seq![cell], true) == (series, true)
            && merge_periods(series, seq![cell], false) == (series, true),
        !lex_lt(cell.0, gb_cutoff()) ==> merge_periods(series, seq![cell], true) == (series, true),
        !lex_lt(gb_cutoff(), gb_cutoff()),
        is_quarter_code(cell.0) && lex_lt(cell.0, gb_cutoff()) && cell.1 > 0 ==> merge_periods(
            series,
            seq![cell],
            true,
        ) == try_add(series, quarter_label(cell.0), cell.1),
        is_quarter_code(cell.0) && cell.1 > 0 ==> merge_periods(series, seq![cell], false)
            == try_add(series, quarter_label(cell.0), cell.1),
{
    let one = seq![cell];
    assert(one.drop_last() =~= Seq::<(Seq<char>, int)>::empty());
    assert(one.last() == cell);
    assert(merge_periods(series, one.drop_last(), true) == (series, true));
    assert(merge_periods(series, one.drop_last(), false) == (series, true));
    crate::text::lemma_lex_irreflexive(gb_cutoff());
}

/// The label of a quarter code: its year, a space, `q` and its quarter.
pub proof fn lemma_quarter_label_of_code(key: Seq<char>)
    requires
        is_quarter_code(key),
    ensures
        quarter_label(key) == seq![key[0], key[1], key[2], key[3], ' ', 'q', key[5]],
{
    let k5 = key.drop_last();
    let k4 = k5.drop_last();
    let k3 = k4.drop_last();
    let k2 = k3.drop_last();
    let k1 = k2.drop_last();
    let k0 = k1.drop_last();
    assert(k0.len() == 0);
    assert(quarter_label(k0) =~= Seq::<char>::empty());
    assert(k1.last() == key[0]);
    assert(quarter_label(k1) =~= seq![key[0]]);
    assert(k2.last() == key[1]);
    assert(quarter_label(k2) =~= seq![key[0], key[1]]);
    assert(k3.last() == key[2]);
    assert(quarter_label(k3) =~= seq![key[0], key[1], key[2]]);
    assert(k4.last() == key[3]);
    assert(quarter_label(k4) =~= seq![key[0], key[1], key[2], key[3]]);
    assert(k5.last() == key[4]);
    assert(quarter_label(k5) =~= seq![key[0], key[1], key[2], key[3], ' ', 'q']);
    assert(key.last() == key[5]);
    assert(quarter_label(key) =~= seq![key[0], key[1], key[2], key[3], ' ', 'q', key[5]]);
}

/// What the period columns of a row bring under one label: the sum of the
/// counts of the columns that are merged and filed under it.
pub open spec fn period_total(columns: Seq<(Seq<char>, int)>, gb_only: bool, label: Seq<char>)
    -> int
    decreases columns.len(),
{
    if columns.len() == 0 {
        0
    } else {
        let cell = columns.last();
        period_total(columns.drop_last(), gb_only, label) + if period_counts(cell, gb_only)
            && quarter_label(cell.0) == label {
            cell.1
        } else {
            0
        }
    }
}

/// Merging is additive: where every count fitted, each label holds what it
/// held before and what the columns bring under it. Nothing is overwritten
/// and nothing else is touched.
pub proof fn lemma_merge_periods_adds(
    series: Map<Seq<char>, int>,
    columns: Seq<(Seq<char>, int)>,
    gb_only: bool,
)
    requires
        merge_periods(series, columns, gb_only).1,
    ensures
        forall|label: Seq<char>|
            count_of(merge_periods(series, columns, gb_only).0, label) == count_of(series, label)
                + #[trigger] period_total(columns, gb_only, label),
    decreases columns.len(),
{
    if columns.len() > 0 {
        lemma_merge_periods_adds(series, columns.drop_last(), gb_only);
        let before = merge_periods(series, columns.drop_last(), gb_only);
        assert forall|label: Seq<char>|
            count_of(merge_periods(series, columns, gb_only).0, label) == count_of(series, label)
                + #[trigger] period_total(columns, gb_only, label) by {
            assert(count_of(before.0, label) == count_of(series, label) + period_total(
                columns.drop_last(),
                gb_only,
                label,
            ));
        }
    }
}

/// What a label gained from one state of a series to another.
pub open spec fn gain(before: Map<Seq<char>, int>, after: Map<Seq<char>, int>, label: Seq<char>)
    -> int {
    count_of(after, label) - count_of(before, label)
}

/// From `start` to `twice` every label of every series gained double of
/// what it gained from `start` to `once`.
pub open spec fn doubled(start: StatsView, once: StatsView, twice: StatsView) -> bool {
    forall|label: Seq<char>|
        #![trigger gain(start.quarterly_licensed, twice.quarterly_licensed, label)]
        #![trigger gain(start.quarterly_sorn, twice.quarterly_sorn, label)]
        #![trigger gain(start.first_reg_licensed, twice.first_reg_licensed, label)]
        #![trigger gain(start.first_reg_sorn, twice.first_reg_sorn, label)]
        #![trigger gain(start.manufacture_licensed, twice.manufacture_licensed, label)]
        #![trigger gain(start.manufacture_sorn, twice.manufacture_sorn, label)]
        #![trigger gain(start.new_reg, twice.new_reg, label)]
        #![trigger gain(start.petrol_licensed, twice.petrol_licensed, label)]
        #![trigger gain(start.petrol_sorn, twice.petrol_sorn, label)]
        #![trigger gain(start.diesel_licensed, twice.diesel_licensed, label)]
        #![trigger gain(start.diesel_sorn, twice.diesel_sorn, label)]
        #![trigger gain(start.other_licensed, twice.other_licensed, label)]
        #![trigger gain(start.other_sorn, twice.other_sorn, label)]
        {
            &&& gain(start.quarterly_licensed, twice.quarterly_licensed, label) == 2 * gain(
                start.quarterly_licensed,
                once.quarterly_licensed,
                label,
            )
            &&& gain(start.quarterly_sorn, twice.quarterly_sorn, label) == 2 * gain(
                start.quarterly_sorn,
                once.quarterly_sorn,
                label,
            )
            &&& gain(start.first_reg_licensed, twice.first_reg_licensed, label) == 2 * gain(
                start.first_reg_licensed,
                once.first_reg_licensed,
                label,
            )
            &&& gain(start.first_reg_sorn, twice.first_reg_sorn, label) == 2 * gain(
                start.first_reg_sorn,
                once.first_reg_sorn,
                label,
            )
            &&& gain(start.manufacture_licensed, twice.manufacture_licensed, label) == 2 * gain(
                start.manufacture_licensed,
                once.manufacture_licensed,
                label,
            )
            &&& gain(start.manufacture_sorn, twice.manufacture_sorn, label) == 2 * gain(
                start.manufacture_sorn,
                once.manufacture_sorn,
                label,
            )
            &&& gain(start.new_reg, twice.new_reg, label) == 2 * gain(
                start.new_reg,
                once.new_reg,
                label,
            )
            &&& gain(start.petrol_licensed, twice.petrol_licensed, label) == 2 * gain(
                start.petrol_licensed,
                once.petrol_licensed,
                label,
            )
            &&& gain(start.petrol_sorn, twice.petrol_sorn, label) == 2 * gain(
                start.petrol_sorn,
                once.petrol_sorn,
                label,
            )
            &&& gain(start.diesel_licensed, twice.diesel_licensed, label) == 2 * gain(
                start.diesel_licensed,
                once.diesel_licensed,
                label,
            )
            &&& gain(start.diesel_sorn, twice.diesel_sorn, label) == 2 * gain(
                start.diesel_sorn,
                once.diesel_sorn,
                label,
            )
            &&& gain(start.other_licensed, twice.other_licensed, label) == 2 * gain(
                start.other_licensed,
                once.other_licensed,
                label,
            )
            &&& gain(start.other_sorn, twice.other_sorn, label) == 2 * gain(
                start.other_sorn,
                once.other_sorn,
                label,
            )
        }
}

/// Merging the period columns of a row twice brings each label double of
/// what merging them once brings.
pub proof fn lemma_merge_periods_twice(
    series: Map<Seq<char>, int>,
    columns: Seq<(Seq<char>, int)>,
    gb_only: bool,
)
    requires
        merge_periods(series, columns, gb_only).1,
        merge_periods(merge_periods(series, columns, gb_only).0, columns, gb_only).1,
    ensures
        forall|label: Seq<char>|
            #[trigger] gain(
                series,
                merge_periods(merge_periods(series, columns, gb_only).0, columns, gb_only).0,
                label,
            ) == 2 * gain(series, merge_periods(series, columns, gb_only).0, label),
{
    let once = merge_periods(series, columns, gb_only).0;
    let twice = merge_periods(once, columns, gb_only).0;
    lemma_merge_periods_adds(series, columns, gb_only);
    lemma_merge_periods_adds(once, columns, gb_only);
    assert forall|label: Seq<char>| #[trigger]
        gain(series, twice, label) == 2 * gain(series, once, label) by {
        assert(count_of(once, label) == count_of(series, label) + period_total(
            columns,
            gb_only,
            label,
        ));
        assert(count_of(twice, label) == count_of(once, label) + period_total(
            columns,
            gb_only,
            label,
        ));
    }
}

/// A quarterly row merged twice doubles what it brings to every label.
pub proof fn lemma_veh0120_twice(stats: StatsView, row: &Veh0120, gb_only: bool)
    requires
        merged_veh0120(stats, row, gb_only).1,
        merged_veh0120(merged_veh0120(stats, row, gb_only).0, row, gb_only).1,
    ensures
        doubled(
            stats,
            merged_veh0120(stats, row, gb_only).0,
            merged_veh0120(merged_veh0120(stats, row, gb_only).0, row, gb_only).0,
        ),
{
    match row.licence_status {
        LicenceStatus::Licensed => {
            lemma_merge_periods_twice(stats.quarterly_licensed, cells(row.extra@), gb_only);
        },
        LicenceStatus::SORN => {
            lemma_merge_periods_twice(stats.quarterly_sorn, cells(row.extra@), gb_only);
        },
    }
}

/// A row of first registrations merged twice doubles what it brings to
/// every label.
pub proof fn lemma_veh0160_twice(stats: StatsView, row: &Veh0160, gb_only: bool)
    requires
        merged_veh0160(stats, row, gb_only).1,
        merged_veh0160(merged_veh0160(stats, row, gb_only).0, row, gb_only).1,
    ensures
        doubled(
            stats,
            merged_veh0160(stats, row, gb_only).0,
            merged_veh0160(merged_veh0160(stats, row, gb_only).0, row, gb_only).0,
        ),
{
    lemma_merge_periods_twice(stats.new_reg, cells(row.extra@), gb_only);
}

/// A row of the year tables merged twice doubles what it brings to every
/// label.
pub proof fn lemma_veh0124_twice(stats: StatsView, row: &Veh0124)
    requires
        merged_veh0124(stats, row).1,
        merged_veh0124(merged_veh0124(stats, row).0, row).1,
    ensures
        doubled(
            stats,
            merged_veh0124(stats, row).0,
            merged_veh0124(merged_veh0124(stats, row).0, row).0,
        ),
{
}

/// A row of the engine-size table merged twice doubles what it brings to
/// every label.
pub proof fn lemma_veh0220_twice(stats: StatsView, row: &Veh0220)
    requires
        merged_veh0220(stats, row).1,
        merged_veh0220(merged_veh0220(stats, row).0, row).1,
    ensures
        doubled(
            stats,
            merged_veh0220(stats, row).0,
            merged_veh0220(merged_veh0220(stats, row).0, row).0,
        ),
{
}

} // verus!
