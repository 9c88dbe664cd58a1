//! The rows of the source tables, as their reader hands them over.

use vstd::prelude::*;

verus! {

#[derive(Debug, Clone, Copy, PartialEq, Eq, Structural)]
pub enum BodyType {
    Cars,
    Motorcycles,
    Buses,
    LightGoods,
    HeavyGoods,
    Other,
}

#[derive(Debug, Clone, Copy, PartialEq, Eq, Structural)]
pub enum FuelType {
    Petrol,
    Diesel,
    Gas,
    BEV,
    PetrolHybrid,
    DieselHybrid,
    PetrolPluginHybrid,
    DieselPluginHybrid,
    FuelCell,
    RangeExtender,
    Other,
}

#[derive(Debug, Clone, Copy, PartialEq, Eq, Structural)]
pub enum LicenceStatus {
    Licensed,
    SORN,
}

/// A cell that holds a number, or a flag where the table has none.
#[derive(Debug, Clone, Copy, PartialEq, Eq, Structural)]
pub enum OptionalNumber {
    Count(i32),
    Flag(FlagType),
}

#[derive(Debug, Clone, Copy, PartialEq, Eq, Structural)]
pub enum FlagType {
    NotAvailable,
    NotApplicable,
}

/// The three names that say which make, generic model and model a row
/// counts.
#[derive(Debug, Clone, Copy)]
pub struct VehicleIdentity<'a> {
    pub make: &'a str,
    pub generic_model: &'a str,
    pub model: &'a str,
}

/// The names of a [`VehicleIdentity`] as character sequences.
pub struct IdentityView {
    pub make: Seq<char>,
    pub generic_model: Seq<char>,
    pub model: Seq<char>,
}

impl<'a> View for VehicleIdentity<'a> {
    type V = IdentityView;

    open spec fn view(&self) -> IdentityView {
        IdentityView { make: self.make@, generic_model: self.generic_model@, model: self.model@ }
    }
}

/// Licensed or SORN vehicles by quarter. `extra` holds the period columns
/// in the order of the table: the column's name and its count.
#[derive(Debug, Clone)]
pub struct Veh0120 {
    pub body_type: BodyType,
    pub make: String,
    pub generic_model: String,
    pub model: String,
    pub fuel: FuelType,
    pub licence_status: LicenceStatus,
    pub extra: Vec<(String, i32)>,
}

/// Licensed or SORN vehicles by year of manufacture and of first use.
#[derive(Debug, Clone)]
pub struct Veh0124 {
    pub body_type: BodyType,
    pub make: String,
    pub generic_model: String,
    pub model: String,
    pub first_used: OptionalNumber,
    pub manufactured: OptionalNumber,
    pub licence_status: LicenceStatus,
    pub extra: Vec<(String, OptionalNumber)>,
}

/// Vehicles registered for the first time, by quarter.
#[derive(Debug, Clone)]
pub struct Veh0160 {
    pub body_type: BodyType,
    pub make: String,
    pub generic_model: String,
    pub model: String,
    pub fuel: FuelType,
    pub extra: Vec<(String, i32)>,
}

/// Licensed or SORN vehicles by fuel and engine size.
#[derive(Debug, Clone)]
pub struct Veh0220 {
    pub body_type: BodyType,
    pub make: String,
    pub generic_model: String,
    pub model: String,
    pub fuel: FuelType,
    pub engine_size_simple: OptionalNumber,
    pub engine_size_desc: String,
    pub licence_status: LicenceStatus,
    pub extra: Vec<(String, i32)>,
}

/// A row that names the vehicle it counts.
pub trait HasIdentity {
    /// The names the row carries.
    spec fn names(&self) -> IdentityView;

    fn identity(&self) -> (id: VehicleIdentity<'_>)
        ensures
            id@ == self.names(),
    ;
}

impl HasIdentity for Veh0120 {
    open spec fn names(&self) -> IdentityView {
        IdentityView { make: self.make@, generic_model: self.generic_model@, model: self.model@ }
    }

    fn identity(&self) -> (id: VehicleIdentity<'_>) {
        VehicleIdentity {
            make: self.make.as_str(),
            generic_model: self.generic_model.as_str(),
            model: self.model.as_str(),
        }
    }
}

impl HasIdentity for Veh0124 {
    open spec fn names(&self) -> IdentityView {
        IdentityView { make: self.make@, generic_model: self.generic_model@, model: self.model@ }
    }

    fn identity(&self) -> (id: VehicleIdentity<'_>) {
        VehicleIdentity {
            make: self.make.as_str(),
            generic_model: self.generic_model.as_str(),
            model: self.model.as_str(),
        }
    }
}

impl HasIdentity for Veh0160 {
    open spec fn names(&self) -> IdentityView {
        IdentityView { make: self.make@, generic_model: self.generic_model@, model: self.model@ }
    }

    fn identity(&self) -> (id: VehicleIdentity<'_>) {
        VehicleIdentity {
            make: self.make.as_str(),
            generic_model: self.generic_model.as_str(),
            model: self.model.as_str(),
        }
    }
}

impl HasIdentity for Veh0220 {
    open spec fn names(&self) -> IdentityView {
        IdentityView { make: self.make@, generic_model: self.generic_model@, model: self.model@ }
    }

    fn identity(&self) -> (id: VehicleIdentity<'_>) {
        VehicleIdentity {
            make: self.make.as_str(),
            generic_model: self.generic_model.as_str(),
            model: self.model.as_str(),
        }
    }
}

/// The columns of a row as plain values: name and count.
pub open spec fn cells(extra: Seq<(String, i32)>) -> Seq<(Seq<char>, int)> {
    Seq::new(extra.len(), |i: int| (extra[i].0@, extra[i].1 as int))
}

/// The first column called `name`, if the row has one.
pub open spec fn first_under<V>(extra: Seq<(String, V)>, name: Seq<char>) -> Option<V>
    decreases extra.len(),
{
    if extra.len() == 0 {
        None
    } else if extra[0].0@ == name {
        Some(extra[0].1)
    } else {
        first_under(extra.drop_first(), name)
    }
}

/// Looks up the first column called `name`.
pub fn cell_named<'a, V>(extra: &'a Vec<(String, V)>, name: &str) -> (r: Option<&'a V>)
    ensures
        match r {
            Some(v) => first_under(extra@, name@) == Some(*v),
            None => first_under(extra@, name@) is None,
        },
{
    let mut i: usize = 0;
    assert(extra@.skip(0) =~= extra@);
    while i < extra.len()
        invariant
            i <= extra.len(),
            first_under(extra@, name@) == first_under(extra@.skip(i as int), name@),
        decreases extra.len() - i,
    {
        if crate::text::same_text(extra[i].0.as_str(), name) {
            assert(extra@.skip(i as int)[0] == extra@[i as int]);
            return Some(&extra[i].1);
        }
        assert(extra@.skip(i as int).drop_first() =~= extra@.skip(i as int + 1));
        i += 1;
    }
    None
}

} // verus!
