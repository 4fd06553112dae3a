//! A thermal bath for spin systems: a temperature and an external magnetic
//! field. Thermostats are replaced, never mutated: every change returns a
//! fresh value.

use vstd::prelude::*;
use crate::fixed::Fixed;
use crate::state::{Field, Spin};

verus! {

/// The largest admissible temperature, in fixed-point units.
pub const MAX_TEMPERATURE: i64 = 0x100_0000_0000;

/// The largest admissible external-field magnitude, in fixed-point units.
pub const MAX_FIELD: i64 = 0x40_0000;

/// A thermostat: a strictly positive temperature and an external field.
#[derive(Clone, Copy, Debug)]
pub struct Thermostat<S: Spin> {
    temperature: Fixed,
    field: Field<S>,
}

/// A temperature clamped from below to the smallest positive fixed-point
/// number, so that acceptance ratios stay evaluable.
pub open spec fn clamped(t: Fixed) -> Fixed {
    if t.units < 1 {
        Fixed { units: 1 }
    } else {
        t
    }
}

impl<S: Spin> Thermostat<S> {
    /// The thermostat's temperature.
    pub closed spec fn temperature_spec(&self) -> Fixed {
        self.temperature
    }

    /// The thermostat's field.
    pub closed spec fn field_spec(&self) -> Field<S> {
        self.field
    }

    /// A thermostat is well formed when its temperature is positive and not
    /// absurdly large, and its field is well formed and bounded.
    pub open spec fn wf(&self) -> bool {
        &&& 1 <= self.temperature_spec().units <= MAX_TEMPERATURE
        &&& self.field_spec().wf()
        &&& self.field_spec().magnitude.units <= MAX_FIELD
    }

    /// A thermostat with the given temperature, clamped to stay positive,
    /// and the given field.
    pub fn new(temperature: Fixed, field: Field<S>) -> (r: Self)
        ensures
            r.temperature_spec() == clamped(temperature),
            r.field_spec() == field,
    {
        let temp = if temperature.units < 1 {
            Fixed { units: 1 }
        } else {
            temperature
        };
        Thermostat { temperature: temp, field }
    }

    /// A thermostat with temperature near zero and no field.
    pub fn near_zero() -> (r: Self)
        ensures
            r.temperature_spec().units == 1,
            r.field_spec().orientation == S::up_spec(),
            r.field_spec().magnitude.units == 0,
            r.wf(),
    {
        Thermostat { temperature: Fixed { units: 1 }, field: Field::zero() }
    }

    /// The same field at another temperature, clamped to stay positive.
    pub fn with_temperature(&self, temperature: Fixed) -> (r: Self)
        ensures
            r.temperature_spec() == clamped(temperature),
            r.field_spec() == self.field_spec(),
    {
        let temp = if temperature.units < 1 {
            Fixed { units: 1 }
        } else {
            temperature
        };
        Thermostat { temperature: temp, field: self.field }
    }

    /// The same temperature in another field.
    pub fn with_field(&self, field: Field<S>) -> (r: Self)
        ensures
            r.temperature_spec() == self.temperature_spec(),
            r.field_spec() == field,
    {
        Thermostat { temperature: self.temperature, field }
    }

    /// The temperature of the thermostat.
    pub fn temperature(&self) -> (r: Fixed)
        ensures
            r == self.temperature_spec(),
    {
        self.temperature
    }

    /// The field of the thermostat.
    pub fn field(&self) -> (r: &Field<S>)
        ensures
            *r == self.field_spec(),
    {
        &self.field
    }
}

} // verus!
