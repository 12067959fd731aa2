//! The data that flows through the bridge: what the logger reports, and what
//! is written to the gauge store.
//!
//! A 64-bit float is held as its IEEE 754 bit pattern in a `u64`
//! (`f64::to_bits`, `f64::from_bits`), so every value here is compared and
//! stored exactly.

use vstd::prelude::*;

verus! {

/// The `value` field of a measurement, as far as the bridge tells values apart.
#[derive(Clone, Copy, Debug, PartialEq, Eq, Structural)]
pub enum RawValue {
    /// A JSON number that a 64-bit float stands for, given as that float's
    /// bit pattern.
    Number(u64),
    /// A JSON number that no 64-bit float stands for.
    UnrepresentableNumber,
    /// Any other JSON value: a string, a boolean, `null`, an array or an
    /// object.
    Other,
}

/// One entry of the logger's answer.
#[derive(Clone, Debug, PartialEq, Eq)]
pub struct RawMeasurement {
    pub name: String,
    pub value: RawValue,
    pub unit: Option<String>,
}

/// The mathematical content of a [`RawMeasurement`].
pub struct RawMeasurementView {
    pub name: Seq<char>,
    pub value: RawValue,
    pub unit: Option<Seq<char>>,
}

impl View for RawMeasurement {
    type V = RawMeasurementView;

    open spec fn view(&self) -> RawMeasurementView {
        RawMeasurementView {
            name: self.name@,
            value: self.value,
            unit: match self.unit {
                Some(u) => Some(u@),
                None => None,
            },
        }
    }
}

impl DeepView for RawMeasurement {
    type V = RawMeasurementView;

    open spec fn deep_view(&self) -> RawMeasurementView {
        self@
    }
}

/// A gauge name together with the value to store under it.
#[derive(Clone, Debug, PartialEq, Eq)]
pub struct GaugeUpdate {
    pub metric_name: String,
    /// The bit pattern of the 64-bit float to store.
    pub value_bits: u64,
}

/// The mathematical content of a [`GaugeUpdate`].
pub struct GaugeUpdateView {
    pub metric_name: Seq<char>,
    pub value_bits: u64,
}

impl View for GaugeUpdate {
    type V = GaugeUpdateView;

    open spec fn view(&self) -> GaugeUpdateView {
        GaugeUpdateView { metric_name: self.metric_name@, value_bits: self.value_bits }
    }
}

impl DeepView for GaugeUpdate {
    type V = GaugeUpdateView;

    open spec fn deep_view(&self) -> GaugeUpdateView {
        self@
    }
}

/// The names of a sequence of updates, in its order.
pub open spec fn names_of(updates: Seq<GaugeUpdateView>) -> Seq<Seq<char>> {
    updates.map_values(|u: GaugeUpdateView| u.metric_name)
}

impl GaugeUpdate {
    /// A copy of this update.
    pub fn duplicate(&self) -> (r: GaugeUpdate)
        ensures
            r@ == self@,
    {
        GaugeUpdate { metric_name: self.metric_name.clone(), value_bits: self.value_bits }
    }
}

} // verus!
