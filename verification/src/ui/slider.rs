//! Sliders.
//!
//! Values are in billionths.

use vstd::prelude::*;

verus! {

/// A slider.
#[derive(Clone, Copy, Debug, PartialEq, Eq)]
pub struct Slider {
    pub caption: &'static str,
    pub low: i64,
    pub high: i64,
    /// Equal ways multiply the value.
    pub logarithmic: bool,
    /// It stops at whole numbers.
    pub integer: bool,
}

impl Slider {
    /// Whether this is the slider with the given caption and ends.
    pub open spec fn is(
        self,
        caption: Seq<char>,
        ends: (int, int),
        logarithmic: bool,
        integer: bool,
    ) -> bool {
        &&& self.caption@ == caption
        &&& self.low == ends.0
        &&& self.high == ends.1
        &&& self.logarithmic == logarithmic
        &&& self.integer == integer
    }

    /// A slider with a linear scale.
    pub fn linear(caption: &'static str, low: i64, high: i64) -> (slider: Self)
        ensures
            slider.is(caption@, (low as int, high as int), false, false),
    {
        Slider { caption, low, high, logarithmic: false, integer: false }
    }

    /// A slider with a logarithmic scale.
    pub fn log(caption: &'static str, low: i64, high: i64) -> (slider: Self)
        ensures
            slider.is(caption@, (low as int, high as int), true, false),
    {
        Slider { caption, low, high, logarithmic: true, integer: false }
    }

    /// A slider that stops at whole numbers.
    pub fn whole(caption: &'static str, low: i64, high: i64, logarithmic: bool) -> (slider: Self)
        ensures
            slider.is(caption@, (low as int, high as int), logarithmic, true),
    {
        Slider { caption, low, high, logarithmic, integer: true }
    }
}

} // verus!
