//! Timers.

use vstd::prelude::*;
use crate::shape::{Shape, ShapeBase};
use crate::util::TICKS_PER_SECOND;

verus! {

pub const DEFAULT_TIMER_COLOR: &'static str = "df7f00";

pub const TIMER_UUID: &'static str = "8f7fd0e7-c46e-4944-a414-7ce2437bb30f";

/// Represents the timer of the game: a delay of `seconds` seconds and
/// `ticks` ticks.
#[derive(Debug, Clone, Copy)]
pub struct Timer {
    pub seconds: u32,
    pub ticks: u32,
}

impl Timer {
    /// A timer that delays by `ticks` ticks in all.
    pub fn new(ticks: u32) -> (shape: Shape)
        ensures
            shape@ == Shape::fresh(
                ShapeBase::Timer(
                    Timer { seconds: ticks / TICKS_PER_SECOND, ticks: ticks % TICKS_PER_SECOND },
                ),
            ),
    {
        Timer::from_time(ticks / TICKS_PER_SECOND, ticks % TICKS_PER_SECOND)
    }

    /// A timer that delays by `seconds` seconds and `ticks` ticks.
    pub fn from_time(seconds: u32, ticks: u32) -> (shape: Shape)
        ensures
            shape@ == Shape::fresh(ShapeBase::Timer(Timer { seconds, ticks })),
    {
        Shape::new(ShapeBase::Timer(Timer { seconds, ticks }))
    }
}

} // verus!
