//! Logic gates.

use vstd::prelude::*;
use crate::shape::{Shape, ShapeBase};

verus! {

pub const DEFAULT_GATE_COLOR: &'static str = "df7f00";

pub const GATE_UUID: &'static str = "9f0f56e8-2c31-4d83-996c-d00a9b296c3f";

/// Represents all possible states of a logic gate.
#[derive(Debug, Clone, Copy, PartialEq, Eq, Structural)]
pub enum GateMode {
    AND,
    OR,
    XOR,
    NAND,
    NOR,
    XNOR,
}

impl GateMode {
    /// The number that stands for the mode in a blueprint.
    pub open spec fn number(self) -> usize {
        match self {
            GateMode::AND => 0,
            GateMode::OR => 1,
            GateMode::XOR => 2,
            GateMode::NAND => 3,
            GateMode::NOR => 4,
            GateMode::XNOR => 5,
        }
    }

    /// In a blueprint the state of a logic gate is contained as number, this
    /// method returns corresponding number.
    pub fn to_number(self) -> (number: usize)
        ensures
            number == self.number(),
    {
        match self {
            GateMode::AND => 0,
            GateMode::OR => 1,
            GateMode::XOR => 2,
            GateMode::NAND => 3,
            GateMode::NOR => 4,
            GateMode::XNOR => 5,
        }
    }

    /// A gate of this mode.
    pub fn into_shape(self) -> (shape: Shape)
        ensures
            shape@ == Shape::fresh(ShapeBase::Gate(Gate { mode: self })),
    {
        Gate::new(self)
    }
}

/// Represents the logic gate of the game.
#[derive(Debug, Clone, Copy)]
pub struct Gate {
    pub mode: GateMode,
}

impl Gate {
    /// A gate of the given mode.
    pub fn new(mode: GateMode) -> (shape: Shape)
        ensures
            shape@ == Shape::fresh(ShapeBase::Gate(Gate { mode })),
    {
        Shape::new(ShapeBase::Gate(Gate { mode }))
    }
}

} // verus!
