//! The character shape.

use vstd::prelude::*;
use crate::shape::{Shape, ShapeBase};

verus! {

pub const DEFAULT_CHARACTER_SHAPE_COLOR: &'static str = "df7f00";

pub const CHARACTER_SHAPE_UUID: &'static str = "9f0f56e8-2c31-4d83-996c-d00a9b296c3f";

/// A unit that takes no connections and gives none.
#[derive(Debug, Clone, Copy)]
pub struct CharacterShape {}

impl CharacterShape {
    /// The character unit: the kind has no settings, so there is one.
    pub fn new() -> (base: CharacterShape)
        ensures
            base == (CharacterShape {  }),
    {
        CharacterShape {  }
    }

    /// The shape of this kind.
    pub fn into_shape(self) -> (shape: Shape)
        ensures
            shape@ == Shape::fresh(ShapeBase::Character(self)),
    {
        Shape::new(ShapeBase::Character(self))
    }
}

} // verus!
