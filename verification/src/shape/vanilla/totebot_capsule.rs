//! The totebot capsule.

use vstd::prelude::*;
use crate::shape::{Shape, ShapeBase};

verus! {

pub const DEFAULT_TOTEBOT_CAP_COLOR: &'static str = "49642d";

pub const TOTEBOT_CAP_UUID: &'static str = "34d22fc5-0a45-4d71-9aaf-64df1355c272";

/// A container of seven by seven by six cells.
#[derive(Debug, Clone, Copy)]
pub struct TotebotCapsule {}

impl TotebotCapsule {
    pub fn new() -> (shape: Shape)
        ensures
            shape@ == Shape::fresh(ShapeBase::Totebot(TotebotCapsule {  })),
    {
        Shape::new(ShapeBase::Totebot(TotebotCapsule {  }))
    }
}

} // verus!
