//! The units of the unmodified game.

pub mod block;
pub mod character_shape;
pub mod gate;
pub mod timer;
pub mod totebot_capsule;

pub use block::{BlockBody, BlockType};
pub use character_shape::{CharacterShape, CHARACTER_SHAPE_UUID, DEFAULT_CHARACTER_SHAPE_COLOR};
pub use gate::{Gate, GateMode, DEFAULT_GATE_COLOR, GATE_UUID};
pub use timer::{Timer, DEFAULT_TIMER_COLOR, TIMER_UUID};
pub use totebot_capsule::{TotebotCapsule, DEFAULT_TOTEBOT_CAP_COLOR, TOTEBOT_CAP_UUID};
