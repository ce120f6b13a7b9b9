//! Units: the atomic parts that a scheme is made of.
//!
//! A unit has a kind, which fixes its size and whether it takes and gives
//! connections, a list of the units it is connected to, and optionally a
//! colour of its own.

use vstd::prelude::*;
use vstd::string::*;
use crate::util::rot::rotation_data;
use crate::util::{Bounds, Point, Rot};

pub mod vanilla;

use vanilla::{
    BlockBody, CharacterShape, Gate, Timer, TotebotCapsule, CHARACTER_SHAPE_UUID,
    DEFAULT_CHARACTER_SHAPE_COLOR, DEFAULT_GATE_COLOR, DEFAULT_TIMER_COLOR,
    DEFAULT_TOTEBOT_CAP_COLOR, GATE_UUID, TIMER_UUID, TOTEBOT_CAP_UUID,
};

verus! {

/// The kinds of units.
///
/// `size` is the physical size of the unit when it is not rotated.
/// `has_input` tells if other units can be connected into this one,
/// `has_output` if this one can be connected into others, and `build`
/// writes the unit down as a record of the blueprint.
#[derive(Debug, Clone, Copy)]
pub enum ShapeBase {
    Gate(Gate),
    Timer(Timer),
    Block(BlockBody),
    Character(CharacterShape),
    Totebot(TotebotCapsule),
}

/// All data required to write a unit down as a record.
pub struct ShapeBuildData<'a> {
    /// All shapes ids ("controller ids"), to which shape is connected.
    pub out_conns: &'a Vec<usize>,
    /// The colour set for the shape, if any.
    pub color: &'a Option<String>,
    /// Physical position of the shape.
    pub pos: Point,
    /// Physical rotation of the shape.
    pub rot: Rot,
    /// "Controller id" of the shape.
    pub id: usize,
}

/// What the controller of a unit holds besides its id and its targets.
#[derive(Debug, Clone, Copy, PartialEq, Eq, Structural)]
pub enum ControllerDetail {
    /// A logic gate, with the number of its mode.
    Gate { mode: usize },
    /// A timer, with its delay.
    Timer { seconds: u32, ticks: u32 },
    /// A controller without data of its own.
    Plain,
    /// A container: it has no targets at all.
    Container,
}

/// The controller block of a record.
#[derive(Debug)]
pub struct ControllerRecord {
    pub id: usize,
    /// The ids of the units that this one is connected to; `None` where
    /// there are none.
    pub controllers: Option<Vec<usize>>,
    pub detail: ControllerDetail,
}

/// One unit as the blueprint holds it.
#[derive(Debug)]
pub struct ShapeRecord {
    pub color: String,
    pub shape_id: String,
    pub xaxis: i32,
    pub zaxis: i32,
    pub pos: Point,
    /// The size, for the units that the blueprint writes with one.
    pub bounds: Option<Bounds>,
    /// The controller block, for the units that have one.
    pub controller: Option<ControllerRecord>,
}

/// What a controller block holds.
pub struct ControllerView {
    pub id: usize,
    pub controllers: Option<Seq<usize>>,
    pub detail: ControllerDetail,
}

/// What a record holds.
pub struct RecordView {
    pub color: Seq<char>,
    pub shape_id: Seq<char>,
    pub xaxis: i32,
    pub zaxis: i32,
    pub pos: Point,
    pub bounds: Option<Bounds>,
    pub controller: Option<ControllerView>,
}

impl View for ControllerRecord {
    type V = ControllerView;

    open spec fn view(&self) -> ControllerView {
        ControllerView {
            id: self.id,
            controllers: match self.controllers {
                Some(list) => Some(list@),
                None => None,
            },
            detail: self.detail,
        }
    }
}

impl View for ShapeRecord {
    type V = RecordView;

    open spec fn view(&self) -> RecordView {
        RecordView {
            color: self.color@,
            shape_id: self.shape_id@,
            xaxis: self.xaxis,
            zaxis: self.zaxis,
            pos: self.pos,
            bounds: self.bounds,
            controller: match self.controller {
                Some(c) => Some(c@),
                None => None,
            },
        }
    }
}

/// The targets of a unit as a controller block lists them: `None` where the
/// unit has none.
pub open spec fn controller_targets(out_conns: Seq<usize>) -> Option<Seq<usize>> {
    if out_conns.len() > 0 {
        Some(out_conns)
    } else {
        None
    }
}

/// Converts the connections of a unit to the list of targets of its
/// controller block.
pub fn out_conns_to_controller(out_conns: &Vec<usize>) -> (targets: Option<Vec<usize>>)
    ensures
        match targets {
            Some(list) => Some(list@),
            None => None,
        } == controller_targets(out_conns@),
{
    if out_conns.len() > 0 {
        let list = out_conns.clone();
        proof {
            assert(list@ =~= out_conns@);
        }
        Some(list)
    } else {
        None
    }
}

/// The position correction that the blueprint needs for a rotation.
pub open spec fn correction(rot: Rot) -> Point {
    let (facing, orient) = rot.facing_orient();
    let d = rotation_data(facing, orient);
    Point { x: d.2, y: d.3, z: d.4 }
}

/// The position that the record of a unit at `pos` holds.
pub open spec fn record_pos(pos: Point, rot: Rot) -> (int, int, int) {
    pos.sum(correction(rot))
}

impl ShapeBase {
    /// The physical size of a unit of this kind.
    pub open spec fn size_of(self) -> Bounds {
        match self {
            ShapeBase::Gate(_) => Bounds { x: 1, y: 1, z: 1 },
            ShapeBase::Timer(_) => Bounds { x: 1, y: 1, z: 2 },
            ShapeBase::Block(body) => body.size,
            ShapeBase::Character(_) => Bounds { x: 1, y: 1, z: 1 },
            ShapeBase::Totebot(_) => Bounds { x: 7, y: 7, z: 6 },
        }
    }

    /// Other units can be connected into a unit of this kind.
    pub open spec fn takes_input(self) -> bool {
        self is Gate || self is Timer
    }

    /// A unit of this kind can be connected into other units.
    pub open spec fn gives_output(self) -> bool {
        self is Gate || self is Timer
    }

    /// The identifier of the kind in a blueprint.
    pub open spec fn shape_id(self) -> &'static str {
        match self {
            ShapeBase::Gate(_) => GATE_UUID,
            ShapeBase::Timer(_) => TIMER_UUID,
            ShapeBase::Block(body) => body.block_type.uuid_of(),
            ShapeBase::Character(_) => CHARACTER_SHAPE_UUID,
            ShapeBase::Totebot(_) => TOTEBOT_CAP_UUID,
        }
    }

    /// The colour of an unpainted unit of this kind.
    pub open spec fn default_color(self) -> &'static str {
        match self {
            ShapeBase::Gate(_) => DEFAULT_GATE_COLOR,
            ShapeBase::Timer(_) => DEFAULT_TIMER_COLOR,
            ShapeBase::Block(body) => body.block_type.default_color_of(),
            ShapeBase::Character(_) => DEFAULT_CHARACTER_SHAPE_COLOR,
            ShapeBase::Totebot(_) => DEFAULT_TOTEBOT_CAP_COLOR,
        }
    }

    /// The controller block of a unit of this kind.
    pub open spec fn controller(self, id: usize, out_conns: Seq<usize>) -> Option<ControllerView> {
        match self {
            ShapeBase::Gate(gate) => Some(
                ControllerView {
                    id,
                    controllers: controller_targets(out_conns),
                    detail: ControllerDetail::Gate { mode: gate.mode.number() },
                },
            ),
            ShapeBase::Timer(timer) => Some(
                ControllerView {
                    id,
                    controllers: controller_targets(out_conns),
                    detail: ControllerDetail::Timer { seconds: timer.seconds, ticks: timer.ticks },
                },
            ),
            ShapeBase::Block(_) => None,
            ShapeBase::Character(_) => Some(
                ControllerView {
                    id,
                    controllers: controller_targets(out_conns),
                    detail: ControllerDetail::Plain,
                },
            ),
            ShapeBase::Totebot(_) => Some(
                ControllerView { id, controllers: None, detail: ControllerDetail::Container },
            ),
        }
    }

    /// The record of a unit of this kind: its colour (its own, or that of
    /// its kind), the identifier of its kind, the encoding of its rotation,
    /// its position with the correction that the rotation asks for, its size
    /// if it is a block, and its controller block.
    pub open spec fn record(
        self,
        out_conns: Seq<usize>,
        color: Option<Seq<char>>,
        pos: Point,
        rot: Rot,
        id: usize,
    ) -> RecordView {
        let (facing, orient) = rot.facing_orient();
        let d = rotation_data(facing, orient);
        RecordView {
            color: match color {
                Some(c) => c,
                None => self.default_color()@,
            },
            shape_id: self.shape_id()@,
            xaxis: d.0,
            zaxis: d.1,
            pos: Point::of(record_pos(pos, rot)),
            bounds: match self {
                ShapeBase::Block(body) => Some(body.size),
                _ => None,
            },
            controller: self.controller(id, out_conns),
        }
    }

    /// The physical size of the unit.
    pub fn size(&self) -> (size: Bounds)
        ensures
            size == self.size_of(),
    {
        match self {
            ShapeBase::Gate(_) => Bounds { x: 1, y: 1, z: 1 },
            ShapeBase::Timer(_) => Bounds { x: 1, y: 1, z: 2 },
            ShapeBase::Block(body) => body.size,
            ShapeBase::Character(_) => Bounds { x: 1, y: 1, z: 1 },
            ShapeBase::Totebot(_) => Bounds { x: 7, y: 7, z: 6 },
        }
    }

    pub fn has_input(&self) -> (yes: bool)
        ensures
            yes == self.takes_input(),
    {
        match self {
            ShapeBase::Gate(_) => true,
            ShapeBase::Timer(_) => true,
            _ => false,
        }
    }

    pub fn has_output(&self) -> (yes: bool)
        ensures
            yes == self.gives_output(),
    {
        match self {
            ShapeBase::Gate(_) => true,
            ShapeBase::Timer(_) => true,
            _ => false,
        }
    }

    /// Writes the unit down as a record of the blueprint.
    pub fn build(&self, data: ShapeBuildData) -> (record: ShapeRecord)
        requires
            Point::holds(record_pos(data.pos, data.rot)),
        ensures
            record@ == self.record(
                data.out_conns@,
                match *data.color {
                    Some(c) => Some(c@),
                    None => None,
                },
                data.pos,
                data.rot,
                data.id,
            ),
    {
        let (xaxis, zaxis, offset) = data.rot.to_sm_data();
        let pos = data.pos.plus(offset);
        let shape_id: &'static str = match self {
            ShapeBase::Gate(_) => GATE_UUID,
            ShapeBase::Timer(_) => TIMER_UUID,
            ShapeBase::Block(body) => body.block_type.uuid(),
            ShapeBase::Character(_) => CHARACTER_SHAPE_UUID,
            ShapeBase::Totebot(_) => TOTEBOT_CAP_UUID,
        };
        let color: String = match data.color {
            Some(c) => c.clone(),
            None => {
                let default: &'static str = match self {
                    ShapeBase::Gate(_) => DEFAULT_GATE_COLOR,
                    ShapeBase::Timer(_) => DEFAULT_TIMER_COLOR,
                    ShapeBase::Block(body) => body.block_type.default_color(),
                    ShapeBase::Character(_) => DEFAULT_CHARACTER_SHAPE_COLOR,
                    ShapeBase::Totebot(_) => DEFAULT_TOTEBOT_CAP_COLOR,
                };
                default.to_owned()
            },
        };
        let controller = match self {
            ShapeBase::Gate(gate) => Some(
                ControllerRecord {
                    id: data.id,
                    controllers: out_conns_to_controller(data.out_conns),
                    detail: ControllerDetail::Gate { mode: gate.mode.to_number() },
                },
            ),
            ShapeBase::Timer(timer) => Some(
                ControllerRecord {
                    id: data.id,
                    controllers: out_conns_to_controller(data.out_conns),
                    detail: ControllerDetail::Timer { seconds: timer.seconds, ticks: timer.ticks },
                },
            ),
            ShapeBase::Block(_) => None,
            ShapeBase::Character(_) => Some(
                ControllerRecord {
                    id: data.id,
                    controllers: out_conns_to_controller(data.out_conns),
                    detail: ControllerDetail::Plain,
                },
            ),
            ShapeBase::Totebot(_) => Some(
                ControllerRecord {
                    id: data.id,
                    controllers: None,
                    detail: ControllerDetail::Container,
                },
            ),
        };
        ShapeRecord {
            color,
            shape_id: shape_id.to_owned(),
            xaxis,
            zaxis,
            pos,
            bounds: match self {
                ShapeBase::Block(body) => Some(body.size),
                _ => None,
            },
            controller,
        }
    }
}

/// Represents in-game blocks and parts. Can be connected to other
/// shapes (`out_conns`). Can be painted (`color`).
#[derive(Debug)]
pub struct Shape {
    pub base: ShapeBase,
    /// The units that this one is connected to, by their index in the unit
    /// list of the scheme.
    pub out_conns: Vec<usize>,
    pub color: Option<String>,
    /// The unit stays in its scheme even if nothing uses it.
    pub forcibly_used: bool,
}

/// What a unit is: its kind, its connections, its colour and whether it is
/// kept by force.
pub struct ShapeView {
    pub base: ShapeBase,
    pub conns: Seq<usize>,
    pub color: Option<Seq<char>>,
    pub forced: bool,
}

/// The view of an optional colour.
pub open spec fn color_view(color: Option<String>) -> Option<Seq<char>> {
    match color {
        Some(c) => Some(c@),
        None => None,
    }
}

impl View for Shape {
    type V = ShapeView;

    open spec fn view(&self) -> ShapeView {
        ShapeView {
            base: self.base,
            conns: self.out_conns@,
            color: color_view(self.color),
            forced: self.forcibly_used,
        }
    }
}

impl Clone for Shape {
    fn clone(&self) -> (copy: Self)
        ensures
            copy@ == self@,
    {
        let out_conns = self.out_conns.clone();
        proof {
            assert(out_conns@ =~= self.out_conns@);
        }
        Shape {
            base: self.base,
            out_conns,
            color: match &self.color {
                Some(c) => Some(c.clone()),
                None => None,
            },
            forcibly_used: self.forcibly_used,
        }
    }
}

impl Shape {
    /// A unit of the given kind as it is made: without connections, without
    /// a colour of its own, and not kept by force.
    pub open spec fn fresh(base: ShapeBase) -> ShapeView {
        ShapeView { base, conns: Seq::empty(), color: None, forced: false }
    }

    pub fn new(base: ShapeBase) -> (shape: Shape)
        ensures
            shape@ == Self::fresh(base),
    {
        Shape { base, out_conns: Vec::new(), color: None, forcibly_used: false }
    }

    /// Adds connection from this shape to given controller id.
    pub fn push_conn(&mut self, controller_id: usize)
        ensures
            final(self)@ == (ShapeView {
                conns: old(self)@.conns.push(controller_id),
                ..old(self)@
            }),
    {
        self.out_conns.push(controller_id);
    }

    /// Adds multiple connections. Is not meant to be used without
    /// context of other shapes with their own unique ids.
    pub fn extend_conn(&mut self, controller_ids: &Vec<usize>)
        ensures
            final(self)@ == (ShapeView {
                conns: old(self)@.conns + controller_ids@,
                ..old(self)@
            }),
    {
        let ghost before = self.out_conns@;
        let mut i: usize = 0;
        while i < controller_ids.len()
            invariant
                i <= controller_ids.len(),
                self.base == old(self).base,
                self.color == old(self).color,
                self.forcibly_used == old(self).forcibly_used,
                self.out_conns@ == before + controller_ids@.take(i as int),
            decreases controller_ids.len() - i,
        {
            self.out_conns.push(controller_ids[i]);
            i += 1;
            proof {
                assert(self.out_conns@ =~= before + controller_ids@.take(i as int));
            }
        }
        proof {
            assert(controller_ids@.take(i as int) =~= controller_ids@);
        }
    }

    /// Forces the color of the shape.
    pub fn set_color(&mut self, color: String)
        ensures
            final(self)@ == (ShapeView { color: Some(color@), ..old(self)@ }),
    {
        self.color = Some(color);
    }

    /// The colour set for the shape, if any.
    pub fn get_color(&self) -> (color: &Option<String>)
        ensures
            color_view(*color) == self@.color,
    {
        &self.color
    }

    /// The units that this one is connected to.
    pub fn connections(&self) -> (conns: &Vec<usize>)
        ensures
            conns@ == self@.conns,
    {
        &self.out_conns
    }

    /// Mutable getter.
    pub fn connections_mut(&mut self) -> (conns: &mut Vec<usize>)
        ensures
            conns@ == old(self)@.conns,
            final(self)@ == (ShapeView { conns: final(conns)@, ..old(self)@ }),
    {
        &mut self.out_conns
    }

    /// Returns physical bounds of the shape.
    pub fn bounds(&self) -> (size: Bounds)
        ensures
            size == self@.base.size_of(),
    {
        self.base.size()
    }

    /// Returns physical size of the shape.
    pub fn size(&self) -> (size: Bounds)
        ensures
            size == self@.base.size_of(),
    {
        self.base.size()
    }

    pub fn has_input(&self) -> (yes: bool)
        ensures
            yes == self@.base.takes_input(),
    {
        self.base.has_input()
    }

    pub fn has_output(&self) -> (yes: bool)
        ensures
            yes == self@.base.gives_output(),
    {
        self.base.has_output()
    }

    /// The unit stays in its scheme even if nothing uses it.
    pub fn is_forcibly_used(&self) -> (forced: bool)
        ensures
            forced == self@.forced,
    {
        self.forcibly_used
    }

    pub fn set_forcibly_used(&mut self)
        ensures
            final(self)@ == (ShapeView { forced: true, ..old(self)@ }),
    {
        self.forcibly_used = true;
    }

    pub fn unset_forcibly_used(&mut self)
        ensures
            final(self)@ == (ShapeView { forced: false, ..old(self)@ }),
    {
        self.forcibly_used = false;
    }

    /// The record of the unit when it stands at `pos`, turned by `rot`, as
    /// the unit number `id`.
    pub open spec fn record(self, pos: Point, rot: Rot, id: usize) -> RecordView {
        self@.base.record(self@.conns, self@.color, pos, rot, id)
    }

    /// Writes the shape down as a record of the blueprint.
    pub fn build(&self, pos: Point, rot: Rot, id: usize) -> (record: ShapeRecord)
        requires
            Point::holds(record_pos(pos, rot)),
        ensures
            record@ == self.record(pos, rot, id),
    {
        let data = ShapeBuildData { out_conns: &self.out_conns, color: &self.color, pos, rot, id };
        self.base.build(data)
    }
}

} // verus!
