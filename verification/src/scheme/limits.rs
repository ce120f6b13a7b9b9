//! Telling beforehand whether an operation on a scheme stays within the
//! 32-bit coordinates and the machine's index range.

use vstd::prelude::*;
use crate::scheme::{
    bounds_of, origin_of, unit_corners, unit_view, units_fit, units_view, Scheme, SchemeView, UnitView,
};
use crate::shape::{record_pos, Shape};
use crate::util::vec3::fits_i32;
use crate::util::{Point, Rot};

verus! {

/// Tells whether the three numbers are 32-bit values.
pub fn triple_fits(t: (i64, i64, i64)) -> (ok: bool)
    ensures
        ok == Point::holds((t.0 as int, t.1 as int, t.2 as int)),
{
    -0x8000_0000 <= t.0 && t.0 <= 0x7fff_ffff && -0x8000_0000 <= t.1 && t.1 <= 0x7fff_ffff
        && -0x8000_0000 <= t.2 && t.2 <= 0x7fff_ffff
}

/// Tells whether a unit fits: whether the corners of its box have 32-bit
/// coordinates.
pub fn unit_fits(pos: Point, rot: &Rot, shape: &Shape) -> (ok: bool)
    ensures
        ok == unit_view((pos, *rot, *shape)).fits(),
{
    let (low, high) = unit_corners(pos, rot, shape);
    triple_fits(low) && triple_fits(high)
}

/// Tells whether every unit of the list fits.
pub fn all_fit(shapes: &Vec<(Point, Rot, Shape)>) -> (ok: bool)
    ensures
        ok == units_fit(units_view(shapes@)),
{
    let ghost units = units_view(shapes@);
    let mut i: usize = 0;
    while i < shapes.len()
        invariant
            i <= shapes.len(),
            units == units_view(shapes@),
            forall|j: int| 0 <= j < i ==> (#[trigger] units[j]).fits(),
        decreases shapes.len() - i,
    {
        proof {
            assert(units[i as int] == unit_view(shapes@[i as int]));
        }
        if !unit_fits(shapes[i].0, &shapes[i].1, &shapes[i].2) {
            return false;
        }
        i += 1;
    }
    true
}

/// Tells whether a unit can be turned by `rot` as part of its scheme, and
/// fits afterwards.
fn unit_can_turn(unit: &(Point, Rot, Shape), rot: &Rot) -> (ok: bool)
    ensures
        ok == (unit_view(*unit).can_turn(*rot) && unit_view(*unit).turned(*rot).fits()),
{
    let image = rot.apply_wide((unit.0.x as i64, unit.0.y as i64, unit.0.z as i64));
    if !triple_fits(image) {
        return false;
    }
    let pos = Point { x: image.0 as i32, y: image.1 as i32, z: image.2 as i32 };
    let turned = rot.apply_to_rot(unit.1);
    unit_fits(pos, &turned, &unit.2)
}

/// Tells whether every connection of the list can be counted from
/// `start`.
fn conns_can_shift(conns: &Vec<usize>, start: usize) -> (ok: bool)
    ensures
        ok == (forall|k: int| 0 <= k < conns.len() ==> #[trigger] conns@[k] + start <= usize::MAX),
{
    let mut k: usize = 0;
    while k < conns.len()
        invariant
            k <= conns.len(),
            forall|j: int| 0 <= j < k ==> #[trigger] conns@[j] + start <= usize::MAX,
        decreases conns.len() - k,
    {
        if conns[k] > usize::MAX - start {
            return false;
        }
        k += 1;
    }
    true
}

/// Tells whether a unit can be relocated, and fits at its new place.
fn unit_fits_at(unit: &(Point, Rot, Shape), origin: Point, start: usize, pos: Point, rot: &Rot) -> (ok:
    bool)
    ensures
        ok == (unit_view(*unit).can_relocate(origin, start, pos, *rot) && unit_view(*unit).relocated(
            origin,
            start,
            pos,
            *rot,
        ).fits()),
{
    let offset = (
        unit.0.x as i64 - origin.x as i64,
        unit.0.y as i64 - origin.y as i64,
        unit.0.z as i64 - origin.z as i64,
    );
    if !triple_fits(offset) {
        return false;
    }
    let image = rot.apply_wide(offset);
    if !triple_fits(image) {
        return false;
    }
    let moved = (pos.x as i64 + image.0, pos.y as i64 + image.1, pos.z as i64 + image.2);
    if !triple_fits(moved) {
        return false;
    }
    if !conns_can_shift(&unit.2.out_conns, start) {
        return false;
    }
    let at = Point { x: moved.0 as i32, y: moved.1 as i32, z: moved.2 as i32 };
    let turned = rot.apply_to_rot(unit.1);
    let ghost there = unit_view(*unit).relocated(origin, start, pos, *rot);
    let (low, high) = unit_corners(at, &turned, &unit.2);
    proof {
        assert(there.pos == at && there.rot == turned && there.shape.base == unit.2@.base);
        assert(there.low() == unit_view((at, turned, unit.2)).low());
        assert(there.high() == unit_view((at, turned, unit.2)).high());
    }
    triple_fits(low) && triple_fits(high)
}

impl SchemeView {
    /// The scheme can be put at `pos`, turned by `rot`, as part of a
    /// larger scheme in which `start` units stand before its own: nothing
    /// overflows, and every unit fits at its new place.
    pub open spec fn fits_at(self, start: usize, pos: Point, rot: Rot) -> bool {
        self.can_relocate(start, pos, rot) && units_fit(self.relocated_units(start, pos, rot))
    }
}

impl Scheme {
    /// Tells whether the record of every unit can be written: whether
    /// `to_json_custom_colors` can be called.
    pub fn can_be_built(&self) -> (ok: bool)
        ensures
            ok == self@.can_build(),
    {
        let ghost view = self@;
        let mut i: usize = 0;
        while i < self.shapes.len()
            invariant
                i <= self.shapes.len(),
                view == self@,
                forall|j: int|
                    0 <= j < i ==> Point::holds(
                        record_pos((#[trigger] view.units[j]).pos, view.units[j].rot),
                    ),
            decreases self.shapes.len() - i,
        {
            proof {
                assert(view.units[i as int] == unit_view(self.shapes@[i as int]));
            }
            let (_, _, offset) = self.shapes[i].1.to_sm_data();
            let pos = self.shapes[i].0;
            let at = (
                pos.x as i64 + offset.x as i64,
                pos.y as i64 + offset.y as i64,
                pos.z as i64 + offset.z as i64,
            );
            if !triple_fits(at) {
                return false;
            }
            i += 1;
        }
        true
    }

    /// Tells whether the scheme can be turned by `rot`: whether `rotate`
    /// can be called.
    pub fn can_be_rotated(&self, rot: Rot) -> (ok: bool)
        ensures
            ok == self@.can_rotate(rot),
    {
        let ghost view = self@;
        let mut i: usize = 0;
        while i < self.shapes.len()
            invariant
                i <= self.shapes.len(),
                view == self@,
                forall|j: int|
                    0 <= j < i ==> (#[trigger] view.units[j]).can_turn(rot) && view.units[j].turned(
                        rot,
                    ).fits(),
            decreases self.shapes.len() - i,
        {
            proof {
                assert(view.units[i as int] == unit_view(self.shapes@[i as int]));
            }
            if !unit_can_turn(&self.shapes[i], &rot) {
                return false;
            }
            i += 1;
        }
        true
    }

    /// Tells whether the scheme can be put at `pos`, turned by `rot`, as
    /// part of a larger scheme in which `start_shape` units stand before
    /// its own.
    pub fn fits_at(&self, start_shape: usize, pos: Point, rot: Rot) -> (ok: bool)
        requires
            units_fit(self@.units),
        ensures
            ok == self@.fits_at(start_shape, pos, rot),
    {
        let ghost view = self@;
        let ghost there = view.relocated_units(start_shape, pos, rot);
        let (origin, _) = bounds_of(&self.shapes);
        let mut i: usize = 0;
        while i < self.shapes.len()
            invariant
                i <= self.shapes.len(),
                view == self@,
                origin == origin_of(view.units),
                there == view.relocated_units(start_shape, pos, rot),
                forall|j: int|
                    0 <= j < i ==> (#[trigger] view.units[j]).can_relocate(
                        origin,
                        start_shape,
                        pos,
                        rot,
                    ),
                forall|j: int| 0 <= j < i ==> (#[trigger] there[j]).fits(),
            decreases self.shapes.len() - i,
        {
            proof {
                assert(view.units[i as int] == unit_view(self.shapes@[i as int]));
                assert(there[i as int] == view.units[i as int].relocated(
                    origin,
                    start_shape,
                    pos,
                    rot,
                ));
            }
            if !unit_fits_at(&self.shapes[i], origin, start_shape, pos, &rot) {
                proof {
                    if view.can_relocate(start_shape, pos, rot) {
                        assert(view.units[i as int].can_relocate(origin, start_shape, pos, rot));
                        assert(!there[i as int].fits());
                    }
                }
                return false;
            }
            i += 1;
        }
        true
    }
}

impl Shape {
    /// Tells whether the shape is small enough for a scheme.
    pub fn is_small(&self) -> (ok: bool)
        ensures
            ok == self.small(),
    {
        let size = self.base.size();
        size.x <= 0x7fff_ffff && size.y <= 0x7fff_ffff && size.z <= 0x7fff_ffff
    }

    /// Tells whether every connection of the shape leads to the shape
    /// itself. A small shape that is alone can become a scheme.
    pub fn is_alone(&self) -> (ok: bool)
        ensures
            ok == self.alone(),
    {
        let mut k: usize = 0;
        while k < self.out_conns.len()
            invariant
                k <= self.out_conns.len(),
                forall|j: int| 0 <= j < k ==> #[trigger] self@.conns[j] == 0,
            decreases self.out_conns.len() - k,
        {
            if self.out_conns[k] != 0 {
                proof {
                    assert(self@.conns[k as int] != 0);
                }
                return false;
            }
            k += 1;
        }
        true
    }
}

} // verus!
