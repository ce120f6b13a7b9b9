//! Telling whether slots and schemes that were put together by hand are
//! well-formed: what `Scheme::create` and the combiner ask of them.

use vstd::prelude::*;
use crate::scheme::limits::all_fit;
use crate::scheme::{
    bounds_of, slots_view, slots_wf, slots_within, unit_view, units_fit, units_view, units_wired,
    Scheme,
};
use crate::shape::Shape;
use crate::slot::{fits_within, sector_fits, Slot};
use crate::util::map3d::{cells, Map3D};
use crate::util::{Point, Rot};

verus! {

/// Tells whether a box with the given side lengths has `len` cells.
pub fn box_has(x: usize, y: usize, z: usize, len: usize) -> (ok: bool)
    ensures
        ok == (len == cells(x as int, y as int, z as int)),
{
    if x == 0 || y == 0 || z == 0 {
        proof {
            assert(x * y * z == 0) by (nonlinear_arith)
                requires
                    x == 0 || y == 0 || z == 0,
            ;
        }
        return len == 0;
    }
    proof {
        assert(x * y <= 0xffff_ffff_ffff_ffff * 0xffff_ffff_ffff_ffff) by (nonlinear_arith)
            requires
                0 <= x <= 0xffff_ffff_ffff_ffff,
                0 <= y <= 0xffff_ffff_ffff_ffff,
        ;
    }
    let plane: u128 = (x as u128) * (y as u128);
    if plane > len as u128 {
        proof {
            assert(x * y * z >= x * y) by (nonlinear_arith)
                requires
                    x * y >= 0,
                    z >= 1,
            ;
        }
        return false;
    }
    proof {
        assert(plane * z <= 0xffff_ffff_ffff_ffff * 0xffff_ffff_ffff_ffff) by (nonlinear_arith)
            requires
                0 <= plane <= 0xffff_ffff_ffff_ffff,
                0 <= z <= 0xffff_ffff_ffff_ffff,
        ;
    }
    let all: u128 = plane * (z as u128);
    all == len as u128
}

impl<T> Map3D<T> {
    /// Tells whether the map is well-formed: whether its raw vector holds
    /// one item for each cell.
    pub fn is_wf(&self) -> (ok: bool)
        ensures
            ok == self.wf(),
    {
        box_has(self.x_size, self.y_size, self.z_size, self.data.len())
    }
}

/// Tells whether every connection of the list leads to one of `count`
/// units.
fn all_below(list: &Vec<usize>, count: usize) -> (ok: bool)
    ensures
        ok == (forall|k: int| 0 <= k < list.len() ==> #[trigger] list@[k] < count),
{
    let mut k: usize = 0;
    while k < list.len()
        invariant
            k <= list.len(),
            forall|j: int| 0 <= j < k ==> #[trigger] list@[j] < count,
        decreases list.len() - k,
    {
        if list[k] >= count {
            return false;
        }
        k += 1;
    }
    true
}

impl Slot {
    /// Tells whether no sector before the sector number `i` has its name.
    fn name_is_new(&self, i: usize) -> (ok: bool)
        requires
            i < self.sectors.len(),
        ensures
            ok == (forall|j: int| 0 <= j < i ==> (#[trigger] self@.sectors[j]).0 != self@.sectors[i as int].0),
    {
        let mut j: usize = 0;
        while j < i
            invariant
                j <= i,
                i < self.sectors.len(),
                forall|k: int| 0 <= k < j ==> (#[trigger] self@.sectors[k]).0 != self@.sectors[i as int].0,
            decreases i - j,
        {
            if self.sectors[j].0 == self.sectors[i].0 {
                proof {
                    assert(self@.sectors[j as int].0 == self@.sectors[i as int].0);
                }
                return false;
            }
            j += 1;
        }
        true
    }

    /// Tells whether the first sector is the slot itself, under the empty
    /// name.
    fn starts_whole(&self) -> (ok: bool)
        ensures
            ok == (self.sectors.len() > 0 && self@.sectors[0] == (Seq::<char>::empty(), self@.whole())),
    {
        if self.sectors.len() == 0 {
            return false;
        }
        let first = &self.sectors[0];
        proof {
            assert(self@.sectors[0] == (first.0@, first.1@));
            if first.0@.len() == 0 {
                assert(first.0@ =~= Seq::<char>::empty());
            }
        }
        first.0.as_str().unicode_len() == 0 && first.1.pos.x == 0 && first.1.pos.y == 0
            && first.1.pos.z == 0 && first.1.bounds.x == self.bounds.x && first.1.bounds.y
            == self.bounds.y && first.1.bounds.z == self.bounds.z && first.1.kind == self.kind
    }

    /// Tells whether the slot is well-formed: whether its point map has
    /// the size of the slot, its first sector is the slot itself, no two
    /// sectors share a name, and every sector lies within the slot.
    pub fn is_wf(&self) -> (ok: bool)
        ensures
            ok == self.wf(),
    {
        let map = &self.shape_map;
        if !box_has(map.x_size, map.y_size, map.z_size, map.data.len()) {
            return false;
        }
        if map.x_size != self.bounds.x as usize || map.y_size != self.bounds.y as usize || map.z_size
            != self.bounds.z as usize {
            return false;
        }
        if !self.starts_whole() {
            return false;
        }
        let mut i: usize = 1;
        while i < self.sectors.len()
            invariant
                1 <= i <= self.sectors.len(),
                forall|a: int, b: int|
                    0 <= a < b < i ==> (#[trigger] self@.sectors[a]).0 != (#[trigger] self@.sectors[b]).0,
                forall|a: int|
                    0 < a < i ==> sector_fits(
                        (#[trigger] self@.sectors[a]).1.pos,
                        self@.sectors[a].1.bounds,
                        self@.bounds,
                    ),
            decreases self.sectors.len() - i,
        {
            proof {
                assert(self@.sectors[i as int] == (self.sectors@[i as int].0@, self.sectors@[i as int].1@));
            }
            if !self.name_is_new(i) {
                return false;
            }
            if !fits_within(self.sectors[i].1.pos, self.sectors[i].1.bounds, self.bounds) {
                return false;
            }
            i += 1;
        }
        true
    }

    /// Tells whether every unit that the slot names is one of `count`
    /// units.
    pub fn is_within(&self, count: usize) -> (ok: bool)
        ensures
            ok == self@.within(count as int),
    {
        let mut i: usize = 0;
        while i < self.shape_map.data.len()
            invariant
                i <= self.shape_map.data.len(),
                forall|a: int, k: int|
                    0 <= a < i && 0 <= k < self@.points[a].len() ==> (#[trigger] self@.points[a][k])
                        < count,
            decreases self.shape_map.data.len() - i,
        {
            proof {
                assert(self@.points[i as int] == self.shape_map.data@[i as int]@);
            }
            if !all_below(&self.shape_map.data[i], count) {
                return false;
            }
            i += 1;
        }
        true
    }
}

/// Tells whether every slot of the list is well-formed and names units
/// below `count` only.
pub fn slots_hold(slots: &Vec<Slot>, count: usize) -> (ok: bool)
    ensures
        ok == (slots_wf(slots@) && slots_within(slots_view(slots@), count as int)),
{
    let mut i: usize = 0;
    while i < slots.len()
        invariant
            i <= slots.len(),
            forall|j: int| 0 <= j < i ==> (#[trigger] slots@[j]).wf(),
            forall|j: int| 0 <= j < i ==> (#[trigger] slots_view(slots@)[j]).within(count as int),
        decreases slots.len() - i,
    {
        proof {
            assert(slots_view(slots@)[i as int] == slots@[i as int]@);
        }
        if !slots[i].is_wf() || !slots[i].is_within(count) {
            return false;
        }
        i += 1;
    }
    proof {
        assert forall|j: int| 0 <= j < slots.len() implies (#[trigger] slots_view(slots@)[j]).wf() by {
            assert(slots@[j].wf());
        }
    }
    true
}

/// Tells whether every connection of every unit names a unit of the list.
pub fn all_wired(shapes: &Vec<(Point, Rot, Shape)>) -> (ok: bool)
    ensures
        ok == units_wired(units_view(shapes@)),
{
    let ghost units = units_view(shapes@);
    let mut i: usize = 0;
    while i < shapes.len()
        invariant
            i <= shapes.len(),
            units == units_view(shapes@),
            forall|j: int| 0 <= j < i ==> (#[trigger] units[j]).wired_within(units.len() as int),
        decreases shapes.len() - i,
    {
        proof {
            assert(units[i as int] == unit_view(shapes@[i as int]));
        }
        if !all_below(&shapes[i].2.out_conns, shapes.len()) {
            proof {
                let conns = shapes@[i as int].2.out_conns@;
                let k = choose|k: int| 0 <= k < conns.len() && !(#[trigger] conns[k] < shapes.len());
                assert(units[i as int].shape.conns[k] == conns[k]);
            }
            return false;
        }
        i += 1;
    }
    true
}

impl Scheme {
    /// What `create` asks of the units and slots that a scheme is made of.
    pub open spec fn can_create(
        shapes: Seq<(Point, Rot, Shape)>,
        inputs: Seq<Slot>,
        outputs: Seq<Slot>,
    ) -> bool {
        &&& units_fit(units_view(shapes))
        &&& units_wired(units_view(shapes))
        &&& slots_wf(inputs)
        &&& slots_wf(outputs)
        &&& slots_within(slots_view(inputs), shapes.len() as int)
        &&& slots_within(slots_view(outputs), shapes.len() as int)
    }

    /// Tells whether a scheme can be made of the units and slots: whether
    /// `create` can be called.
    pub fn can_be_created(
        shapes: &Vec<(Point, Rot, Shape)>,
        inputs: &Vec<Slot>,
        outputs: &Vec<Slot>,
    ) -> (ok: bool)
        ensures
            ok == Self::can_create(shapes@, inputs@, outputs@),
    {
        all_fit(shapes) && all_wired(shapes) && slots_hold(inputs, shapes.len()) && slots_hold(
            outputs,
            shapes.len(),
        )
    }

    /// Tells whether the scheme is well-formed. A scheme that the library
    /// made is; one whose fields were set by hand may not be.
    pub fn is_wf(&self) -> (ok: bool)
        ensures
            ok == self.wf(),
    {
        if !Self::can_be_created(&self.shapes, &self.inputs, &self.outputs) {
            return false;
        }
        let (_, bounds) = bounds_of(&self.shapes);
        bounds.x == self.bounds.x && bounds.y == self.bounds.y && bounds.z == self.bounds.z
    }
}

} // verus!
