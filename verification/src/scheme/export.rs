//! Writing a scheme down as a blueprint.
//!
//! The units are written in their order: the place of a unit in the list
//! is the id by which connections name it. Before that, every unit that a
//! slot stands for is painted, so that the flow of data can be followed by
//! colour.

use vstd::prelude::*;
use vstd::string::*;
use crate::connection::grid::{box_points, points_of};
use crate::scheme::{slots_view, slots_wf, unit_view, units_view, Scheme, SchemeView, UnitView};
use crate::shape::{record_pos, RecordView, Shape, ShapeRecord, ShapeView};
use crate::slot::{Slot, SlotView};
use crate::util::{Point, Rot};

verus! {

/// The version that blueprints are written in.
pub const BLUEPRINT_VERSION: i32 = 4;

/// Gives the colour for the units that a point of a slot stands for.
pub trait Palette {
    /// The colour for the point `point` of the slot number `slot`.
    spec fn color(&self, slot: u32, point: Point) -> Seq<char>;

    /// The colour for the point `point` of the slot number `slot`.
    fn pick(&self, slot: u32, point: Point) -> (color: String)
        ensures
            color@ == self.color(slot, point),
    ;
}

/// The function can be called on every input and returns one text for
/// each: what a palette made of a function needs.
pub open spec fn is_palette_fn<F: Fn(u32, Point) -> String>(f: F) -> bool {
    &&& forall|slot: u32, point: Point| #[trigger] call_requires(f, (slot, point))
    &&& forall|slot: u32, point: Point, a: String, b: String|
        call_ensures(f, (slot, point), a) && call_ensures(f, (slot, point), b) ==> a@ == b@
}

/// A palette made of a function.
pub struct FnPalette<F: Fn(u32, Point) -> String> {
    function: F,
}

impl<F: Fn(u32, Point) -> String> FnPalette<F> {
    #[verifier::type_invariant]
    spec fn inv(self) -> bool {
        is_palette_fn(self.function)
    }

    /// The function that the palette calls.
    pub closed spec fn function(&self) -> F {
        self.function
    }

    /// A palette that gives the colours that `function` returns.
    pub fn new(function: F) -> (palette: Self)
        requires
            is_palette_fn(function),
        ensures
            palette.function() == function,
    {
        FnPalette { function }
    }
}

impl<F: Fn(u32, Point) -> String> Palette for FnPalette<F> {
    open spec fn color(&self, slot: u32, point: Point) -> Seq<char> {
        (choose|text: String| call_ensures(self.function(), (slot, point), text))@
    }

    fn pick(&self, slot: u32, point: Point) -> (color: String) {
        proof {
            use_type_invariant(self);
        }
        (self.function)(slot, point)
    }
}

/// One body of a blueprint: the records of its units.
#[derive(Debug)]
pub struct Body {
    pub childs: Vec<ShapeRecord>,
}

/// A blueprint: the document that a scheme is saved as.
#[derive(Debug)]
pub struct Blueprint {
    pub bodies: Vec<Body>,
    pub version: i32,
}

/// The views of a list of records.
pub open spec fn records_view(records: Seq<ShapeRecord>) -> Seq<RecordView> {
    Seq::new(records.len(), |i: int| records[i]@)
}

/// The unit with the given colour.
pub open spec fn coloured(unit: UnitView, color: Seq<char>) -> UnitView {
    UnitView { shape: ShapeView { color: Some(color), ..unit.shape }, ..unit }
}

/// The units after each unit that `ids` names was given the colour.
pub open spec fn painted_units(units: Seq<UnitView>, ids: Seq<usize>, color: Seq<char>) -> Seq<
    UnitView,
>
    decreases ids.len(),
{
    if ids.len() == 0 {
        units
    } else {
        let before = painted_units(units, ids.drop_last(), color);
        before.update(ids.last() as int, coloured(before[ids.last() as int], color))
    }
}

/// The units after the units of each of the given points of the slot were
/// painted, point after point.
pub open spec fn painted_points<P: Palette>(
    units: Seq<UnitView>,
    slot: SlotView,
    number: u32,
    palette: &P,
    points: Seq<Point>,
) -> Seq<UnitView>
    decreases points.len(),
{
    if points.len() == 0 {
        units
    } else {
        painted_units(
            painted_points(units, slot, number, palette, points.drop_last()),
            slot.at(points.last()),
            palette.color(number, points.last()),
        )
    }
}

/// The units after the units of the first `k` slots were painted, slot
/// after slot. Within a slot the points are taken with `x` changing
/// slowest. A unit keeps the colour that it was given last.
pub open spec fn painted_slots<P: Palette>(
    units: Seq<UnitView>,
    slots: Seq<SlotView>,
    palette: &P,
    k: int,
) -> Seq<UnitView>
    decreases k,
{
    if k <= 0 {
        units
    } else {
        painted_points(
            painted_slots(units, slots, palette, k - 1),
            slots[k - 1],
            (k - 1) as u32,
            palette,
            box_points(slots[k - 1].bounds),
        )
    }
}

impl SchemeView {
    /// The units as a blueprint shows them: painted by the input slots and
    /// then by the output slots.
    pub open spec fn painted<I: Palette, O: Palette>(self, inputs: &I, outputs: &O) -> Seq<
        UnitView,
    > {
        painted_slots(
            painted_slots(self.units, self.inputs, inputs, self.inputs.len() as int),
            self.outputs,
            outputs,
            self.outputs.len() as int,
        )
    }

    /// The record of every unit can be written: no position overflows.
    pub open spec fn can_build(self) -> bool {
        forall|i: int|
            0 <= i < self.units.len() ==> Point::holds(
                record_pos((#[trigger] self.units[i]).pos, self.units[i].rot),
            )
    }
}

/// The records of the units, each under its place in the list.
pub open spec fn records_of(units: Seq<UnitView>) -> Seq<RecordView> {
    Seq::new(
        units.len(),
        |i: int|
            units[i].shape.base.record(
                units[i].shape.conns,
                units[i].shape.color,
                units[i].pos,
                units[i].rot,
                i as usize,
            ),
    )
}

/// Painting changes colours only.
pub open spec fn repainted(a: Seq<UnitView>, b: Seq<UnitView>) -> bool {
    &&& a.len() == b.len()
    &&& forall|i: int|
        0 <= i < a.len() ==> (#[trigger] b[i]).pos == a[i].pos && b[i].rot == a[i].rot
            && b[i].shape.base == a[i].shape.base && b[i].shape.conns == a[i].shape.conns
            && b[i].shape.forced == a[i].shape.forced
}

/// Gives the colour to each unit that `ids` names.
fn paint_units(shapes: &mut Vec<(Point, Rot, Shape)>, ids: &Vec<usize>, color: &String)
    requires
        forall|k: int| 0 <= k < ids.len() ==> #[trigger] ids@[k] < old(shapes).len(),
    ensures
        units_view(final(shapes)@) == painted_units(units_view(old(shapes)@), ids@, color@),
        repainted(units_view(old(shapes)@), units_view(final(shapes)@)),
{
    let ghost first = units_view(shapes@);
    let n = shapes.len();
    let mut k: usize = 0;
    proof {
        assert(ids@.take(0).len() == 0);
    }
    while k < ids.len()
        invariant
            k <= ids.len(),
            n == shapes.len(),
            first.len() == n,
            forall|j: int| 0 <= j < ids.len() ==> #[trigger] ids@[j] < n,
            units_view(shapes@) == painted_units(first, ids@.take(k as int), color@),
            repainted(first, units_view(shapes@)),
        decreases ids.len() - k,
    {
        let ghost seen = ids@.take(k + 1);
        let ghost before = units_view(shapes@);
        proof {
            assert(seen.drop_last() =~= ids@.take(k as int));
            assert(seen.last() == ids@[k as int]);
            assert(ids@[k as int] < n);
        }
        let id = ids[k];
        shapes[id].2.set_color(color.clone());
        proof {
            let after = units_view(shapes@);
            assert(after =~= before.update(id as int, coloured(before[id as int], color@)));
            assert forall|i: int| 0 <= i < first.len() implies (#[trigger] after[i]).pos
                == first[i].pos && after[i].rot == first[i].rot && after[i].shape.base
                == first[i].shape.base && after[i].shape.conns == first[i].shape.conns
                && after[i].shape.forced == first[i].shape.forced by {
                assert(before[i].pos == first[i].pos);
            }
        }
        k += 1;
    }
    proof {
        assert(ids@.take(k as int) =~= ids@);
    }
}

/// Paints the units of every point of a slot.
fn paint_slot<P: Palette>(
    shapes: &mut Vec<(Point, Rot, Shape)>,
    slot: &Slot,
    number: u32,
    palette: &P,
)
    requires
        slot.wf(),
        slot@.within(old(shapes).len() as int),
    ensures
        units_view(final(shapes)@) == painted_points(
            units_view(old(shapes)@),
            slot@,
            number,
            palette,
            box_points(slot@.bounds),
        ),
        repainted(units_view(old(shapes)@), units_view(final(shapes)@)),
{
    let ghost first = units_view(shapes@);
    let n = shapes.len();
    let points = points_of(slot.bounds);
    let mut j: usize = 0;
    proof {
        assert(points@.take(0).len() == 0);
    }
    while j < points.len()
        invariant
            j <= points.len(),
            n == shapes.len(),
            first.len() == n,
            slot.wf(),
            slot@.within(n as int),
            points@ == box_points(slot@.bounds),
            units_view(shapes@) == painted_points(first, slot@, number, palette, points@.take(j as int)),
            repainted(first, units_view(shapes@)),
        decreases points.len() - j,
    {
        let ghost seen = points@.take(j + 1);
        let ghost before = units_view(shapes@);
        proof {
            assert(seen.drop_last() =~= points@.take(j as int));
            assert(seen.last() == points@[j as int]);
        }
        let point = points[j];
        match slot.get_point(point) {
            Some(ids) => {
                proof {
                    crate::util::map3d::lemma_cell_id_range(
                        slot.bounds.x as int,
                        slot.bounds.y as int,
                        slot.bounds.z as int,
                        point.x as int,
                        point.y as int,
                        point.z as int,
                    );
                    assert forall|k: int| 0 <= k < ids.len() implies #[trigger] ids@[k] < n by {
                        assert(slot@.points[slot@.id_of(point)][k] < n);
                    }
                }
                let color = palette.pick(number, point);
                paint_units(shapes, ids, &color);
                proof {
                    let after = units_view(shapes@);
                    assert forall|i: int| 0 <= i < first.len() implies (#[trigger] after[i]).pos
                        == first[i].pos && after[i].rot == first[i].rot && after[i].shape.base
                        == first[i].shape.base && after[i].shape.conns == first[i].shape.conns
                        && after[i].shape.forced == first[i].shape.forced by {
                        assert(before[i].pos == first[i].pos);
                    }
                }
            },
            None => {
                proof {
                    assert(slot@.at(point) =~= Seq::<usize>::empty());
                }
            },
        }
        proof {
            assert(units_view(shapes@) == painted_points(first, slot@, number, palette, seen));
        }
        j += 1;
    }
    proof {
        assert(points@.take(j as int) =~= points@);
    }
}

/// Paints the units of every slot of a side, slot after slot.
fn paint_slots<P: Palette>(shapes: &mut Vec<(Point, Rot, Shape)>, slots: &Vec<Slot>, palette: &P)
    requires
        slots_wf(slots@),
        forall|i: int| 0 <= i < slots.len() ==> (#[trigger] slots@[i])@.within(old(shapes).len() as int),
    ensures
        units_view(final(shapes)@) == painted_slots(
            units_view(old(shapes)@),
            slots_view(slots@),
            palette,
            slots.len() as int,
        ),
        repainted(units_view(old(shapes)@), units_view(final(shapes)@)),
{
    let ghost first = units_view(shapes@);
    let ghost views = slots_view(slots@);
    let n = shapes.len();
    let mut i: usize = 0;
    while i < slots.len()
        invariant
            i <= slots.len(),
            n == shapes.len(),
            first.len() == n,
            views == slots_view(slots@),
            slots_wf(slots@),
            forall|j: int| 0 <= j < slots.len() ==> (#[trigger] slots@[j])@.within(n as int),
            units_view(shapes@) == painted_slots(first, views, palette, i as int),
            repainted(first, units_view(shapes@)),
        decreases slots.len() - i,
    {
        let ghost before = units_view(shapes@);
        proof {
            assert(slots@[i as int].wf());
            assert(slots@[i as int]@.within(n as int));
            assert(views[i as int] == slots@[i as int]@);
        }
        paint_slot(shapes, &slots[i], #[verifier::truncate] (i as u32), palette);
        proof {
            let after = units_view(shapes@);
            assert forall|k: int| 0 <= k < first.len() implies (#[trigger] after[k]).pos
                == first[k].pos && after[k].rot == first[k].rot && after[k].shape.base
                == first[k].shape.base && after[k].shape.conns == first[k].shape.conns
                && after[k].shape.forced == first[k].shape.forced by {
                assert(before[k].pos == first[k].pos);
            }
        }
        i += 1;
    }
}

impl Scheme {
    /// Converts [`Scheme`] to a blueprint. Every unit that an input slot
    /// stands for is painted in the colour that `inputs_palette` gives for
    /// the slot and the point, then every unit that an output slot stands
    /// for in the colour that `outputs_palette` gives. The units are
    /// written in their order, each under its place in the list.
    pub fn to_json_custom_colors<I: Palette, O: Palette>(
        self,
        inputs_palette: &I,
        outputs_palette: &O,
    ) -> (blueprint: Blueprint)
        requires
            self.wf(),
            self@.can_build(),
        ensures
            blueprint.version == BLUEPRINT_VERSION,
            blueprint.bodies.len() == 1,
            records_view(blueprint.bodies[0].childs@) == records_of(
                self@.painted(inputs_palette, outputs_palette),
            ),
    {
        let ghost view = self@;
        let mut shapes = self.shapes;
        let n = shapes.len();
        proof {
            assert forall|i: int| 0 <= i < self.inputs.len() implies (
            #[trigger] self.inputs@[i])@.within(n as int) by {
                assert(view.inputs[i] == self.inputs@[i]@);
            }
            assert forall|i: int| 0 <= i < self.outputs.len() implies (
            #[trigger] self.outputs@[i])@.within(n as int) by {
                assert(view.outputs[i] == self.outputs@[i]@);
            }
        }
        paint_slots(&mut shapes, &self.inputs, inputs_palette);
        let ghost halfway = units_view(shapes@);
        paint_slots(&mut shapes, &self.outputs, outputs_palette);
        let ghost units = units_view(shapes@);
        let mut array: Vec<ShapeRecord> = Vec::new();
        let mut i: usize = 0;
        while i < n
            invariant
                i <= n,
                n == shapes.len(),
                units == units_view(shapes@),
                view.units.len() == n,
                view.can_build(),
                repainted(view.units, halfway),
                repainted(halfway, units),
                array.len() == i,
                forall|j: int| 0 <= j < i ==> (#[trigger] array@[j])@ == records_of(units)[j],
            decreases n - i,
        {
            proof {
                assert(units[i as int] == unit_view(shapes@[i as int]));
                assert(halfway[i as int].pos == view.units[i as int].pos);
                assert(units[i as int].pos == halfway[i as int].pos);
                assert(Point::holds(record_pos(view.units[i as int].pos, view.units[i as int].rot)));
            }
            array.push(shapes[i].2.build(shapes[i].0, shapes[i].1, i));
            i += 1;
        }
        proof {
            assert(records_view(array@) =~= records_of(units));
        }
        let mut bodies: Vec<Body> = Vec::new();
        bodies.push(Body { childs: array });
        Blueprint { bodies, version: BLUEPRINT_VERSION }
    }
}

} // verus!
