//! Schemes: units with their places, and the slots through which they are
//! reached.

use vstd::prelude::*;
use vstd::string::*;
use crate::shape::{Shape, ShapeBase, ShapeView};
use crate::slot::{SectorView, Slot, SlotSector, SlotView};
use crate::util::vec3::fits_i32;
use crate::util::{split_first_token, split_token, Bounds, Map3D, Point, Rot};

pub mod export;
pub mod limits;
pub mod validity;
pub mod removal;
pub mod usage;

verus! {

/// The name that a slot goes by when a path names none.
pub const DEFAULT_SLOT: &'static str = "_";

/// A unit of a scheme: a shape, the place of its first cell and its
/// rotation about the centre of that cell.
pub struct UnitView {
    pub pos: Point,
    pub rot: Rot,
    pub shape: ShapeView,
}

/// What a scheme is: its units in order, its input and output slots, and
/// its size.
pub struct SchemeView {
    pub units: Seq<UnitView>,
    pub inputs: Seq<SlotView>,
    pub outputs: Seq<SlotView>,
    pub bounds: Bounds,
}

/// The view of one unit.
pub open spec fn unit_view(unit: (Point, Rot, Shape)) -> UnitView {
    UnitView { pos: unit.0, rot: unit.1, shape: unit.2@ }
}

/// The views of a list of units.
pub open spec fn units_view(units: Seq<(Point, Rot, Shape)>) -> Seq<UnitView> {
    Seq::new(units.len(), |i: int| unit_view(units[i]))
}

/// The views of a list of slots.
pub open spec fn slots_view(slots: Seq<Slot>) -> Seq<SlotView> {
    Seq::new(slots.len(), |i: int| slots[i]@)
}

/// Every slot of the list is well-formed.
pub open spec fn slots_wf(slots: Seq<Slot>) -> bool {
    forall|i: int| 0 <= i < slots.len() ==> (#[trigger] slots[i]).wf()
}

/// The smallest of three integers.
pub open spec fn min3(a: int, b: int, c: int) -> int {
    if a <= b && a <= c {
        a
    } else if b <= c {
        b
    } else {
        c
    }
}

/// The largest of three integers.
pub open spec fn max3(a: int, b: int, c: int) -> int {
    if a >= b && a >= c {
        a
    } else if b >= c {
        b
    } else {
        c
    }
}

/// Half of `v + 1`, rounded down.
pub open spec fn half_up(v: int) -> int {
    (v + 1) / 2
}

/// Component-wise minimum.
pub open spec fn lower(a: (int, int, int), b: (int, int, int)) -> (int, int, int) {
    (
        if a.0 <= b.0 {
            a.0
        } else {
            b.0
        },
        if a.1 <= b.1 {
            a.1
        } else {
            b.1
        },
        if a.2 <= b.2 {
            a.2
        } else {
            b.2
        },
    )
}

/// Component-wise maximum.
pub open spec fn upper(a: (int, int, int), b: (int, int, int)) -> (int, int, int) {
    (
        if a.0 >= b.0 {
            a.0
        } else {
            b.0
        },
        if a.1 >= b.1 {
            a.1
        } else {
            b.1
        },
        if a.2 >= b.2 {
            a.2
        } else {
            b.2
        },
    )
}

impl UnitView {
    /// Where the far corner of the unit lies, seen from its first cell. A
    /// unit is rotated about the centre of its first cell, so the diagonal
    /// of the unit is taken in half cells from that centre, rotated, and
    /// taken back to whole cells.
    pub open spec fn far(self) -> (int, int, int) {
        let size = self.shape.base.size_of();
        let v = self.rot.image((2 * size.x - 1, 2 * size.y - 1, 2 * size.z - 1));
        (half_up(v.0), half_up(v.1), half_up(v.2))
    }

    /// Where the near corner of the unit lies, seen from its first cell.
    pub open spec fn near(self) -> (int, int, int) {
        let v = self.rot.image((-1, -1, -1));
        (half_up(v.0), half_up(v.1), half_up(v.2))
    }

    /// The lowest corner of the box that the unit takes up.
    pub open spec fn low(self) -> (int, int, int) {
        (
            self.pos.x + min3(0, self.near().0, self.far().0),
            self.pos.y + min3(0, self.near().1, self.far().1),
            self.pos.z + min3(0, self.near().2, self.far().2),
        )
    }

    /// The highest corner of the box that the unit takes up.
    pub open spec fn high(self) -> (int, int, int) {
        (
            self.pos.x + max3(0, self.near().0, self.far().0),
            self.pos.y + max3(0, self.near().1, self.far().1),
            self.pos.z + max3(0, self.near().2, self.far().2),
        )
    }

    /// The rotation is one of the 24, and the corners of the unit's box
    /// have 32-bit coordinates.
    pub open spec fn fits(self) -> bool {
        &&& self.rot.valid()
        &&& Point::holds(self.low())
        &&& Point::holds(self.high())
    }

    /// Every connection of the unit names one of `count` units.
    pub open spec fn wired_within(self, count: int) -> bool {
        forall|k: int| 0 <= k < self.shape.conns.len() ==> #[trigger] self.shape.conns[k] < count
    }

    /// The unit after the whole scheme was turned by `rot`.
    pub open spec fn turned(self, rot: Rot) -> UnitView {
        UnitView {
            pos: Point::of(rot.image(Rot::ints(self.pos))),
            rot: rot.after(self.rot),
            shape: self.shape,
        }
    }

    /// The unit can be turned by `rot`: its new position has 32-bit
    /// coordinates.
    pub open spec fn can_turn(self, rot: Rot) -> bool {
        Point::holds(rot.image(Rot::ints(self.pos)))
    }

    /// The way from `origin` to the unit.
    pub open spec fn offset_from(self, origin: Point) -> (int, int, int) {
        self.pos.diff(origin)
    }

    /// Where the unit comes to lie when its scheme, whose lowest corner is
    /// `origin`, is turned by `rot` and put at `pos`.
    pub open spec fn moved_to(self, origin: Point, pos: Point, rot: Rot) -> (int, int, int) {
        let turned = rot.image(self.offset_from(origin));
        (pos.x + turned.0, pos.y + turned.1, pos.z + turned.2)
    }

    /// The unit as part of a larger scheme: moved to its new place, turned,
    /// and with its connections counted from `start`, the number of units
    /// that stand before those of its scheme.
    pub open spec fn relocated(self, origin: Point, start: usize, pos: Point, rot: Rot) -> UnitView {
        UnitView {
            pos: Point::of(self.moved_to(origin, pos, rot)),
            rot: rot.after(self.rot),
            shape: ShapeView {
                conns: Seq::new(self.shape.conns.len(), |k: int| (self.shape.conns[k] + start) as usize),
                ..self.shape
            },
        }
    }

    /// Nothing overflows when the unit is relocated.
    pub open spec fn can_relocate(self, origin: Point, start: usize, pos: Point, rot: Rot) -> bool {
        &&& Point::holds(self.offset_from(origin))
        &&& Point::holds(rot.image(self.offset_from(origin)))
        &&& Point::holds(self.moved_to(origin, pos, rot))
        &&& forall|k: int|
            0 <= k < self.shape.conns.len() ==> #[trigger] self.shape.conns[k] + start <= usize::MAX
    }
}

/// The lowest corner of the boxes of all the units.
pub open spec fn lows(units: Seq<UnitView>) -> (int, int, int)
    decreases units.len(),
{
    if units.len() == 0 {
        (i32::MAX as int, i32::MAX as int, i32::MAX as int)
    } else {
        lower(lows(units.drop_last()), units.last().low())
    }
}

/// The highest corner of the boxes of all the units.
pub open spec fn highs(units: Seq<UnitView>) -> (int, int, int)
    decreases units.len(),
{
    if units.len() == 0 {
        (i32::MIN as int, i32::MIN as int, i32::MIN as int)
    } else {
        upper(highs(units.drop_last()), units.last().high())
    }
}

/// The lowest corner of the smallest box that holds all the units; the
/// zero point where there are none.
pub open spec fn origin_of(units: Seq<UnitView>) -> Point {
    if units.len() == 0 {
        Point { x: 0, y: 0, z: 0 }
    } else {
        Point::of(lows(units))
    }
}

/// The size of the smallest box that holds all the units.
pub open spec fn size_of(units: Seq<UnitView>) -> Bounds {
    if units.len() == 0 {
        Bounds { x: 0, y: 0, z: 0 }
    } else {
        Bounds {
            x: (highs(units).0 - lows(units).0) as u32,
            y: (highs(units).1 - lows(units).1) as u32,
            z: (highs(units).2 - lows(units).2) as u32,
        }
    }
}

/// Every unit fits.
pub open spec fn units_fit(units: Seq<UnitView>) -> bool {
    forall|i: int| 0 <= i < units.len() ==> (#[trigger] units[i]).fits()
}

/// Every connection of every unit names a unit of the list.
pub open spec fn units_wired(units: Seq<UnitView>) -> bool {
    forall|i: int| 0 <= i < units.len() ==> (#[trigger] units[i]).wired_within(units.len() as int)
}

/// Every slot is well-formed and names units below `count` only.
pub open spec fn slots_within(slots: Seq<SlotView>, count: int) -> bool {
    forall|i: int| 0 <= i < slots.len() ==> (#[trigger] slots[i]).wf() && slots[i].within(count)
}

/// The lowest corner lies below the highest one, and both have 32-bit
/// coordinates.
pub proof fn lemma_corners(units: Seq<UnitView>)
    requires
        units_fit(units),
        units.len() > 0,
    ensures
        Point::holds(lows(units)),
        Point::holds(highs(units)),
        lows(units).0 <= highs(units).0,
        lows(units).1 <= highs(units).1,
        lows(units).2 <= highs(units).2,
    decreases units.len(),
{
    let head = units.drop_last();
    let last = units.last();
    assert(units[units.len() - 1].fits());
    assert(Point::holds(last.low()) && Point::holds(last.high()));
    assert(last.low().0 <= last.pos.x <= last.high().0);
    assert(last.low().1 <= last.pos.y <= last.high().1);
    assert(last.low().2 <= last.pos.z <= last.high().2);
    assert(lows(units) == lower(lows(head), last.low()));
    assert(highs(units) == upper(highs(head), last.high()));
    if head.len() > 0 {
        assert forall|i: int| 0 <= i < head.len() implies (#[trigger] head[i]).fits() by {
            assert(head[i] == units[i]);
        }
        lemma_corners(head);
    } else {
        assert(lows(head) == (i32::MAX as int, i32::MAX as int, i32::MAX as int));
        assert(highs(head) == (i32::MIN as int, i32::MIN as int, i32::MIN as int));
    }
}

/// The place of the first slot called `name` among `slots`; an empty name
/// stands for the default name.
pub open spec fn slot_position(slots: Seq<SlotView>, name: Seq<char>) -> Option<int>
    decreases slots.len(),
{
    if slots.len() == 0 {
        None
    } else if slots[0].name == slot_name(name) {
        Some(0)
    } else {
        match slot_position(slots.drop_first(), name) {
            Some(i) => Some(i + 1),
            None => None,
        }
    }
}

/// The name that a slot is looked up by.
pub open spec fn slot_name(name: Seq<char>) -> Seq<char> {
    if name.len() == 0 {
        DEFAULT_SLOT@
    } else {
        name
    }
}

/// The first `i` slots are not called `name`, so the search goes on behind
/// them.
pub proof fn lemma_slot_position_scan(slots: Seq<SlotView>, name: Seq<char>, i: int)
    requires
        0 <= i <= slots.len(),
        forall|j: int| 0 <= j < i ==> (#[trigger] slots[j]).name != slot_name(name),
    ensures
        slot_position(slots, name) == match slot_position(slots.skip(i), name) {
            Some(k) => Some(k + i),
            None => None,
        },
    decreases i,
{
    if i == 0 {
        assert(slots.skip(0) =~= slots);
    } else {
        let rest = slots.drop_first();
        assert(slots[0].name != slot_name(name));
        assert forall|j: int| 0 <= j < i - 1 implies (#[trigger] rest[j]).name != slot_name(name) by {
            assert(rest[j] == slots[j + 1]);
        }
        lemma_slot_position_scan(rest, name, i - 1);
        assert(rest.skip(i - 1) =~= slots.skip(i));
    }
}

/// A found position is a place of the list, and the slot there has the
/// name.
pub proof fn lemma_slot_position_range(slots: Seq<SlotView>, name: Seq<char>)
    ensures
        slot_position(slots, name) matches Some(i) ==> 0 <= i < slots.len() && slots[i].name
            == slot_name(name),
    decreases slots.len(),
{
    if slots.len() > 0 && slots[0].name != slot_name(name) {
        lemma_slot_position_range(slots.drop_first(), name);
    }
}

/// The slot and the sector that a path of the form `slot[/sector]` names
/// among `slots`: the place of the slot, and the sector.
pub open spec fn slot_and_sector(slots: Seq<SlotView>, path: Seq<char>) -> Option<
    (int, SectorView),
> {
    let (name, rest) = split_token(path);
    let sector_name = match rest {
        Some(r) => r,
        None => Seq::empty(),
    };
    match slot_position(slots, name) {
        None => None,
        Some(i) => match slots[i].sector(sector_name) {
            None => None,
            Some(sector) => Some((i, sector)),
        },
    }
}

impl SchemeView {
    /// Every unit fits and is connected to units of the scheme only, every
    /// slot is well-formed and names units of the scheme only, and the size
    /// is that of the smallest box around the units.
    pub open spec fn wf(self) -> bool {
        &&& units_fit(self.units)
        &&& units_wired(self.units)
        &&& slots_within(self.inputs, self.units.len() as int)
        &&& slots_within(self.outputs, self.units.len() as int)
        &&& self.bounds == size_of(self.units)
    }

    /// The scheme, turned by `rot` as a whole.
    pub open spec fn rotated(self, rot: Rot) -> SchemeView {
        let units = Seq::new(self.units.len(), |i: int| self.units[i].turned(rot));
        SchemeView { units, bounds: size_of(units), ..self }
    }

    /// The scheme can be turned by `rot`: every unit can, and fits
    /// afterwards.
    pub open spec fn can_rotate(self, rot: Rot) -> bool {
        forall|i: int|
            0 <= i < self.units.len() ==> (#[trigger] self.units[i]).can_turn(rot)
                && self.units[i].turned(rot).fits()
    }

    /// The units of the scheme as part of a larger scheme.
    pub open spec fn relocated_units(self, start: usize, pos: Point, rot: Rot) -> Seq<UnitView> {
        Seq::new(
            self.units.len(),
            |i: int| self.units[i].relocated(origin_of(self.units), start, pos, rot),
        )
    }

    /// Nothing overflows when the units of the scheme are relocated.
    pub open spec fn can_relocate(self, start: usize, pos: Point, rot: Rot) -> bool {
        forall|i: int|
            0 <= i < self.units.len() ==> (#[trigger] self.units[i]).can_relocate(
                origin_of(self.units),
                start,
                pos,
                rot,
            )
    }
}

/// Some structure/creation/blueprint made up of in-game
/// blocks and parts.
///
/// Can have inputs and outputs, which are [`Slot`]s.
///
/// Any [`Shape`] can be converted to Scheme.
///
/// Using `Combiner` schemes can be connected to each other and combined
/// into bigger scheme.
///
/// Every scheme has size/bounds. It can change, if scheme is rotated.
#[derive(Debug)]
pub struct Scheme {
    pub shapes: Vec<(Point, Rot, Shape)>,
    pub inputs: Vec<Slot>,
    pub outputs: Vec<Slot>,
    pub bounds: Bounds,
}

impl View for Scheme {
    type V = SchemeView;

    open spec fn view(&self) -> SchemeView {
        SchemeView {
            units: units_view(self.shapes@),
            inputs: slots_view(self.inputs@),
            outputs: slots_view(self.outputs@),
            bounds: self.bounds,
        }
    }
}

/// Half of `v + 1`, rounded down.
fn half_of(v: i64) -> (h: i64)
    requires
        -0x1000_0000_0000 <= v <= 0x1000_0000_0000,
    ensures
        h == half_up(v as int),
{
    let n = v + 1;
    if n >= 0 {
        n / 2
    } else {
        -((1 - n) / 2)
    }
}

fn least(a: i64, b: i64, c: i64) -> (m: i64)
    ensures
        m == min3(a as int, b as int, c as int),
{
    if a <= b && a <= c {
        a
    } else if b <= c {
        b
    } else {
        c
    }
}

fn most(a: i64, b: i64, c: i64) -> (m: i64)
    ensures
        m == max3(a as int, b as int, c as int),
{
    if a >= b && a >= c {
        a
    } else if b >= c {
        b
    } else {
        c
    }
}

/// The lowest and the highest corner of the box of one unit.
pub fn unit_corners(pos: Point, rot: &Rot, shape: &Shape) -> (corners: (
    (i64, i64, i64),
    (i64, i64, i64),
))
    ensures
        rot.valid(),
        (corners.0.0 as int, corners.0.1 as int, corners.0.2 as int) == unit_view(
            (pos, *rot, *shape),
        ).low(),
        (corners.1.0 as int, corners.1.1 as int, corners.1.2 as int) == unit_view(
            (pos, *rot, *shape),
        ).high(),
{
    let size = shape.bounds();
    let far = rot.apply_wide(
        (2 * (size.x as i64) - 1, 2 * (size.y as i64) - 1, 2 * (size.z as i64) - 1),
    );
    let near = rot.apply_wide((-1, -1, -1));
    rot.is_valid();
    proof {
        crate::util::rot::lemma_image_bounded(
            *rot,
            (2 * size.x - 1, 2 * size.y - 1, 2 * size.z - 1),
            0x2_0000_0000,
        );
        crate::util::rot::lemma_image_bounded(*rot, (-1, -1, -1), 1);
    }
    let (fx, fy, fz) = (half_of(far.0), half_of(far.1), half_of(far.2));
    let (nx, ny, nz) = (half_of(near.0), half_of(near.1), half_of(near.2));
    (
        (
            pos.x as i64 + least(0, nx, fx),
            pos.y as i64 + least(0, ny, fy),
            pos.z as i64 + least(0, nz, fz),
        ),
        (
            pos.x as i64 + most(0, nx, fx),
            pos.y as i64 + most(0, ny, fy),
            pos.z as i64 + most(0, nz, fz),
        ),
    )
}

/// The lowest corner and the size of the smallest box around the units.
pub fn bounds_of(shapes: &Vec<(Point, Rot, Shape)>) -> (bounds: (Point, Bounds))
    requires
        units_fit(units_view(shapes@)),
    ensures
        bounds.0 == origin_of(units_view(shapes@)),
        bounds.1 == size_of(units_view(shapes@)),
{
    let ghost units = units_view(shapes@);
    if shapes.len() == 0 {
        return (Point { x: 0, y: 0, z: 0 }, Bounds { x: 0, y: 0, z: 0 });
    }
    let mut min: (i64, i64, i64) = (0x7fff_ffff, 0x7fff_ffff, 0x7fff_ffff);
    let mut max: (i64, i64, i64) = (-0x8000_0000, -0x8000_0000, -0x8000_0000);
    let mut i: usize = 0;
    proof {
        assert(units.take(0).len() == 0);
    }
    while i < shapes.len()
        invariant
            i <= shapes.len(),
            units == units_view(shapes@),
            units_fit(units),
            (min.0 as int, min.1 as int, min.2 as int) == lows(units.take(i as int)),
            (max.0 as int, max.1 as int, max.2 as int) == highs(units.take(i as int)),
            -0x8000_0000 <= min.0 <= 0x7fff_ffff,
            -0x8000_0000 <= min.1 <= 0x7fff_ffff,
            -0x8000_0000 <= min.2 <= 0x7fff_ffff,
            -0x8000_0000 <= max.0 <= 0x7fff_ffff,
            -0x8000_0000 <= max.1 <= 0x7fff_ffff,
            -0x8000_0000 <= max.2 <= 0x7fff_ffff,
        decreases shapes.len() - i,
    {
        let ghost seen = units.take(i + 1);
        proof {
            assert(units[i as int].fits());
            assert(units[i as int] == unit_view(shapes@[i as int]));
            assert(seen.drop_last() =~= units.take(i as int));
            assert(seen.last() == units[i as int]);
        }
        let (low, high) = unit_corners(shapes[i].0, &shapes[i].1, &shapes[i].2);
        min = (
            if min.0 <= low.0 {
                min.0
            } else {
                low.0
            },
            if min.1 <= low.1 {
                min.1
            } else {
                low.1
            },
            if min.2 <= low.2 {
                min.2
            } else {
                low.2
            },
        );
        max = (
            if max.0 >= high.0 {
                max.0
            } else {
                high.0
            },
            if max.1 >= high.1 {
                max.1
            } else {
                high.1
            },
            if max.2 >= high.2 {
                max.2
            } else {
                high.2
            },
        );
        i += 1;
    }
    proof {
        assert(units.take(i as int) =~= units);
        lemma_corners(units);
    }
    (
        Point { x: min.0 as i32, y: min.1 as i32, z: min.2 as i32 },
        Bounds { x: (max.0 - min.0) as u32, y: (max.1 - min.1) as u32, z: (max.2 - min.2) as u32 },
    )
}

impl Scheme {
    /// The slots are well-formed, and what the scheme holds is.
    pub open spec fn wf(&self) -> bool {
        &&& slots_wf(self.inputs@)
        &&& slots_wf(self.outputs@)
        &&& self@.wf()
    }

    /// Scheme constructor.
    pub fn create(shapes: Vec<(Point, Rot, Shape)>, inputs: Vec<Slot>, outputs: Vec<Slot>) -> (scheme:
        Self)
        requires
            units_fit(units_view(shapes@)),
            units_wired(units_view(shapes@)),
            slots_wf(inputs@),
            slots_wf(outputs@),
            slots_within(slots_view(inputs@), shapes.len() as int),
            slots_within(slots_view(outputs@), shapes.len() as int),
        ensures
            scheme.wf(),
            scheme.shapes == shapes,
            scheme.inputs == inputs,
            scheme.outputs == outputs,
            scheme@.bounds == size_of(units_view(shapes@)),
    {
        let (_, bounds) = bounds_of(&shapes);
        Scheme { shapes, inputs, outputs, bounds }
    }

    /// The scheme without units and without slots.
    pub fn empty() -> (scheme: Self)
        ensures
            scheme.wf(),
            scheme@ == (SchemeView {
                units: Seq::empty(),
                inputs: Seq::empty(),
                outputs: Seq::empty(),
                bounds: Bounds { x: 0, y: 0, z: 0 },
            }),
    {
        let scheme = Scheme {
            shapes: Vec::new(),
            inputs: Vec::new(),
            outputs: Vec::new(),
            bounds: Bounds { x: 0, y: 0, z: 0 },
        };
        proof {
            assert(scheme@.units =~= Seq::empty());
            assert(scheme@.inputs =~= Seq::empty());
            assert(scheme@.outputs =~= Seq::empty());
        }
        scheme
    }

    /// Returns all the inputs of the Scheme.
    pub fn inputs(&self) -> (slots: &Vec<Slot>)
        ensures
            *slots == self.inputs,
    {
        &self.inputs
    }

    /// Returns all the outputs of the Scheme.
    pub fn outputs(&self) -> (slots: &Vec<Slot>)
        ensures
            *slots == self.outputs,
    {
        &self.outputs
    }

    /// Tries to find input slot/sector with given name.
    pub fn input(&self, name: String) -> (found: Option<(&Slot, &SlotSector)>)
        ensures
            found is Some <==> slot_and_sector(self@.inputs, name@) is Some,
            found matches Some((slot, sector)) ==> {
                let (i, s) = slot_and_sector(self@.inputs, name@)->0;
                &&& 0 <= i < self.inputs.len()
                &&& *slot == self.inputs[i]
                &&& sector@ == s
            },
    {
        find_slot_sector(name, &self.inputs)
    }

    /// Tries to find output slot/sector with given name.
    pub fn output(&self, name: String) -> (found: Option<(&Slot, &SlotSector)>)
        ensures
            found is Some <==> slot_and_sector(self@.outputs, name@) is Some,
            found matches Some((slot, sector)) ==> {
                let (i, s) = slot_and_sector(self@.outputs, name@)->0;
                &&& 0 <= i < self.outputs.len()
                &&& *slot == self.outputs[i]
                &&& sector@ == s
            },
    {
        find_slot_sector(name, &self.outputs)
    }

    pub fn shapes_count(&self) -> (count: usize)
        ensures
            count == self@.units.len(),
    {
        self.shapes.len()
    }

    pub fn shapes(&self) -> (shapes: &Vec<(Point, Rot, Shape)>)
        ensures
            *shapes == self.shapes,
    {
        &self.shapes
    }

    pub fn bounds(&self) -> (bounds: Bounds)
        ensures
            bounds == self@.bounds,
    {
        self.bounds
    }

    /// The lowest corner and the size of the smallest box around the
    /// units of the scheme.
    pub fn calculate_bounds(&self) -> (bounds: (Point, Bounds))
        requires
            units_fit(self@.units),
        ensures
            bounds.0 == origin_of(self@.units),
            bounds.1 == size_of(self@.units),
    {
        bounds_of(&self.shapes)
    }

    /// Rotates whole Scheme / rotates every [`Shape`] of it.
    pub fn rotate(&mut self, rot: Rot)
        requires
            old(self).wf(),
            old(self)@.can_rotate(rot),
        ensures
            final(self).wf(),
            final(self)@ == old(self)@.rotated(rot),
    {
        let ghost before = self@;
        let n = self.shapes.len();
        let mut i: usize = 0;
        while i < n
            invariant
                i <= n,
                n == self.shapes.len(),
                before == old(self)@,
                before.units.len() == n,
                before.can_rotate(rot),
                self.inputs == old(self).inputs,
                self.outputs == old(self).outputs,
                self.bounds == old(self).bounds,
                forall|j: int| 0 <= j < i ==> unit_view(#[trigger] self.shapes@[j]) == before.units[j].turned(rot),
                forall|j: int| i <= j < n ==> unit_view(#[trigger] self.shapes@[j]) == before.units[j],
            decreases n - i,
        {
            proof {
                assert(before.units[i as int].can_turn(rot));
                assert(unit_view(self.shapes@[i as int]) == before.units[i as int]);
            }
            let pos = rot.apply(self.shapes[i].0);
            let turned = rot.apply_to_rot(self.shapes[i].1);
            self.shapes[i].0 = pos;
            self.shapes[i].1 = turned;
            i += 1;
        }
        proof {
            assert(self@.units =~= before.rotated(rot).units);
            assert forall|j: int| 0 <= j < self@.units.len() implies (#[trigger] self@.units[j]).fits()
                && self@.units[j].wired_within(self@.units.len() as int) by {
                assert(before.units[j].can_turn(rot) && before.units[j].turned(rot).fits());
                assert(before.units[j].wired_within(before.units.len() as int));
            }
        }
        let (_, bounds) = bounds_of(&self.shapes);
        self.bounds = bounds;
    }

    /// Sets color of every shape to a given color.
    /// Basically just fills everything with color.
    pub fn full_paint(&mut self, color: String)
        ensures
            final(self)@ == (SchemeView {
                units: Seq::new(
                    old(self)@.units.len(),
                    |i: int|
                        UnitView {
                            shape: ShapeView { color: Some(color@), ..old(self)@.units[i].shape },
                            ..old(self)@.units[i]
                        },
                ),
                ..old(self)@
            }),
            old(self).wf() ==> final(self).wf(),
    {
        let ghost before = self@;
        let n = self.shapes.len();
        let mut i: usize = 0;
        while i < n
            invariant
                i <= n,
                n == self.shapes.len(),
                before == old(self)@,
                before.units.len() == n,
                self.inputs == old(self).inputs,
                self.outputs == old(self).outputs,
                self.bounds == old(self).bounds,
                forall|j: int|
                    0 <= j < i ==> unit_view(#[trigger] self.shapes@[j]) == (UnitView {
                        shape: ShapeView { color: Some(color@), ..before.units[j].shape },
                        ..before.units[j]
                    }),
                forall|j: int| i <= j < n ==> unit_view(#[trigger] self.shapes@[j]) == before.units[j],
            decreases n - i,
        {
            proof {
                assert(unit_view(self.shapes@[i as int]) == before.units[i as int]);
            }
            self.shapes[i].2.set_color(color.clone());
            i += 1;
        }
        proof {
            let painted = Seq::new(
                before.units.len(),
                |i: int|
                    UnitView {
                        shape: ShapeView { color: Some(color@), ..before.units[i].shape },
                        ..before.units[i]
                    },
            );
            assert(self@.units =~= painted);
            if old(self).wf() {
                lemma_same_boxes(before.units, painted);
            }
        }
    }

    /// Only paints shapes with default color. If a shape was painted
    /// before, its color won't change.
    pub fn soft_paint(&mut self, color: String)
        ensures
            final(self)@ == (SchemeView {
                units: Seq::new(
                    old(self)@.units.len(),
                    |i: int|
                        UnitView {
                            shape: ShapeView {
                                color: if old(self)@.units[i].shape.color is None {
                                    Some(color@)
                                } else {
                                    old(self)@.units[i].shape.color
                                },
                                ..old(self)@.units[i].shape
                            },
                            ..old(self)@.units[i]
                        },
                ),
                ..old(self)@
            }),
            old(self).wf() ==> final(self).wf(),
    {
        let ghost before = self@;
        let ghost painted = Seq::new(
            before.units.len(),
            |i: int|
                UnitView {
                    shape: ShapeView {
                        color: if before.units[i].shape.color is None {
                            Some(color@)
                        } else {
                            before.units[i].shape.color
                        },
                        ..before.units[i].shape
                    },
                    ..before.units[i]
                },
        );
        let n = self.shapes.len();
        let mut i: usize = 0;
        while i < n
            invariant
                i <= n,
                n == self.shapes.len(),
                before == old(self)@,
                before.units.len() == n,
                painted.len() == n,
                forall|j: int|
                    0 <= j < n ==> #[trigger] painted[j] == (UnitView {
                        shape: ShapeView {
                            color: if before.units[j].shape.color is None {
                                Some(color@)
                            } else {
                                before.units[j].shape.color
                            },
                            ..before.units[j].shape
                        },
                        ..before.units[j]
                    }),
                self.inputs == old(self).inputs,
                self.outputs == old(self).outputs,
                self.bounds == old(self).bounds,
                forall|j: int| 0 <= j < i ==> unit_view(#[trigger] self.shapes@[j]) == painted[j],
                forall|j: int| i <= j < n ==> unit_view(#[trigger] self.shapes@[j]) == before.units[j],
            decreases n - i,
        {
            proof {
                assert(unit_view(self.shapes@[i as int]) == before.units[i as int]);
            }
            if self.shapes[i].2.get_color().is_none() {
                self.shapes[i].2.set_color(color.clone());
            }
            proof {
                assert(unit_view(self.shapes@[i as int]) == painted[i as int]);
            }
            i += 1;
        }
        proof {
            assert(self@.units =~= painted);
            if old(self).wf() {
                lemma_same_boxes(before.units, painted);
            }
        }
    }

    /// Shifts, rotates and offsets controller ids, then returns raw data:
    ///
    /// (shapes, inputs, outputs)
    pub fn disassemble(self, start_shape: usize, pos: Point, rot: Rot) -> (parts: (
        Vec<(Point, Rot, Shape)>,
        Vec<Slot>,
        Vec<Slot>,
    ))
        requires
            self.wf(),
            self@.can_relocate(start_shape, pos, rot),
        ensures
            units_view(parts.0@) == self@.relocated_units(start_shape, pos, rot),
            parts.1 == self.inputs,
            parts.2 == self.outputs,
    {
        let ghost before = self@;
        let (start, _) = bounds_of(&self.shapes);
        let mut shapes = self.shapes;
        let n = shapes.len();
        let mut i: usize = 0;
        while i < n
            invariant
                i <= n,
                n == shapes.len(),
                before.can_relocate(start_shape, pos, rot),
                before.units.len() == n,
                start == origin_of(before.units),
                forall|j: int|
                    0 <= j < i ==> unit_view(#[trigger] shapes@[j]) == before.units[j].relocated(
                        start,
                        start_shape,
                        pos,
                        rot,
                    ),
                forall|j: int| i <= j < n ==> unit_view(#[trigger] shapes@[j]) == before.units[j],
            decreases n - i,
        {
            proof {
                assert(before.units[i as int].can_relocate(start, start_shape, pos, rot));
                assert(unit_view(shapes@[i as int]) == before.units[i as int]);
            }
            relocate(&mut shapes[i], start, start_shape, pos, rot);
            i += 1;
        }
        proof {
            assert(units_view(shapes@) =~= before.relocated_units(start_shape, pos, rot));
        }
        (shapes, self.inputs, self.outputs)
    }

    pub fn set_forcibly_used(&mut self)
        ensures
            final(self)@ == old(self)@.forced(true),
            old(self).wf() ==> final(self).wf(),
    {
        self.force(true);
    }

    pub fn unset_forcibly_used(&mut self)
        ensures
            final(self)@ == old(self)@.forced(false),
            old(self).wf() ==> final(self).wf(),
    {
        self.force(false);
    }

    /// Marks every unit as kept by force, or as not kept.
    fn force(&mut self, forced: bool)
        ensures
            final(self)@ == old(self)@.forced(forced),
            old(self).wf() ==> final(self).wf(),
    {
        let ghost before = self@;
        let n = self.shapes.len();
        let mut i: usize = 0;
        while i < n
            invariant
                i <= n,
                n == self.shapes.len(),
                before == old(self)@,
                before.units.len() == n,
                self.inputs == old(self).inputs,
                self.outputs == old(self).outputs,
                self.bounds == old(self).bounds,
                forall|j: int|
                    0 <= j < i ==> unit_view(#[trigger] self.shapes@[j]) == (UnitView {
                        shape: ShapeView { forced, ..before.units[j].shape },
                        ..before.units[j]
                    }),
                forall|j: int| i <= j < n ==> unit_view(#[trigger] self.shapes@[j]) == before.units[j],
            decreases n - i,
        {
            proof {
                assert(unit_view(self.shapes@[i as int]) == before.units[i as int]);
            }
            if forced {
                self.shapes[i].2.set_forcibly_used();
            } else {
                self.shapes[i].2.unset_forcibly_used();
            }
            i += 1;
        }
        proof {
            assert(self@.units =~= before.forced(forced).units);
            if old(self).wf() {
                lemma_same_boxes(before.units, self@.units);
            }
        }
    }
}

impl SchemeView {
    /// The scheme with every unit marked as kept by force, or as not kept.
    pub open spec fn forced(self, forced: bool) -> SchemeView {
        SchemeView {
            units: Seq::new(
                self.units.len(),
                |i: int|
                    UnitView {
                        shape: ShapeView { forced, ..self.units[i].shape },
                        ..self.units[i]
                    },
            ),
            ..self
        }
    }
}

/// Units that differ in colour and in being kept by force only take up the
/// same boxes and have the same connections.
pub proof fn lemma_same_boxes(a: Seq<UnitView>, b: Seq<UnitView>)
    requires
        a.len() == b.len(),
        forall|i: int|
            0 <= i < a.len() ==> (#[trigger] b[i]).pos == a[i].pos && b[i].rot == a[i].rot
                && b[i].shape.base == a[i].shape.base && b[i].shape.conns == a[i].shape.conns,
    ensures
        lows(a) == lows(b),
        highs(a) == highs(b),
        size_of(a) == size_of(b),
        origin_of(a) == origin_of(b),
        units_fit(a) ==> units_fit(b),
        units_wired(a) ==> units_wired(b),
    decreases a.len(),
{
    if a.len() > 0 {
        let a0 = a.drop_last();
        let b0 = b.drop_last();
        assert forall|i: int| 0 <= i < a0.len() implies (#[trigger] b0[i]).pos == a0[i].pos
            && b0[i].rot == a0[i].rot && b0[i].shape.base == a0[i].shape.base && b0[i].shape.conns
            == a0[i].shape.conns by {
            assert(b0[i] == b[i]);
        }
        lemma_same_boxes(a0, b0);
        assert(b[a.len() - 1].pos == a[a.len() - 1].pos);
    }
    if units_fit(a) {
        assert forall|i: int| 0 <= i < b.len() implies (#[trigger] b[i]).fits() by {
            assert(a[i].fits());
        }
    }
    if units_wired(a) {
        assert forall|i: int| 0 <= i < b.len() implies (#[trigger] b[i]).wired_within(
            b.len() as int,
        ) by {
            assert(a[i].wired_within(a.len() as int));
        }
    }
}

/// Moves one unit to its place in a larger scheme.
fn relocate(unit: &mut (Point, Rot, Shape), origin: Point, start_shape: usize, pos: Point, rot: Rot)
    requires
        unit_view(*old(unit)).can_relocate(origin, start_shape, pos, rot),
    ensures
        unit_view(*final(unit)) == unit_view(*old(unit)).relocated(origin, start_shape, pos, rot),
{
    let ghost before = unit_view(*unit);
    let turned = rot.apply_to_rot(unit.1);
    let moved = pos.plus(rot.apply(unit.0.minus(origin)));
    let conns = shifted(&unit.2.out_conns, start_shape);
    unit.0 = moved;
    unit.1 = turned;
    unit.2.out_conns = conns;
    proof {
        assert(unit_view(*unit).shape.conns =~= before.relocated(
            origin,
            start_shape,
            pos,
            rot,
        ).shape.conns);
    }
}

/// Each index of `conns`, counted from `start`.
fn shifted(conns: &Vec<usize>, start: usize) -> (out: Vec<usize>)
    requires
        forall|k: int| 0 <= k < conns.len() ==> #[trigger] conns@[k] + start <= usize::MAX,
    ensures
        out@ == Seq::new(conns@.len(), |k: int| (conns@[k] + start) as usize),
{
    let mut out: Vec<usize> = Vec::new();
    let mut k: usize = 0;
    while k < conns.len()
        invariant
            k <= conns.len(),
            out.len() == k,
            forall|j: int| 0 <= j < conns.len() ==> #[trigger] conns@[j] + start <= usize::MAX,
            forall|j: int| 0 <= j < k ==> #[trigger] out@[j] == (conns@[j] + start) as usize,
        decreases conns.len() - k,
    {
        proof {
            assert(conns@[k as int] + start <= usize::MAX);
        }
        out.push(conns[k] + start);
        k += 1;
    }
    proof {
        assert(out@ =~= Seq::new(conns@.len(), |k: int| (conns@[k] + start) as usize));
    }
    out
}

/// The place of the first slot called `name` among `slots`; an empty name
/// stands for the default name.
pub fn find_slot_index(name: &String, slots: &Vec<Slot>) -> (index: Option<usize>)
    ensures
        match index {
            Some(i) => Some(i as int),
            None => None,
        } == slot_position(slots_view(slots@), name@),
        index matches Some(i) ==> i < slots.len(),
{
    let default = DEFAULT_SLOT.to_owned();
    let search_for: &String = if name.as_str().is_empty() {
        &default
    } else {
        name
    };
    let ghost views = slots_view(slots@);
    let mut i: usize = 0;
    while i < slots.len()
        invariant
            i <= slots.len(),
            views == slots_view(slots@),
            search_for@ == slot_name(name@),
            forall|j: int| 0 <= j < i ==> (#[trigger] views[j]).name != slot_name(name@),
        decreases slots.len() - i,
    {
        if slots[i].name == *search_for {
            proof {
                lemma_slot_position_scan(views, name@, i as int);
                assert(views.skip(i as int)[0] == views[i as int]);
            }
            return Some(i);
        }
        i += 1;
    }
    proof {
        lemma_slot_position_scan(views, name@, i as int);
        assert(views.skip(i as int).len() == 0);
    }
    None
}

/// The first slot called `name` among `slots`; an empty name stands for the
/// default name.
pub fn find_slot<'a>(name: &String, slots: &'a Vec<Slot>) -> (slot: Option<&'a Slot>)
    ensures
        slot is Some <==> slot_position(slots_view(slots@), name@) is Some,
        slot matches Some(s) ==> {
            let i = slot_position(slots_view(slots@), name@)->0;
            0 <= i < slots.len() && *s == slots[i]
        },
{
    match find_slot_index(name, slots) {
        Some(i) => Some(&slots[i]),
        None => None,
    }
}

/// The slot and the sector that a path of the form `slot[/sector]` names
/// among `slots`.
pub fn find_slot_sector<'a>(path: String, slots: &'a Vec<Slot>) -> (found: Option<
    (&'a Slot, &'a SlotSector),
>)
    ensures
        found is Some <==> slot_and_sector(slots_view(slots@), path@) is Some,
        found matches Some((slot, sector)) ==> {
            let (i, s) = slot_and_sector(slots_view(slots@), path@)->0;
            &&& 0 <= i < slots.len()
            &&& *slot == slots[i]
            &&& sector@ == s
        },
{
    let (name, sector) = split_first_token(path);
    let sector = match sector {
        None => String::new(),
        Some(sector) => sector,
    };
    match find_slot_index(&name, slots) {
        None => None,
        Some(i) => {
            let slot = &slots[i];
            match slot.get_sector(&sector) {
                Some(found) => Some((slot, found)),
                None => None,
            }
        },
    }
}


impl Clone for Scheme {
    /// A scheme with units and slots of its own that are the same as those
    /// of this one.
    fn clone(&self) -> (copy: Self)
        ensures
            copy@ == self@,
            self.wf() ==> copy.wf(),
    {
        let mut shapes: Vec<(Point, Rot, Shape)> = Vec::new();
        let mut i: usize = 0;
        while i < self.shapes.len()
            invariant
                i <= self.shapes.len(),
                shapes.len() == i,
                forall|j: int| 0 <= j < i ==> unit_view(#[trigger] shapes@[j]) == unit_view(self.shapes@[j]),
            decreases self.shapes.len() - i,
        {
            shapes.push((self.shapes[i].0, self.shapes[i].1, self.shapes[i].2.clone()));
            i += 1;
        }
        let inputs = clone_slots(&self.inputs);
        let outputs = clone_slots(&self.outputs);
        let copy = Scheme { shapes, inputs, outputs, bounds: self.bounds };
        proof {
            assert(copy@.units =~= self@.units);
        }
        copy
    }
}

/// Slots of their own that are the same as the given ones.
fn clone_slots(slots: &Vec<Slot>) -> (copy: Vec<Slot>)
    ensures
        slots_view(copy@) == slots_view(slots@),
        slots_wf(slots@) ==> slots_wf(copy@),
{
    let mut copy: Vec<Slot> = Vec::new();
    let mut i: usize = 0;
    while i < slots.len()
        invariant
            i <= slots.len(),
            copy.len() == i,
            forall|j: int|
                0 <= j < i ==> (#[trigger] copy@[j])@ == slots@[j]@ && copy@[j].wf() == slots@[j].wf(),
        decreases slots.len() - i,
    {
        copy.push(slots[i].clone());
        i += 1;
    }
    proof {
        assert(slots_view(copy@) =~= slots_view(slots@));
        if slots_wf(slots@) {
            assert forall|j: int| 0 <= j < copy.len() implies (#[trigger] copy@[j]).wf() by {
                assert(slots@[j].wf());
            }
        }
    }
    copy
}

/// The scheme of a single shape: the shape at the zero point, not rotated.
pub open spec fn single(shape: ShapeView) -> Seq<UnitView> {
    seq![UnitView { pos: Point { x: 0, y: 0, z: 0 }, rot: Rot::of_angles(0, 0, 0), shape }]
}

/// The slot through which a single shape is reached: one point, which
/// stands for the shape.
pub open spec fn single_slot() -> SlotView {
    SlotView {
        name: DEFAULT_SLOT@,
        kind: SLOT_KIND_LOGIC@,
        bounds: Bounds { x: 1, y: 1, z: 1 },
        points: seq![seq![0usize]],
        sectors: seq![
            (
                Seq::<char>::empty(),
                SectorView {
                    pos: Point { x: 0, y: 0, z: 0 },
                    bounds: Bounds { x: 1, y: 1, z: 1 },
                    kind: SLOT_KIND_LOGIC@,
                },
            ),
        ],
    }
}

/// The kind of the slot of a single shape.
pub const SLOT_KIND_LOGIC: &'static str = "logic";

impl Shape {
    /// The shape is not larger than a scheme can be.
    pub open spec fn small(self) -> bool {
        self@.base.size_of().small()
    }

    /// Every connection of the shape leads to the shape itself: the only
    /// unit there is in a scheme of one.
    pub open spec fn alone(self) -> bool {
        forall|k: int| 0 <= k < self@.conns.len() ==> #[trigger] self@.conns[k] == 0
    }

    /// The scheme that holds this shape alone. If the shape takes
    /// connections, the scheme has the default input slot, and if it gives
    /// connections, the default output slot; each has one point, which
    /// stands for the shape.
    pub fn into_scheme(self) -> (scheme: Scheme)
        requires
            self.small(),
            self.alone(),
        ensures
            scheme.wf(),
            scheme@.units == single(self@),
            scheme@.inputs == if self@.base.takes_input() {
                seq![single_slot()]
            } else {
                Seq::<SlotView>::empty()
            },
            scheme@.outputs == if self@.base.gives_output() {
                seq![single_slot()]
            } else {
                Seq::<SlotView>::empty()
            },
    {
        // Since there is only one shape, slot should be 1 by 1 by 1
        // And the only point of this slot should reference the shape.
        let has_input = self.has_input();
        let has_output = self.has_output();
        let mut inputs: Vec<Slot> = Vec::new();
        let mut outputs: Vec<Slot> = Vec::new();
        if has_input {
            inputs.push(single_slot_of());
        }
        if has_output {
            outputs.push(single_slot_of());
        }
        let ghost shape = self@;
        let mut shapes: Vec<(Point, Rot, Shape)> = Vec::new();
        shapes.push((Point { x: 0, y: 0, z: 0 }, Rot::new(0, 0, 0), self));
        proof {
            let units = units_view(shapes@);
            assert(units =~= single(shape));
            let size = shape.base.size_of();
            crate::util::rot::lemma_identity((2 * size.x - 1, 2 * size.y - 1, 2 * size.z - 1));
            crate::util::rot::lemma_identity((-1, -1, -1));
            assert(units[0].fits());
            assert(units[0].wired_within(1)) by {
                assert forall|k: int| 0 <= k < units[0].shape.conns.len() implies #[trigger] units[0].shape.conns[k]
                    < 1 by {
                    assert(shape.conns[k] == 0);
                }
            }
            assert(slots_view(inputs@) =~= if shape.base.takes_input() {
                seq![single_slot()]
            } else {
                Seq::<SlotView>::empty()
            });
            assert(slots_view(outputs@) =~= if shape.base.gives_output() {
                seq![single_slot()]
            } else {
                Seq::<SlotView>::empty()
            });
            assert(single_slot().within(1)) by {
                assert forall|i: int, k: int|
                    0 <= i < single_slot().points.len() && 0 <= k < single_slot().points[i].len() implies (
                #[trigger] single_slot().points[i][k]) < 1 by {
                    assert(single_slot().points[0] == seq![0usize]);
                }
            }
        }
        Scheme::create(shapes, inputs, outputs)
    }
}

/// The slot through which a single shape is reached.
fn single_slot_of() -> (slot: Slot)
    ensures
        slot.wf(),
        slot@ == single_slot(),
{
    let mut list: Vec<usize> = Vec::new();
    list.push(0);
    let mut data: Vec<Vec<usize>> = Vec::new();
    data.push(list);
    proof {
        assert(1 * 1 * 1 == 1) by (nonlinear_arith);
    }
    let map = Map3D::from_raw((1, 1, 1), data);
    let slot = Slot::new(
        DEFAULT_SLOT.to_owned(),
        SLOT_KIND_LOGIC.to_owned(),
        Bounds { x: 1, y: 1, z: 1 },
        map,
    );
    proof {
        assert(slot@.points =~= seq![seq![0usize]]);
        assert(slot@.points[0] =~= seq![0usize]);
    }
    slot
}

} // verus!
