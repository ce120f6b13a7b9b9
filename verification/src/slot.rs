//! Slots: the addressable interface of a scheme.
//!
//! A slot is a box of abstract points. Each point stands for any number of
//! units of the scheme, named by their index in the scheme's unit list.
//! Named sectors mark parts of the box that can be connected like the slot
//! itself.

use vstd::prelude::*;
use vstd::string::*;
use crate::util::map3d::{cell_id, cells, lemma_cell_id_range, Map3D};
use crate::util::{in_bounds, is_point_in_bounds, Bounds, Point};

verus! {

/// Said of a sector whose name is the empty string.
pub const COMMENT_EMPTY_NAME: &'static str =
    "Slot sector name cannot be zero-sized, because zero sized name is already taken by the slot itself";

/// Said of a sector whose name another sector of the slot has.
pub const COMMENT_TAKEN_NAME: &'static str = "Sector with such name was added before";

/// Said of a sector that does not lie within the slot.
pub const COMMENT_OUT_OF_BOUNDS: &'static str = "Sector does not lie within the bounds of the slot";

/// Name, kind and size of a slot.
#[derive(Debug)]
pub struct BaseSlotData {
    pub name: String,
    pub kind: String,
    pub bounds: Bounds,
}

/// Why a sector could not be added to a slot.
#[derive(Debug)]
pub enum SlotError {
    NameIsAlreadyTaken { main_slot_name: String, subject_name: String, comment: String },
    OutOfBounds {
        main_slot_name: String,
        subject_name: String,
        subject_size: Bounds,
        subject_pos: Point,
        comment: String,
    },
}

/// A part of a slot: the box of size `bounds` whose corner is `pos`.
#[derive(Debug)]
pub struct SlotSector {
    pub pos: Point,
    pub bounds: Bounds,
    pub kind: String,
}

/// What a sector is: its corner, its size and its kind.
pub struct SectorView {
    pub pos: Point,
    pub bounds: Bounds,
    pub kind: Seq<char>,
}

impl View for SlotSector {
    type V = SectorView;

    open spec fn view(&self) -> SectorView {
        SectorView { pos: self.pos, bounds: self.bounds, kind: self.kind@ }
    }
}

impl Clone for SlotSector {
    fn clone(&self) -> (copy: Self)
        ensures
            copy@ == self@,
    {
        SlotSector { pos: self.pos, bounds: self.bounds, kind: self.kind.clone() }
    }
}

/// Slot is `Scheme` interface to connect `Scheme` to other schemes.
/// It maps out abstract Slot space to actual shapes stored in `Scheme`.
///
/// Slot has an abstract 3D space of its size. Each point can transfer
/// data. Using `Connection`, slot's space can be connected
/// to the space of another slot, point-to-point.
///
/// Each point can be connected to any amount of points of another Slot.
/// On the more real side, each abstract point can represent any count
/// of real shapes.
///
/// Slot sector is the part of the slot area that can be used just as
/// the slot itself. The sector with the empty name is the slot itself.
#[derive(Debug)]
pub struct Slot {
    /// Slot name.
    pub name: String,
    /// Meaning of the slot and its data.
    pub kind: String,
    /// Size of the slot.
    pub bounds: Bounds,
    /// Map of the abstract shape space to real shapes.
    pub shape_map: Map3D<Vec<usize>>,
    /// All sectors of the slot, each with its name, in the order in which
    /// they were added. The first is the slot itself.
    pub sectors: Vec<(String, SlotSector)>,
}

/// What a slot is: its name, kind and size, the units of each point (point
/// after point: `x` changes fastest, `z` slowest) and its named sectors.
pub struct SlotView {
    pub name: Seq<char>,
    pub kind: Seq<char>,
    pub bounds: Bounds,
    pub points: Seq<Seq<usize>>,
    pub sectors: Seq<(Seq<char>, SectorView)>,
}

/// The sector that `sectors` holds under `name`: the first one of that name.
pub open spec fn find_sector(sectors: Seq<(Seq<char>, SectorView)>, name: Seq<char>) -> Option<
    SectorView,
>
    decreases sectors.len(),
{
    if sectors.len() == 0 {
        None
    } else if sectors[0].0 == name {
        Some(sectors[0].1)
    } else {
        find_sector(sectors.drop_first(), name)
    }
}

/// A sector lies within a box of size `bounds`: its first and its last
/// point do.
pub open spec fn sector_fits(pos: Point, size: Bounds, bounds: Bounds) -> bool {
    &&& in_bounds(pos, bounds)
    &&& 0 <= pos.x + size.x - 1 < bounds.x
    &&& 0 <= pos.y + size.y - 1 < bounds.y
    &&& 0 <= pos.z + size.z - 1 < bounds.z
}

/// The unit indices of `list` after the unit `id` has left: `id` itself is
/// dropped, and every index above it moves by `offset`.
pub open spec fn renumbered(list: Seq<usize>, id: usize, offset: int) -> Seq<usize>
    decreases list.len(),
{
    if list.len() == 0 {
        Seq::empty()
    } else {
        let rest = renumbered(list.drop_last(), id, offset);
        let last = list.last();
        if last == id {
            rest
        } else if last > id {
            rest.push((last + offset) as usize)
        } else {
            rest.push(last)
        }
    }
}

/// Every index of `list` above `id` can move by `offset`.
pub open spec fn can_renumber(list: Seq<usize>, id: usize, offset: int) -> bool {
    forall|k: int| 0 <= k < list.len() && list[k] > id ==> 0 <= #[trigger] list[k] + offset <= usize::MAX
}

/// The cell `at` lies in a box of size `bounds`.
pub open spec fn inside(at: (int, int, int), bounds: Bounds) -> bool {
    0 <= at.0 < bounds.x && 0 <= at.1 < bounds.y && 0 <= at.2 < bounds.z
}

/// The views of the cells of a raw point map.
pub open spec fn points_view(data: Seq<Vec<usize>>) -> Seq<Seq<usize>> {
    Seq::new(data.len(), |i: int| data[i]@)
}

/// The views of the sectors of a slot.
pub open spec fn sectors_view(sectors: Seq<(String, SlotSector)>) -> Seq<(Seq<char>, SectorView)> {
    Seq::new(sectors.len(), |i: int| (sectors[i].0@, sectors[i].1@))
}

impl SlotView {
    /// The sector that is the slot itself.
    pub open spec fn whole(self) -> SectorView {
        SectorView { pos: Point { x: 0, y: 0, z: 0 }, bounds: self.bounds, kind: self.kind }
    }

    /// There is one list of units for each point, the first sector is the
    /// slot itself under the empty name, no two sectors share a name, and
    /// every other sector lies within the slot.
    pub open spec fn wf(self) -> bool {
        &&& self.points.len() == cells(
            self.bounds.x as int,
            self.bounds.y as int,
            self.bounds.z as int,
        )
        &&& self.sectors.len() > 0
        &&& self.sectors[0] == (Seq::<char>::empty(), self.whole())
        &&& forall|i: int, j: int|
            0 <= i < j < self.sectors.len() ==> self.sectors[i].0 != self.sectors[j].0
        &&& forall|i: int|
            0 < i < self.sectors.len() ==> sector_fits(
                (#[trigger] self.sectors[i]).1.pos,
                self.sectors[i].1.bounds,
                self.bounds,
            )
    }

    /// The place of the cell `(x, y, z)` in `points`.
    pub open spec fn shape_id(self, x: int, y: int, z: int) -> int {
        cell_id(self.bounds.x as int, self.bounds.y as int, x, y, z)
    }

    /// The place of the point `p` in `points`.
    pub open spec fn id_of(self, p: Point) -> int {
        cell_id(self.bounds.x as int, self.bounds.y as int, p.x as int, p.y as int, p.z as int)
    }

    /// The units of the point `p`; none for a point outside the slot.
    pub open spec fn at(self, p: Point) -> Seq<usize> {
        if in_bounds(p, self.bounds) {
            self.points[self.id_of(p)]
        } else {
            Seq::empty()
        }
    }

    /// The units of the cell `at`; none for a cell outside the slot.
    pub open spec fn cell(self, at: (int, int, int)) -> Seq<usize> {
        if inside(at, self.bounds) {
            self.points[cell_id(self.bounds.x as int, self.bounds.y as int, at.0, at.1, at.2)]
        } else {
            Seq::empty()
        }
    }

    /// The sector of the given name.
    pub open spec fn sector(self, name: Seq<char>) -> Option<SectorView> {
        find_sector(self.sectors, name)
    }

    /// Every unit index that the slot holds is below `count`.
    pub open spec fn within(self, count: int) -> bool {
        forall|i: int, k: int|
            0 <= i < self.points.len() && 0 <= k < self.points[i].len() ==> (
            #[trigger] self.points[i][k]) < count
    }

    /// The slot after the unit `id` has left.
    pub open spec fn without(self, id: usize, offset: int) -> SlotView {
        SlotView {
            points: Seq::new(self.points.len(), |i: int| renumbered(self.points[i], id, offset)),
            ..self
        }
    }

    /// Every unit index of the slot above `id` can move by `offset`.
    pub open spec fn can_lose(self, id: usize, offset: int) -> bool {
        forall|i: int| 0 <= i < self.points.len() ==> can_renumber(#[trigger] self.points[i], id, offset)
    }
}

impl View for Slot {
    type V = SlotView;

    open spec fn view(&self) -> SlotView {
        SlotView {
            name: self.name@,
            kind: self.kind@,
            bounds: self.bounds,
            points: points_view(self.shape_map.data@),
            sectors: sectors_view(self.sectors@),
        }
    }
}

impl Clone for Slot {
    fn clone(&self) -> (copy: Self)
        ensures
            copy@ == self@,
            copy.wf() == self.wf(),
            copy.shape_map.x_size == self.shape_map.x_size,
            copy.shape_map.y_size == self.shape_map.y_size,
            copy.shape_map.z_size == self.shape_map.z_size,
            copy.shape_map.data.len() == self.shape_map.data.len(),
    {
        let mut data: Vec<Vec<usize>> = Vec::new();
        let mut i: usize = 0;
        while i < self.shape_map.data.len()
            invariant
                i <= self.shape_map.data.len(),
                data.len() == i,
                forall|j: int| 0 <= j < i ==> (#[trigger] data@[j])@ == self.shape_map.data@[j]@,
            decreases self.shape_map.data.len() - i,
        {
            let list = self.shape_map.data[i].clone();
            proof {
                assert(list@ =~= self.shape_map.data@[i as int]@);
            }
            data.push(list);
            i += 1;
        }
        let mut sectors: Vec<(String, SlotSector)> = Vec::new();
        let mut k: usize = 0;
        while k < self.sectors.len()
            invariant
                k <= self.sectors.len(),
                sectors.len() == k,
                forall|j: int|
                    0 <= j < k ==> (#[trigger] sectors@[j]).0@ == self.sectors@[j].0@ && sectors@[j].1@
                        == self.sectors@[j].1@,
            decreases self.sectors.len() - k,
        {
            sectors.push((self.sectors[k].0.clone(), self.sectors[k].1.clone()));
            k += 1;
        }
        let copy = Slot {
            name: self.name.clone(),
            kind: self.kind.clone(),
            bounds: self.bounds,
            shape_map: Map3D {
                x_size: self.shape_map.x_size,
                y_size: self.shape_map.y_size,
                z_size: self.shape_map.z_size,
                data,
            },
            sectors,
        };
        proof {
            assert(copy@.points =~= self@.points);
            assert(copy@.sectors =~= self@.sectors);
        }
        copy
    }
}

/// A sector of `sectors` has the name `name`.
pub open spec fn has_name(sectors: Seq<(Seq<char>, SectorView)>, name: Seq<char>) -> bool {
    exists|i: int| 0 <= i < sectors.len() && (#[trigger] sectors[i]).0 == name
}

/// `find_sector` finds nothing where no sector has the name.
pub proof fn lemma_find_none(sectors: Seq<(Seq<char>, SectorView)>, name: Seq<char>)
    requires
        forall|j: int| 0 <= j < sectors.len() ==> (#[trigger] sectors[j]).0 != name,
    ensures
        find_sector(sectors, name) is None,
        !has_name(sectors, name),
    decreases sectors.len(),
{
    if sectors.len() > 0 {
        let rest = sectors.drop_first();
        assert forall|j: int| 0 <= j < rest.len() implies (#[trigger] rest[j]).0 != name by {
            assert(rest[j] == sectors[j + 1]);
        }
        lemma_find_none(rest, name);
        assert(sectors[0].0 != name);
    }
}

/// `find_sector` finds the first sector that has the name.
pub proof fn lemma_find_first(sectors: Seq<(Seq<char>, SectorView)>, name: Seq<char>, i: int)
    requires
        0 <= i < sectors.len(),
        sectors[i].0 == name,
        forall|j: int| 0 <= j < i ==> (#[trigger] sectors[j]).0 != name,
    ensures
        find_sector(sectors, name) == Some(sectors[i].1),
        has_name(sectors, name),
    decreases i,
{
    if i > 0 {
        let rest = sectors.drop_first();
        assert(sectors[0].0 != name);
        assert(rest[i - 1] == sectors[i]);
        assert forall|j: int| 0 <= j < i - 1 implies (#[trigger] rest[j]).0 != name by {
            assert(rest[j] == sectors[j + 1]);
        }
        lemma_find_first(rest, name, i - 1);
    }
}

/// The unit indices of `list` after the unit `id` has left.
pub fn renumber(list: &Vec<usize>, id: usize, offset: isize) -> (out: Vec<usize>)
    requires
        can_renumber(list@, id, offset as int),
    ensures
        out@ == renumbered(list@, id, offset as int),
{
    let mut out: Vec<usize> = Vec::new();
    let mut i: usize = 0;
    proof {
        assert(list@.take(0).len() == 0);
    }
    while i < list.len()
        invariant
            i <= list.len(),
            can_renumber(list@, id, offset as int),
            out@ == renumbered(list@.take(i as int), id, offset as int),
        decreases list.len() - i,
    {
        let ghost seen = list@.take(i + 1);
        proof {
            assert(seen.drop_last() =~= list@.take(i as int));
            assert(seen.last() == list@[i as int]);
        }
        let v = list[i];
        if v == id {
        } else if v > id {
            proof {
                assert(0 <= list@[i as int] + offset <= usize::MAX);
            }
            out.push(((v as i128) + (offset as i128)) as usize);
        } else {
            out.push(v);
        }
        proof {
            assert(out@ == renumbered(seen, id, offset as int));
        }
        i += 1;
    }
    proof {
        assert(list@.take(i as int) =~= list@);
    }
    out
}

impl Slot {
    /// The point map has the size of the slot, and what the slot holds is
    /// well-formed.
    pub open spec fn wf(&self) -> bool {
        &&& self.shape_map.wf()
        &&& self.shape_map.x_size == self.bounds.x
        &&& self.shape_map.y_size == self.bounds.y
        &&& self.shape_map.z_size == self.bounds.z
        &&& self@.wf()
    }

    pub fn name(&self) -> (name: &String)
        ensures
            name@ == self@.name,
    {
        &self.name
    }

    pub fn kind(&self) -> (kind: &String)
        ensures
            kind@ == self@.kind,
    {
        &self.kind
    }

    pub fn bounds(&self) -> (bounds: Bounds)
        ensures
            bounds == self@.bounds,
    {
        self.bounds
    }

    pub fn shape_map(&self) -> (map: &Map3D<Vec<usize>>)
        ensures
            *map == self.shape_map,
    {
        &self.shape_map
    }

    /// The point map, to be changed in place. The slot stays well-formed
    /// as long as the map keeps its size.
    pub fn shape_map_mut(&mut self) -> (map: &mut Map3D<Vec<usize>>)
        ensures
            *map == old(self).shape_map,
            final(self).shape_map == *final(map),
            final(self).name == old(self).name,
            final(self).kind == old(self).kind,
            final(self).bounds == old(self).bounds,
            final(self).sectors == old(self).sectors,
    {
        &mut self.shape_map
    }

    pub fn sectors(&self) -> (sectors: &Vec<(String, SlotSector)>)
        ensures
            *sectors == self.sectors,
    {
        &self.sectors
    }

    /// The sectors, to be changed in place.
    pub fn sectors_mut(&mut self) -> (sectors: &mut Vec<(String, SlotSector)>)
        ensures
            *sectors == old(self).sectors,
            final(self).sectors == *final(sectors),
            final(self).name == old(self).name,
            final(self).kind == old(self).kind,
            final(self).bounds == old(self).bounds,
            final(self).shape_map == old(self).shape_map,
    {
        &mut self.sectors
    }

    /// Returns reference to vec of shapes, connected to specific point
    /// of abstract slot space.
    pub fn get_point(&self, pos: Point) -> (units: Option<&Vec<usize>>)
        requires
            self.wf(),
        ensures
            units is Some <==> in_bounds(pos, self@.bounds),
            units matches Some(list) ==> list@ == self@.at(pos),
    {
        if pos.x < 0 || pos.y < 0 || pos.z < 0 {
            return None;
        }
        let at = (pos.x as usize, pos.y as usize, pos.z as usize);
        match self.shape_map.get(at) {
            Some(list) => {
                proof {
                    lemma_cell_id_range(
                        self.bounds.x as int,
                        self.bounds.y as int,
                        self.bounds.z as int,
                        pos.x as int,
                        pos.y as int,
                        pos.z as int,
                    );
                    assert(self@.points[self@.id_of(pos)] == list@);
                }
                Some(list)
            },
            None => None,
        }
    }

    /// The units of the cell `at`, whose coordinates are 64-bit integers.
    pub fn units_at(&self, at: (i64, i64, i64)) -> (units: Option<&Vec<usize>>)
        requires
            self.wf(),
        ensures
            units is Some <==> inside((at.0 as int, at.1 as int, at.2 as int), self@.bounds),
            units matches Some(list) ==> list@ == self@.cell(
                (at.0 as int, at.1 as int, at.2 as int),
            ),
    {
        if at.0 < 0 || at.1 < 0 || at.2 < 0 || at.0 >= self.bounds.x as i64 || at.1
            >= self.bounds.y as i64 || at.2 >= self.bounds.z as i64 {
            return None;
        }
        let pos = (at.0 as usize, at.1 as usize, at.2 as usize);
        match self.shape_map.get(pos) {
            Some(list) => {
                proof {
                    lemma_cell_id_range(
                        self.bounds.x as int,
                        self.bounds.y as int,
                        self.bounds.z as int,
                        at.0 as int,
                        at.1 as int,
                        at.2 as int,
                    );
                    assert(self@.points[self@.shape_id(at.0 as int, at.1 as int, at.2 as int)]
                        == list@);
                }
                Some(list)
            },
            None => None,
        }
    }

    /// Returns basic data about the slot.
    pub fn base_data(&self) -> (data: BaseSlotData)
        ensures
            data.name@ == self@.name,
            data.kind@ == self@.kind,
            data.bounds == self@.bounds,
    {
        BaseSlotData { name: self.name.clone(), kind: self.kind.clone(), bounds: self.bounds }
    }

    /// Creates slot from given data.
    pub fn new(name: String, kind: String, bounds: Bounds, shape_map: Map3D<Vec<usize>>) -> (slot:
        Self)
        requires
            shape_map.wf(),
            shape_map.x_size == bounds.x,
            shape_map.y_size == bounds.y,
            shape_map.z_size == bounds.z,
        ensures
            slot.wf(),
            slot@ == (SlotView {
                name: name@,
                kind: kind@,
                bounds,
                points: points_view(shape_map.data@),
                sectors: seq![
                    (
                        Seq::<char>::empty(),
                        SectorView { pos: Point { x: 0, y: 0, z: 0 }, bounds, kind: kind@ },
                    ),
                ],
            }),
    {
        let mut sectors: Vec<(String, SlotSector)> = Vec::new();
        // Sector with empty name is the slot itself
        sectors.push(
            (String::new(), SlotSector { pos: Point { x: 0, y: 0, z: 0 }, bounds, kind: kind.clone() }),
        );
        let slot = Slot { name, kind, bounds, shape_map, sectors };
        proof {
            assert(slot@.sectors =~= seq![
                (
                    Seq::<char>::empty(),
                    SectorView { pos: Point { x: 0, y: 0, z: 0 }, bounds, kind: kind@ },
                ),
            ]);
        }
        slot
    }

    /// The place of the sector called `name` among the sectors.
    pub fn sector_index(&self, name: &String) -> (index: Option<usize>)
        ensures
            index is Some <==> has_name(self@.sectors, name@),
            index matches Some(i) ==> i < self.sectors.len() && self@.sectors[i as int].0 == name@
                && self@.sector(name@) == Some(self@.sectors[i as int].1),
            index is None ==> self@.sector(name@) is None,
    {
        let mut i: usize = 0;
        while i < self.sectors.len()
            invariant
                i <= self.sectors.len(),
                forall|j: int| 0 <= j < i ==> (#[trigger] self@.sectors[j]).0 != name@,
            decreases self.sectors.len() - i,
        {
            if self.sectors[i].0 == *name {
                proof {
                    assert(self@.sectors[i as int].0 == name@);
                    lemma_find_first(self@.sectors, name@, i as int);
                }
                return Some(i);
            }
            i += 1;
        }
        proof {
            lemma_find_none(self@.sectors, name@);
        }
        None
    }

    /// Returns sector with such name, if it exists.
    pub fn get_sector(&self, name: &String) -> (sector: Option<&SlotSector>)
        ensures
            sector is Some <==> self@.sector(name@) is Some,
            sector matches Some(s) ==> Some(s@) == self@.sector(name@),
    {
        match self.sector_index(name) {
            Some(i) => Some(&self.sectors[i].1),
            None => None,
        }
    }

    /// Adds sector. The name has to be new and not empty, and the sector
    /// has to lie within the slot.
    pub fn bind_sector(&mut self, name: String, sector: SlotSector) -> (done: Result<(), SlotError>)
        requires
            old(self).wf(),
        ensures
            final(self).wf(),
            done is Ok <==> (name@.len() > 0 && !has_name(old(self)@.sectors, name@) && sector_fits(
                sector.pos,
                sector.bounds,
                old(self)@.bounds,
            )),
            done is Ok ==> final(self)@ == (SlotView {
                sectors: old(self)@.sectors.push((name@, sector@)),
                ..old(self)@
            }),
            done is Err ==> final(self)@ == old(self)@,
            done matches Err(SlotError::NameIsAlreadyTaken { main_slot_name, subject_name, comment })
                ==> (name@.len() == 0 || has_name(old(self)@.sectors, name@)) && main_slot_name@
                == old(self)@.name && subject_name@ == name@ && comment@ == (if name@.len() == 0 {
                COMMENT_EMPTY_NAME@
            } else {
                COMMENT_TAKEN_NAME@
            }),
            done matches Err(
                SlotError::OutOfBounds {
                    main_slot_name,
                    subject_name,
                    subject_size,
                    subject_pos,
                    comment,
                },
            ) ==> name@.len() > 0 && !has_name(old(self)@.sectors, name@) && main_slot_name@ == old(
                self,
            )@.name && subject_name@ == name@ && subject_size == sector.bounds && subject_pos
                == sector.pos && comment@ == COMMENT_OUT_OF_BOUNDS@,
    {
        if name.as_str().is_empty() {
            return Err(
                SlotError::NameIsAlreadyTaken {
                    main_slot_name: self.name.clone(),
                    subject_name: name,
                    comment: COMMENT_EMPTY_NAME.to_owned(),
                },
            );
        }
        // Check that there is no already existing slot with such name.

        if self.sector_index(&name).is_some() {
            return Err(
                SlotError::NameIsAlreadyTaken {
                    main_slot_name: self.name.clone(),
                    subject_name: name,
                    comment: COMMENT_TAKEN_NAME.to_owned(),
                },
            );
        }
        if !fits_within(sector.pos, sector.bounds, self.bounds) {
            return Err(
                SlotError::OutOfBounds {
                    main_slot_name: self.name.clone(),
                    subject_name: name,
                    subject_size: sector.bounds,
                    subject_pos: sector.pos,
                    comment: COMMENT_OUT_OF_BOUNDS.to_owned(),
                },
            );
        }
        let ghost before = self@;
        let ghost added = (name@, sector@);
        self.sectors.push((name, sector));
        proof {
            assert(self@.sectors =~= before.sectors.push(added));
            assert forall|i: int, j: int| 0 <= i < j < self@.sectors.len() implies self@.sectors[i].0
                != self@.sectors[j].0 by {
                if j == before.sectors.len() {
                    assert(before.sectors[i] == self@.sectors[i]);
                }
            }
        }
        Ok(())
    }

    /// Tells the slot that the unit `id` has left its scheme: every index
    /// equal to `id` is dropped from every point, and every index above `id`
    /// moves by `id_offset`.
    pub fn shape_was_removed(&mut self, id: usize, id_offset: isize)
        requires
            old(self).wf(),
            old(self)@.can_lose(id, id_offset as int),
        ensures
            final(self).wf(),
            final(self)@ == old(self)@.without(id, id_offset as int),
    {
        let ghost before = self@;
        let n = self.shape_map.data.len();
        let mut i: usize = 0;
        while i < n
            invariant
                i <= n,
                n == self.shape_map.data.len(),
                self.shape_map.x_size == old(self).shape_map.x_size,
                self.shape_map.y_size == old(self).shape_map.y_size,
                self.shape_map.z_size == old(self).shape_map.z_size,
                self.name == old(self).name,
                self.kind == old(self).kind,
                self.bounds == old(self).bounds,
                self.sectors == old(self).sectors,
                before == old(self)@,
                before.can_lose(id, id_offset as int),
                before.points.len() == n,
                forall|j: int| 0 <= j < i ==> #[trigger] self.shape_map.data@[j]@ == renumbered(
                    before.points[j],
                    id,
                    id_offset as int,
                ),
                forall|j: int| i <= j < n ==> #[trigger] self.shape_map.data@[j]@ == before.points[j],
            decreases n - i,
        {
            proof {
                assert(can_renumber(before.points[i as int], id, id_offset as int));
            }
            let list = renumber(&self.shape_map.data[i], id, id_offset);
            self.shape_map.data.set(i, list);
            i += 1;
        }
        proof {
            assert(self@.points =~= before.without(id, id_offset as int).points);
            assert(self@.sectors =~= before.sectors);
        }
    }
}

/// Tells whether a sector lies within a box of size `bounds`.
pub fn fits_within(pos: Point, size: Bounds, bounds: Bounds) -> (fits: bool)
    ensures
        fits == sector_fits(pos, size, bounds),
{
    let ex: i64 = pos.x as i64 + size.x as i64 - 1;
    let ey: i64 = pos.y as i64 + size.y as i64 - 1;
    let ez: i64 = pos.z as i64 + size.z as i64 - 1;
    is_point_in_bounds(pos, bounds) && 0 <= ex && ex < bounds.x as i64 && 0 <= ey && ey
        < bounds.y as i64 && 0 <= ez && ez < bounds.z as i64
}

} // verus!
