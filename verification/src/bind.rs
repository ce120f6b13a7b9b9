//! Binds: slots in the making.
//!
//! A bind says how the points of a new slot map onto slots of the schemes
//! inside a combiner. It names its targets by path and is only held against
//! real schemes when it is compiled.

use vstd::prelude::*;
use vstd::string::*;
use std::sync::Arc;
use crate::combiner::SlotSide;
use crate::connection::grid::{box_points, lemma_box_contains, points_of};
use crate::connection::order::Pair;
use crate::connection::{ConnDim, ConnStraight, Connection};
use crate::scheme::{find_slot_index, slot_position, slots_view, slots_wf};
use crate::slot::{
    fits_within, has_name, inside, points_view, sector_fits, sectors_view, SectorView, Slot,
    SlotSector, SlotView,
};
use crate::util::map3d::{cell_id, cells, lemma_cell_id_range, Map3D};
use crate::util::{in_bounds, is_point_in_bounds, opt_chars, split_first_token, split_token, Bounds, Point};

verus! {

/// Another handle to the value that `shared` points to. Both handles give
/// the same value: this is `Arc::clone`, which copies the pointer and not
/// what it points to.
#[verifier::external_body]
pub(crate) fn share<T>(shared: &Arc<T>) -> (handle: Arc<T>)
    ensures
        handle == *shared,
{
    shared.clone()
}

/// One mapping of a bind: the sector of the bind at `sector_corner` of size
/// `sector_size` is connected to the slot or sector at the path `target`,
/// as `conn` says.
pub struct BasicBind {
    pub sector_corner: Point,
    pub sector_size: Bounds,
    pub target: String,
    pub conn: Arc<Connection>,
}

/// What a mapping of a bind holds.
pub struct EntryView {
    pub corner: Point,
    pub size: Bounds,
    pub target: Seq<char>,
    pub conn: Connection,
}

impl View for BasicBind {
    type V = EntryView;

    open spec fn view(&self) -> EntryView {
        EntryView {
            corner: self.sector_corner,
            size: self.sector_size,
            target: self.target@,
            conn: *self.conn,
        }
    }
}

impl Clone for BasicBind {
    fn clone(&self) -> (copy: Self)
        ensures
            copy@ == self@,
    {
        BasicBind {
            sector_corner: self.sector_corner,
            sector_size: self.sector_size,
            target: self.target.clone(),
            conn: share(&self.conn),
        }
    }
}

/// A mapping of a bind that names a target which does not exist.
pub enum InvalidConn {
    TargetSchemeDoesNotExists { sector: BasicBind, target_scheme: String },
    TargetSlotDoesNotExists { sector: BasicBind, target_slot: String },
    TargetSlotSectorDoesNotExists {
        sector: BasicBind,
        target_slot: String,
        target_slot_sector: String,
    },
}

/// What a complaint about a mapping holds.
pub enum InvalidConnView {
    NoScheme { sector: EntryView, target_scheme: Seq<char> },
    NoSlot { sector: EntryView, target_slot: Seq<char> },
    NoSector { sector: EntryView, target_slot: Seq<char>, target_slot_sector: Seq<char> },
}

impl View for InvalidConn {
    type V = InvalidConnView;

    open spec fn view(&self) -> InvalidConnView {
        match self {
            InvalidConn::TargetSchemeDoesNotExists { sector, target_scheme } => {
                InvalidConnView::NoScheme { sector: sector@, target_scheme: target_scheme@ }
            },
            InvalidConn::TargetSlotDoesNotExists { sector, target_slot } => {
                InvalidConnView::NoSlot { sector: sector@, target_slot: target_slot@ }
            },
            InvalidConn::TargetSlotSectorDoesNotExists {
                sector,
                target_slot,
                target_slot_sector,
            } => InvalidConnView::NoSector {
                sector: sector@,
                target_slot: target_slot@,
                target_slot_sector: target_slot_sector@,
            },
        }
    }
}

impl Clone for InvalidConn {
    fn clone(&self) -> (copy: Self)
        ensures
            copy@ == self@,
    {
        match self {
            InvalidConn::TargetSchemeDoesNotExists { sector, target_scheme } => {
                InvalidConn::TargetSchemeDoesNotExists {
                    sector: sector.clone(),
                    target_scheme: target_scheme.clone(),
                }
            },
            InvalidConn::TargetSlotDoesNotExists { sector, target_slot } => {
                InvalidConn::TargetSlotDoesNotExists {
                    sector: sector.clone(),
                    target_slot: target_slot.clone(),
                }
            },
            InvalidConn::TargetSlotSectorDoesNotExists {
                sector,
                target_slot,
                target_slot_sector,
            } => InvalidConn::TargetSlotSectorDoesNotExists {
                sector: sector.clone(),
                target_slot: target_slot.clone(),
                target_slot_sector: target_slot_sector.clone(),
            },
        }
    }
}

/// Why a sector could not be added to a bind.
#[derive(Debug)]
pub enum SectorError {
    NameIsAlreadyTaken { taken_name: String },
    SectorIsOutOfSlotBounds {
        sector_name: String,
        sector_pos: Point,
        sector_bounds: Bounds,
        slot_bounds: Bounds,
    },
}

/// The slots of one side of a scheme inside a combiner: the name of the
/// scheme, the number of units that stand before its own in the flat unit
/// list, and its slots.
pub struct SlotsOf {
    pub scheme: String,
    pub start_shape: usize,
    pub slots: Vec<Slot>,
}

/// What an entry of a namespace holds.
pub struct SlotsOfView {
    pub scheme: Seq<char>,
    pub start: usize,
    pub slots: Seq<SlotView>,
}

impl View for SlotsOf {
    type V = SlotsOfView;

    open spec fn view(&self) -> SlotsOfView {
        SlotsOfView {
            scheme: self.scheme@,
            start: self.start_shape,
            slots: slots_view(self.slots@),
        }
    }
}

/// The views of the entries of a namespace.
pub open spec fn names_view(names: Seq<SlotsOf>) -> Seq<SlotsOfView> {
    Seq::new(names.len(), |i: int| names[i]@)
}

/// Every slot of the namespace is well-formed, and every unit that a slot
/// names is, counted from the start of its scheme, one of `total` units.
pub open spec fn names_wf(names: Seq<SlotsOfView>, total: int) -> bool {
    &&& total <= usize::MAX
    &&& forall|e: int, s: int|
        0 <= e < names.len() && 0 <= s < names[e].slots.len() ==> (
        #[trigger] names[e].slots[s]).wf() && names[e].slots[s].within(total - names[e].start)
}

/// The slots of every entry have point maps of their own size.
pub open spec fn names_exec_wf(names: Seq<SlotsOf>) -> bool {
    forall|e: int| 0 <= e < names.len() ==> slots_wf((#[trigger] names[e]).slots@)
}

/// The place of the first entry for the scheme `name`.
pub open spec fn scheme_position(names: Seq<SlotsOfView>, name: Seq<char>) -> Option<int>
    decreases names.len(),
{
    if names.len() == 0 {
        None
    } else if names[0].scheme == name {
        Some(0)
    } else {
        match scheme_position(names.drop_first(), name) {
            Some(i) => Some(i + 1),
            None => None,
        }
    }
}

/// The first `i` entries are not for `name`, so the search goes on behind
/// them.
pub proof fn lemma_scheme_position_scan(names: Seq<SlotsOfView>, name: Seq<char>, i: int)
    requires
        0 <= i <= names.len(),
        forall|j: int| 0 <= j < i ==> (#[trigger] names[j]).scheme != name,
    ensures
        scheme_position(names, name) == match scheme_position(names.skip(i), name) {
            Some(k) => Some(k + i),
            None => None,
        },
    decreases i,
{
    if i == 0 {
        assert(names.skip(0) =~= names);
    } else {
        let rest = names.drop_first();
        assert(names[0].scheme != name);
        assert forall|j: int| 0 <= j < i - 1 implies (#[trigger] rest[j]).scheme != name by {
            assert(rest[j] == names[j + 1]);
        }
        lemma_scheme_position_scan(rest, name, i - 1);
        assert(rest.skip(i - 1) =~= names.skip(i));
    }
}

/// The characters of an optional path segment; none where it is missing.
pub open spec fn segment(part: Option<Seq<char>>) -> Seq<char> {
    match part {
        Some(s) => s,
        None => Seq::empty(),
    }
}

/// What a path leads to.
pub enum Target {
    /// No scheme of the namespace has the name.
    NoScheme { scheme: Seq<char> },
    /// The scheme has no slot of the name.
    NoSlot { slot: Seq<char> },
    /// The slot has no sector of the name.
    NoSector { slot: Seq<char>, sector: Seq<char> },
    /// The sector `sector` of the slot at place `slot` of the entry at place
    /// `entry`.
    Found { entry: int, index: int, part: SectorView },
}

/// Where the path `scheme[/slot[/sector]]` leads in a namespace. A missing
/// slot name stands for the default slot, a missing sector name for the
/// whole slot.
pub open spec fn resolve(names: Seq<SlotsOfView>, path: Seq<char>) -> Target {
    let (scheme, rest) = split_token(path);
    let (slot, sector) = split_token(segment(rest));
    let sector = segment(sector);
    match scheme_position(names, scheme) {
        None => Target::NoScheme { scheme },
        Some(e) => match slot_position(names[e].slots, slot) {
            None => Target::NoSlot { slot },
            Some(s) => match names[e].slots[s].sector(sector) {
                None => Target::NoSector { slot, sector },
                Some(found) => Target::Found { entry: e, index: s, part: found },
            },
        },
    }
}

/// A found target is a place of the namespace.
pub proof fn lemma_resolve_range(names: Seq<SlotsOfView>, path: Seq<char>)
    ensures
        resolve(names, path) matches Target::Found { entry, index: slot, part: sector } ==> 0 <= entry
            < names.len() && 0 <= slot < names[entry].slots.len() && names[entry].slots[slot].sector(
            segment(split_token(segment(split_token(path).1)).1),
        ) == Some(sector),
{
    let (scheme, rest) = split_token(path);
    let (slot, sector) = split_token(segment(rest));
    lemma_scheme_position_range(names, scheme);
    if scheme_position(names, scheme) is Some {
        crate::scheme::lemma_slot_position_range(names[scheme_position(names, scheme)->0].slots, slot);
    }
}

/// A found position is a place of the namespace.
pub proof fn lemma_scheme_position_range(names: Seq<SlotsOfView>, name: Seq<char>)
    ensures
        scheme_position(names, name) matches Some(i) ==> 0 <= i < names.len() && names[i].scheme
            == name,
    decreases names.len(),
{
    if names.len() > 0 && names[0].scheme != name {
        lemma_scheme_position_range(names.drop_first(), name);
    }
}

/// The pairs that a connection proposes, each turned round.
pub open spec fn mirrored(pairs: Seq<Pair>) -> Seq<Pair> {
    Seq::new(pairs.len(), |i: int| (pairs[i].1, pairs[i].0))
}

/// Each index of `list`, counted from `start`.
pub open spec fn shifted_by(list: Seq<usize>, start: usize) -> Seq<usize> {
    Seq::new(list.len(), |k: int| (list[k] + start) as usize)
}

impl EntryView {
    /// The pairs that the mapping proposes, as (point of the bind's sector,
    /// point of the target sector). An input receives from its target, so
    /// the connection runs from the bind to the target; for an output it
    /// runs from the target to the bind, and the pairs are turned round.
    pub open spec fn proposed(self, target: SectorView, side: SlotSide) -> Seq<Pair> {
        match side {
            SlotSide::Input => self.conn.pairs(self.size, target.bounds),
            SlotSide::Output => mirrored(self.conn.pairs(target.bounds, self.size)),
        }
    }

    /// The cell of the bind that a point of the mapping's sector is.
    pub open spec fn local(self, p: Point) -> (int, int, int) {
        (self.corner.x + p.x, self.corner.y + p.y, self.corner.z + p.z)
    }

    /// The pair falls on real points: the bind's point lies in the mapping's
    /// sector and in the bind, the target's point in the target sector and
    /// in the target slot.
    pub open spec fn lands(self, bind: Bounds, sector: SectorView, slot: Bounds, pair: Pair) -> bool {
        &&& in_bounds(pair.0, self.size)
        &&& inside(self.local(pair.0), bind)
        &&& in_bounds(pair.1, sector.bounds)
        &&& inside(remote(sector, pair.1), slot)
    }

    /// The points of the bind after the pairs of `pairs` that land were
    /// followed: the units of the target's point, counted from `start`, are
    /// added to the units of the bind's point.
    pub open spec fn wired(
        self,
        points: Seq<Seq<usize>>,
        bind: Bounds,
        slot: SlotView,
        sector: SectorView,
        start: usize,
        pairs: Seq<Pair>,
    ) -> Seq<Seq<usize>>
        decreases pairs.len(),
    {
        if pairs.len() == 0 {
            points
        } else {
            let before = self.wired(points, bind, slot, sector, start, pairs.drop_last());
            let pair = pairs.last();
            if self.lands(bind, sector, slot.bounds, pair) {
                let at = self.local(pair.0);
                let id = cell_id(bind.x as int, bind.y as int, at.0, at.1, at.2);
                before.update(
                    id,
                    before[id] + shifted_by(slot.cell(remote(sector, pair.1)), start),
                )
            } else {
                before
            }
        }
    }

    /// The points of the bind after the mapping was followed. A mapping
    /// whose target does not exist changes nothing.
    pub open spec fn applied(
        self,
        points: Seq<Seq<usize>>,
        bind: Bounds,
        names: Seq<SlotsOfView>,
        side: SlotSide,
    ) -> Seq<Seq<usize>> {
        match resolve(names, self.target) {
            Target::Found { entry, index: slot, part: sector } => self.wired(
                points,
                bind,
                names[entry].slots[slot],
                sector,
                names[entry].start,
                self.proposed(sector, side),
            ),
            _ => points,
        }
    }

    /// What there is to complain about the mapping: nothing if its target
    /// exists.
    pub open spec fn complaint(self, names: Seq<SlotsOfView>) -> Option<InvalidConnView> {
        match resolve(names, self.target) {
            Target::NoScheme { scheme } => Some(
                InvalidConnView::NoScheme { sector: self, target_scheme: scheme },
            ),
            Target::NoSlot { slot } => Some(InvalidConnView::NoSlot { sector: self, target_slot: slot }),
            Target::NoSector { slot, sector } => Some(
                InvalidConnView::NoSector {
                    sector: self,
                    target_slot: slot,
                    target_slot_sector: sector,
                },
            ),
            Target::Found { .. } => None,
        }
    }
}

/// The cell of the target slot that a point of the target sector is.
pub open spec fn remote(sector: SectorView, p: Point) -> (int, int, int) {
    (sector.pos.x + p.x, sector.pos.y + p.y, sector.pos.z + p.z)
}

/// The points of a bind after the mappings were followed, one after the
/// other.
pub open spec fn applied_all(
    entries: Seq<EntryView>,
    points: Seq<Seq<usize>>,
    bind: Bounds,
    names: Seq<SlotsOfView>,
    side: SlotSide,
) -> Seq<Seq<usize>>
    decreases entries.len(),
{
    if entries.len() == 0 {
        points
    } else {
        entries.last().applied(
            applied_all(entries.drop_last(), points, bind, names, side),
            bind,
            names,
            side,
        )
    }
}

/// The complaints about the mappings, in the order of the mappings.
pub open spec fn complaints(entries: Seq<EntryView>, names: Seq<SlotsOfView>) -> Seq<
    InvalidConnView,
>
    decreases entries.len(),
{
    if entries.len() == 0 {
        Seq::empty()
    } else {
        let before = complaints(entries.drop_last(), names);
        match entries.last().complaint(names) {
            Some(c) => before.push(c),
            None => before,
        }
    }
}

/// The views of the mappings of a bind.
pub open spec fn entries_view(maps: Seq<BasicBind>) -> Seq<EntryView> {
    Seq::new(maps.len(), |i: int| maps[i]@)
}

/// The views of a list of complaints.
pub open spec fn complaints_view(list: Seq<InvalidConn>) -> Seq<InvalidConnView> {
    Seq::new(list.len(), |i: int| list[i]@)
}

/// A sector that a bind declares: its name, corner, size and kind.
pub struct DeclaredSector {
    pub name: Seq<char>,
    pub pos: Point,
    pub bounds: Bounds,
    pub kind: Seq<char>,
}

/// The views of the sectors that a bind declares.
pub open spec fn declared_view(sectors: Seq<(String, Point, Bounds, String)>) -> Seq<
    DeclaredSector,
> {
    Seq::new(
        sectors.len(),
        |i: int|
            DeclaredSector {
                name: sectors[i].0@,
                pos: sectors[i].1,
                bounds: sectors[i].2,
                kind: sectors[i].3@,
            },
    )
}

/// Bind is just [`Slot`] builder.
///
/// It is used to create Slots conveniently.
pub struct Bind {
    pub name: String,
    pub kind: String,
    pub size: Bounds,
    pub sectors: Vec<(String, Point, Bounds, String)>,
    pub maps: Vec<BasicBind>,
}

/// What a bind holds.
pub struct BindView {
    pub name: Seq<char>,
    pub kind: Seq<char>,
    pub size: Bounds,
    pub sectors: Seq<DeclaredSector>,
    pub maps: Seq<EntryView>,
}

impl View for Bind {
    type V = BindView;

    open spec fn view(&self) -> BindView {
        BindView {
            name: self.name@,
            kind: self.kind@,
            size: self.size,
            sectors: declared_view(self.sectors@),
            maps: entries_view(self.maps@),
        }
    }
}

/// A declared sector has the name `name`.
pub open spec fn declares(sectors: Seq<DeclaredSector>, name: Seq<char>) -> bool {
    exists|i: int| 0 <= i < sectors.len() && (#[trigger] sectors[i]).name == name
}

impl BindView {
    /// The declared sectors have names of their own, none of them empty,
    /// and lie within the bind.
    pub open spec fn wf(self) -> bool {
        &&& forall|i: int| 0 <= i < self.sectors.len() ==> (#[trigger] self.sectors[i]).name.len() > 0
        &&& forall|i: int, j: int|
            0 <= i < j < self.sectors.len() ==> (#[trigger] self.sectors[i]).name != (
            #[trigger] self.sectors[j]).name
        &&& forall|i: int|
            0 <= i < self.sectors.len() ==> sector_fits(
                (#[trigger] self.sectors[i]).pos,
                self.sectors[i].bounds,
                self.size,
            )
    }

    /// A point map for the bind can be held in memory.
    pub open spec fn can_compile(self) -> bool {
        cells(self.size.x as int, self.size.y as int, self.size.z as int) <= usize::MAX
    }

    /// The sector that is the bind itself.
    pub open spec fn whole(self) -> SectorView {
        SectorView { pos: Point { x: 0, y: 0, z: 0 }, bounds: self.size, kind: self.kind }
    }

    /// The sectors of the slot that the bind compiles to: the slot itself,
    /// and then the declared sectors.
    pub open spec fn slot_sectors(self) -> Seq<(Seq<char>, SectorView)> {
        seq![(Seq::<char>::empty(), self.whole())] + Seq::new(
            self.sectors.len(),
            |i: int|
                (
                    self.sectors[i].name,
                    SectorView {
                        pos: self.sectors[i].pos,
                        bounds: self.sectors[i].bounds,
                        kind: self.sectors[i].kind,
                    },
                ),
        )
    }

    /// The point map of a bind before any mapping was followed: no point
    /// stands for any unit.
    pub open spec fn blank(self) -> Seq<Seq<usize>> {
        Seq::new(
            cells(self.size.x as int, self.size.y as int, self.size.z as int) as nat,
            |i: int| Seq::<usize>::empty(),
        )
    }

    /// The slot that the bind compiles to: it has the name, kind and size
    /// of the bind, each point stands for the units that the mappings lead
    /// it to, and the declared sectors are its sectors.
    pub open spec fn compiled(self, names: Seq<SlotsOfView>, side: SlotSide) -> SlotView {
        SlotView {
            name: self.name,
            kind: self.kind,
            bounds: self.size,
            points: applied_all(self.maps, self.blank(), self.size, names, side),
            sectors: self.slot_sectors(),
        }
    }

    /// The complaints about the mappings whose target does not exist.
    pub open spec fn unresolved(self, names: Seq<SlotsOfView>) -> Seq<InvalidConnView> {
        complaints(self.maps, names)
    }
}


/// The place of the first entry for the scheme `name`.
pub fn find_scheme_index(name: &String, schemes: &Vec<SlotsOf>) -> (index: Option<usize>)
    ensures
        match index {
            Some(i) => Some(i as int),
            None => None,
        } == scheme_position(names_view(schemes@), name@),
        index matches Some(i) ==> i < schemes.len(),
{
    let ghost views = names_view(schemes@);
    let mut i: usize = 0;
    while i < schemes.len()
        invariant
            i <= schemes.len(),
            views == names_view(schemes@),
            forall|j: int| 0 <= j < i ==> (#[trigger] views[j]).scheme != name@,
        decreases schemes.len() - i,
    {
        if schemes[i].scheme == *name {
            proof {
                lemma_scheme_position_scan(views, name@, i as int);
                assert(views.skip(i as int)[0] == views[i as int]);
            }
            return Some(i);
        }
        i += 1;
    }
    proof {
        lemma_scheme_position_scan(views, name@, i as int);
        assert(views.skip(i as int).len() == 0);
    }
    None
}

/// The three segments of a path: scheme, slot and sector. A missing
/// segment is empty.
pub fn split_path(path: String) -> (parts: (String, String, String))
    ensures
        parts.0@ == split_token(path@).0,
        parts.1@ == split_token(segment(split_token(path@).1)).0,
        parts.2@ == segment(split_token(segment(split_token(path@).1)).1),
{
    let (scheme, rest) = split_first_token(path);
    let rest = match rest {
        None => String::new(),
        Some(rest) => rest,
    };
    let (slot, sector) = split_first_token(rest);
    let sector = match sector {
        None => String::new(),
        Some(sector) => sector,
    };
    (scheme, slot, sector)
}

/// What a path leads to, as places in the namespace.
pub enum Place {
    NoScheme { scheme: String },
    NoSlot { slot: String },
    NoSector { slot: String, sector: String },
    Found { entry: usize, index: usize, part: usize },
}

/// Where the path `scheme[/slot[/sector]]` leads in the namespace: the
/// places of the entry, of the slot among the slots of the entry, and of
/// the sector among the sectors of the slot, or the name that was not
/// found.
pub fn locate(path: String, schemes: &Vec<SlotsOf>) -> (place: Place)
    ensures
        match resolve(names_view(schemes@), path@) {
            Target::NoScheme { scheme } => place matches Place::NoScheme { scheme: s } && s@
                == scheme,
            Target::NoSlot { slot } => place matches Place::NoSlot { slot: s } && s@ == slot,
            Target::NoSector { slot, sector } => place matches Place::NoSector { slot: s, sector: t }
                && s@ == slot && t@ == sector,
            Target::Found { entry, index: slot, part: sector } => place matches Place::Found {
                entry: e,
                index: s,
                part: t,
            } && e == entry && s == slot && e < schemes.len() && s < schemes[e as int].slots.len()
                && t < schemes[e as int].slots[s as int].sectors.len()
                && schemes[e as int].slots[s as int].sectors[t as int].1@ == sector,
        },
{
    let (scheme, slot, sector) = split_path(path);
    match find_scheme_index(&scheme, schemes) {
        None => Place::NoScheme { scheme },
        Some(e) => {
            proof {
                assert(names_view(schemes@)[e as int] == schemes@[e as int]@);
            }
            match find_slot_index(&slot, &schemes[e].slots) {
                None => Place::NoSlot { slot },
                Some(s) => {
                    proof {
                        assert(slots_view(schemes[e as int].slots@)[s as int]
                            == schemes[e as int].slots[s as int]@);
                    }
                    match schemes[e].slots[s].sector_index(&sector) {
                        None => Place::NoSector { slot, sector },
                        Some(t) => Place::Found { entry: e, index: s, part: t },
                    }
                },
            }
        },
    }
}

/// Finds what a mapping is connected to: the number of units before those
/// of the target scheme, the target slot and the target sector. Where the
/// target does not exist, says which part of the path led nowhere.
pub fn compile_get_slot<'a>(sector: &BasicBind, schemes: &'a Vec<SlotsOf>) -> (found: Result<
    (usize, &'a Slot, &'a SlotSector),
    InvalidConn,
>)
    ensures
        match resolve(names_view(schemes@), sector@.target) {
            Target::Found { entry, index: slot, part: target } => found matches Ok((start, s, t))
                && 0 <= entry < schemes.len() && 0 <= slot < schemes[entry].slots.len() && start
                == schemes[entry].start_shape && *s == schemes[entry].slots[slot] && t@ == target,
            _ => found matches Err(e) && Some(e@) == sector@.complaint(names_view(schemes@)),
        },
{
    match locate(sector.target.clone(), schemes) {
        Place::NoScheme { scheme } => Err(
            InvalidConn::TargetSchemeDoesNotExists { sector: sector.clone(), target_scheme: scheme },
        ),
        Place::NoSlot { slot } => Err(
            InvalidConn::TargetSlotDoesNotExists { sector: sector.clone(), target_slot: slot },
        ),
        Place::NoSector { slot, sector: name } => Err(
            InvalidConn::TargetSlotSectorDoesNotExists {
                sector: sector.clone(),
                target_slot: slot,
                target_slot_sector: name,
            },
        ),
        Place::Found { entry, index: slot, part: at } => Ok(
            (
                schemes[entry].start_shape,
                &schemes[entry].slots[slot],
                &schemes[entry].slots[slot].sectors[at].1,
            ),
        ),
    }
}

/// Adds each index of `more`, counted from `start`, to `list`.
pub fn append_shifted(list: &mut Vec<usize>, more: &Vec<usize>, start: usize)
    requires
        forall|k: int| 0 <= k < more.len() ==> #[trigger] more@[k] + start <= usize::MAX,
    ensures
        final(list)@ == old(list)@ + shifted_by(more@, start),
{
    let ghost before = list@;
    let mut k: usize = 0;
    while k < more.len()
        invariant
            k <= more.len(),
            forall|j: int| 0 <= j < more.len() ==> #[trigger] more@[j] + start <= usize::MAX,
            list@ == before + shifted_by(more@, start).take(k as int),
        decreases more.len() - k,
    {
        proof {
            assert(more@[k as int] + start <= usize::MAX);
        }
        list.push(more[k] + start);
        k += 1;
        proof {
            assert(list@ =~= before + shifted_by(more@, start).take(k as int));
        }
    }
    proof {
        assert(shifted_by(more@, start).take(k as int) =~= shifted_by(more@, start));
    }
}

/// Follows the pairs that the connection of a mapping proposed: for each
/// pair that lands, the units of the target's point are added to the units
/// of the bind's point.
fn follow_pairs(
    map: &mut Map3D<Vec<usize>>,
    entry: &BasicBind,
    size: Bounds,
    slot: &Slot,
    sector: &SlotSector,
    start: usize,
    pairs: &Vec<Pair>,
    side: SlotSide,
)
    requires
        old(map).wf(),
        old(map).x_size == size.x,
        old(map).y_size == size.y,
        old(map).z_size == size.z,
        slot.wf(),
        slot@.within(usize::MAX - start),
    ensures
        final(map).wf(),
        final(map).x_size == size.x,
        final(map).y_size == size.y,
        final(map).z_size == size.z,
        points_view(final(map).data@) == entry@.wired(
            points_view(old(map).data@),
            size,
            slot@,
            sector@,
            start,
            match side {
                SlotSide::Input => pairs@,
                SlotSide::Output => mirrored(pairs@),
            },
        ),
{
    let ghost first = points_view(map.data@);
    let ghost proposed = match side {
        SlotSide::Input => pairs@,
        SlotSide::Output => mirrored(pairs@),
    };
    let mut j: usize = 0;
    proof {
        assert(proposed.take(0).len() == 0);
    }
    while j < pairs.len()
        invariant
            j <= pairs.len(),
            map.wf(),
            map.x_size == size.x,
            map.y_size == size.y,
            map.z_size == size.z,
            slot.wf(),
            slot@.within(usize::MAX - start),
            proposed == match side {
                SlotSide::Input => pairs@,
                SlotSide::Output => mirrored(pairs@),
            },
            proposed.len() == pairs.len(),
            points_view(map.data@) == entry@.wired(
                first,
                size,
                slot@,
                sector@,
                start,
                proposed.take(j as int),
            ),
        decreases pairs.len() - j,
    {
        let ghost seen = proposed.take(j + 1);
        let ghost before = points_view(map.data@);
        proof {
            assert(seen.drop_last() =~= proposed.take(j as int));
            assert(seen.last() == proposed[j as int]);
        }
        let (from_this, to_slot) = match side {
            SlotSide::Input => (pairs[j].0, pairs[j].1),
            SlotSide::Output => (pairs[j].1, pairs[j].0),
        };
        let local: (i64, i64, i64) = (
            entry.sector_corner.x as i64 + from_this.x as i64,
            entry.sector_corner.y as i64 + from_this.y as i64,
            entry.sector_corner.z as i64 + from_this.z as i64,
        );
        let remote_at: (i64, i64, i64) = (
            sector.pos.x as i64 + to_slot.x as i64,
            sector.pos.y as i64 + to_slot.y as i64,
            sector.pos.z as i64 + to_slot.z as i64,
        );
        if is_point_in_bounds(from_this, entry.sector_size) && local.0 >= 0 && local.1 >= 0
            && local.2 >= 0 && local.0 < size.x as i64 && local.1 < size.y as i64 && local.2
            < size.z as i64 && is_point_in_bounds(to_slot, sector.bounds) {
            match slot.units_at(remote_at) {
                Some(units) => {
                    match map.to_id((local.0 as usize, local.1 as usize, local.2 as usize)) {
                        Some(id) => {
                            proof {
                                lemma_cell_id_range(
                                    slot.bounds.x as int,
                                    slot.bounds.y as int,
                                    slot.bounds.z as int,
                                    remote_at.0 as int,
                                    remote_at.1 as int,
                                    remote_at.2 as int,
                                );
                                let cell = cell_id(
                                    slot.bounds.x as int,
                                    slot.bounds.y as int,
                                    remote_at.0 as int,
                                    remote_at.1 as int,
                                    remote_at.2 as int,
                                );
                                assert forall|k: int| 0 <= k < units.len() implies #[trigger] units@[k]
                                    + start <= usize::MAX by {
                                    assert(slot@.points[cell][k] < usize::MAX - start);
                                }
                            }
                            append_shifted(&mut map.data[id], units, start);
                            proof {
                                assert(points_view(map.data@) =~= before.update(
                                    id as int,
                                    before[id as int] + shifted_by(units@, start),
                                ));
                            }
                        },
                        None => {},
                    }
                },
                None => {},
            }
        }
        proof {
            assert(points_view(map.data@) == entry@.wired(
                first,
                size,
                slot@,
                sector@,
                start,
                seen,
            ));
        }
        j += 1;
    }
    proof {
        assert(proposed.take(j as int) =~= proposed);
    }
}

impl Bind {
    /// Creates new empty [`Bind`].
    pub fn new(slot_name: String, slot_kind: String, bounds: Bounds) -> (bind: Self)
        ensures
            bind@.wf(),
            bind@ == (BindView {
                name: slot_name@,
                kind: slot_kind@,
                size: bounds,
                sectors: Seq::empty(),
                maps: Seq::empty(),
            }),
    {
        let bind = Bind {
            name: slot_name,
            kind: slot_kind,
            size: bounds,
            sectors: Vec::new(),
            maps: Vec::new(),
        };
        proof {
            assert(bind@.sectors =~= Seq::empty());
            assert(bind@.maps =~= Seq::empty());
        }
        bind
    }

    pub fn name(&self) -> (name: &String)
        ensures
            name@ == self@.name,
    {
        &self.name
    }

    pub fn kind(&self) -> (kind: &String)
        ensures
            kind@ == self@.kind,
    {
        &self.kind
    }

    pub fn bounds(&self) -> (bounds: Bounds)
        ensures
            bounds == self@.size,
    {
        self.size
    }

    /// Tells whether a sector called `name` was declared.
    fn declared(&self, name: &String) -> (yes: bool)
        ensures
            yes == declares(self@.sectors, name@),
    {
        let mut i: usize = 0;
        while i < self.sectors.len()
            invariant
                i <= self.sectors.len(),
                forall|j: int| 0 <= j < i ==> (#[trigger] self@.sectors[j]).name != name@,
            decreases self.sectors.len() - i,
        {
            if self.sectors[i].0 == *name {
                proof {
                    assert(self@.sectors[i as int].name == name@);
                }
                return true;
            }
            i += 1;
        }
        false
    }

    /// Adds sector to the Bind (Slot). The name has to be new and not
    /// empty: the empty name stands for the slot itself. The sector has to
    /// lie within the bind.
    pub fn add_sector(&mut self, name: String, corner: Point, bounds: Bounds, kind: String) -> (done:
        Result<(), SectorError>)
        requires
            old(self)@.wf(),
        ensures
            final(self)@.wf(),
            done is Ok <==> (name@.len() > 0 && !declares(old(self)@.sectors, name@) && sector_fits(
                corner,
                bounds,
                old(self)@.size,
            )),
            done is Ok ==> final(self)@ == (BindView {
                sectors: old(self)@.sectors.push(
                    DeclaredSector { name: name@, pos: corner, bounds, kind: kind@ },
                ),
                ..old(self)@
            }),
            done is Err ==> final(self)@ == old(self)@,
            done matches Err(SectorError::NameIsAlreadyTaken { taken_name }) ==> taken_name@
                == name@ && (name@.len() == 0 || declares(old(self)@.sectors, name@)),
            done matches Err(
                SectorError::SectorIsOutOfSlotBounds {
                    sector_name,
                    sector_pos,
                    sector_bounds,
                    slot_bounds,
                },
            ) ==> name@.len() > 0 && !declares(old(self)@.sectors, name@) && sector_name@ == name@
                && sector_pos == corner && sector_bounds == bounds && slot_bounds == old(
                self,
            )@.size,
    {
        if name.as_str().is_empty() || self.declared(&name) {
            return Err(SectorError::NameIsAlreadyTaken { taken_name: name });
        }
        if !fits_within(corner, bounds, self.size) {
            return Err(
                SectorError::SectorIsOutOfSlotBounds {
                    sector_name: name,
                    sector_pos: corner,
                    sector_bounds: bounds,
                    slot_bounds: self.size,
                },
            );
        }
        let ghost before = self@;
        let ghost added = DeclaredSector { name: name@, pos: corner, bounds, kind: kind@ };
        self.sectors.push((name, corner, bounds, kind));
        proof {
            assert(self@.sectors =~= before.sectors.push(added));
            assert(self@.maps =~= before.maps);
            assert forall|i: int, j: int| 0 <= i < j < self@.sectors.len() implies (
            #[trigger] self@.sectors[i]).name != (#[trigger] self@.sectors[j]).name by {
                if j == before.sectors.len() {
                    assert(before.sectors[i] == self@.sectors[i]);
                }
            }
        }
        Ok(())
    }

    /// Connects some part (sector) of the slot with custom connection
    /// (`conn` argument).
    pub fn custom(&mut self, sector: (Point, Bounds), target: String, conn: Connection)
        ensures
            final(self)@ == (BindView {
                maps: old(self)@.maps.push(
                    EntryView { corner: sector.0, size: sector.1, target: target@, conn },
                ),
                ..old(self)@
            }),
    {
        let ghost before = self@;
        self.maps.push(
            BasicBind {
                sector_corner: sector.0,
                sector_size: sector.1,
                target,
                conn: Arc::new(conn),
            },
        );
        proof {
            assert(self@.maps =~= before.maps.push(
                EntryView { corner: sector.0, size: sector.1, target: target@, conn },
            ));
            assert(self@.sectors =~= before.sectors);
        }
    }

    /// Connects some part (sector) of the slot with straight connection
    /// (ConnStraight).
    pub fn connect(&mut self, sector: (Point, Bounds), target: String)
        ensures
            final(self)@ == (BindView {
                maps: old(self)@.maps.push(
                    EntryView {
                        corner: sector.0,
                        size: sector.1,
                        target: target@,
                        conn: Connection::Straight(ConnStraight {  }),
                    },
                ),
                ..old(self)@
            }),
    {
        self.custom(sector, target, ConnStraight::new())
    }

    /// Connects some part (sector) of the slot with [`ConnDim`] connection.
    pub fn dim(&mut self, sector: (Point, Bounds), target: String, adapt_axes: (bool, bool, bool))
        ensures
            final(self)@ == (BindView {
                maps: old(self)@.maps.push(
                    EntryView {
                        corner: sector.0,
                        size: sector.1,
                        target: target@,
                        conn: Connection::Dim(
                            ConnDim {
                                adapt_x: adapt_axes.0,
                                adapt_y: adapt_axes.1,
                                adapt_z: adapt_axes.2,
                            },
                        ),
                    },
                ),
                ..old(self)@
            }),
    {
        self.custom(sector, target, ConnDim::new(adapt_axes))
    }

    /// Connects the whole slot with custom connection (`conn` argument).
    pub fn custom_full(&mut self, target: String, conn: Connection)
        ensures
            final(self)@ == (BindView {
                maps: old(self)@.maps.push(
                    EntryView {
                        corner: Point { x: 0, y: 0, z: 0 },
                        size: old(self)@.size,
                        target: target@,
                        conn,
                    },
                ),
                ..old(self)@
            }),
    {
        let bounds = self.size;
        self.custom((Point { x: 0, y: 0, z: 0 }, bounds), target, conn)
    }

    /// Connects the whole slot with straight connection (ConnStraight).
    pub fn connect_full(&mut self, target: String)
        ensures
            final(self)@ == (BindView {
                maps: old(self)@.maps.push(
                    EntryView {
                        corner: Point { x: 0, y: 0, z: 0 },
                        size: old(self)@.size,
                        target: target@,
                        conn: Connection::Straight(ConnStraight {  }),
                    },
                ),
                ..old(self)@
            }),
    {
        let bounds = self.size;
        self.connect((Point { x: 0, y: 0, z: 0 }, bounds), target)
    }

    /// Connects the whole slot with [`ConnDim`] connection.
    pub fn dim_full(&mut self, target: String, axes: (bool, bool, bool))
        ensures
            final(self)@ == (BindView {
                maps: old(self)@.maps.push(
                    EntryView {
                        corner: Point { x: 0, y: 0, z: 0 },
                        size: old(self)@.size,
                        target: target@,
                        conn: Connection::Dim(
                            ConnDim { adapt_x: axes.0, adapt_y: axes.1, adapt_z: axes.2 },
                        ),
                    },
                ),
                ..old(self)@
            }),
    {
        let bounds = self.size;
        self.dim((Point { x: 0, y: 0, z: 0 }, bounds), target, axes)
    }

    /// Compiles the bind into a slot, against the slots of the schemes of
    /// a combiner. A mapping whose target does not exist adds nothing to
    /// the slot and is reported; the other mappings are followed as if it
    /// were not there.
    pub fn compile(self, schemes: &Vec<SlotsOf>, side: SlotSide) -> (out: (Slot, Vec<InvalidConn>))
        requires
            self@.wf(),
            self@.can_compile(),
            names_exec_wf(schemes@),
            names_wf(names_view(schemes@), usize::MAX as int),
        ensures
            out.0.wf(),
            out.0@ == self@.compiled(names_view(schemes@), side),
            complaints_view(out.1@) == self@.unresolved(names_view(schemes@)),
    {
        let ghost names = names_view(schemes@);
        let ghost entries = self@.maps;
        let ghost blank = self@.blank();
        let size = self.size;
        let empty: Vec<usize> = Vec::new();
        let mut map: Map3D<Vec<usize>> = Map3D::filled(
            (size.x as usize, size.y as usize, size.z as usize),
            empty,
        );
        let mut errors: Vec<InvalidConn> = Vec::new();
        proof {
            assert forall|c: int| 0 <= c < map.data.len() implies (#[trigger] map.data@[c])@
                =~= Seq::<usize>::empty() by {
                assert(cloned(empty, map.data@[c]));
            }
            assert(points_view(map.data@) =~= blank);
            assert(entries.take(0).len() == 0);
            assert(complaints_view(errors@) =~= complaints(entries.take(0), names));
        }
        let n = self.maps.len();
        let mut i: usize = 0;
        while i < n
            invariant
                i <= n,
                n == self.maps.len(),
                entries == entries_view(self.maps@),
                names == names_view(schemes@),
                names_exec_wf(schemes@),
                names_wf(names, usize::MAX as int),
                size == self.size,
                map.wf(),
                map.x_size == size.x,
                map.y_size == size.y,
                map.z_size == size.z,
                points_view(map.data@) == applied_all(entries.take(i as int), blank, size, names, side),
                complaints_view(errors@) == complaints(entries.take(i as int), names),
            decreases n - i,
        {
            let ghost seen = entries.take(i + 1);
            let ghost errors_before = complaints_view(errors@);
            proof {
                assert(seen.drop_last() =~= entries.take(i as int));
                assert(seen.last() == self.maps@[i as int]@);
            }
            let entry = &self.maps[i];
            match compile_get_slot(entry, schemes) {
                Err(e) => {
                    errors.push(e);
                    proof {
                        assert(complaints_view(errors@) =~= errors_before.push(e@));
                    }
                },
                Ok((start_shape, slot, slot_sector)) => {
                    proof {
                        let found = resolve(names, entry@.target);
                        let at = found->entry;
                        let s = found->index;
                        assert(names[at] == schemes@[at]@);
                        assert(names[at].slots[s] == schemes@[at].slots@[s]@);
                        assert(slots_wf(schemes@[at].slots@));
                        assert(names[at].slots[s].within(usize::MAX - names[at].start));
                    }
                    // Point-to-point
                    let pairs = match side {
                        SlotSide::Input => entry.conn.connect(entry.sector_size, slot_sector.bounds),
                        SlotSide::Output => entry.conn.connect(slot_sector.bounds, entry.sector_size),
                    };
                    follow_pairs(
                        &mut map,
                        entry,
                        size,
                        slot,
                        slot_sector,
                        start_shape,
                        &pairs,
                        side,
                    );
                },
            }
            proof {
                assert(points_view(map.data@) == applied_all(seen, blank, size, names, side));
                assert(complaints_view(errors@) == complaints(seen, names));
            }
            i += 1;
        }
        proof {
            assert(entries.take(i as int) =~= entries);
        }
        let ghost declared = self@.sectors;
        let ghost target = self@.compiled(names, side);
        let mut slot = Slot::new(self.name, self.kind, size, map);
        let sectors = self.sectors;
        let count = sectors.len();
        let mut k: usize = 0;
        proof {
            assert(slot@.sectors =~= target.sectors.take(1));
        }
        while k < count
            invariant
                k <= count,
                count == sectors.len(),
                declared == declared_view(sectors@),
                self@.wf(),
                declared == self@.sectors,
                target == self@.compiled(names, side),
                slot.wf(),
                slot@.name == target.name,
                slot@.kind == target.kind,
                slot@.bounds == target.bounds,
                slot@.bounds == self@.size,
                slot@.points == target.points,
                slot@.sectors == target.sectors.take(k + 1),
            decreases count - k,
        {
            let ghost before = slot@;
            proof {
                let name = declared[k as int].name;
                assert(sector_fits(declared[k as int].pos, declared[k as int].bounds, self@.size));
                assert(name.len() > 0);
                assert(!has_name(before.sectors, name)) by {
                    if has_name(before.sectors, name) {
                        let j = choose|j: int|
                            0 <= j < before.sectors.len() && (#[trigger] before.sectors[j]).0 == name;
                        if j > 0 {
                            assert(before.sectors[j] == target.sectors[j]);
                            assert(declared[j - 1].name != declared[k as int].name);
                        }
                    }
                }
            }
            let sector = SlotSector {
                pos: sectors[k].1,
                bounds: sectors[k].2,
                kind: sectors[k].3.clone(),
            };
            let done = slot.bind_sector(sectors[k].0.clone(), sector);
            proof {
                assert(done is Ok);
                assert(slot@.sectors =~= target.sectors.take(k + 2));
            }
            k += 1;
        }
        proof {
            assert(target.sectors.take(k + 1) =~= target.sectors);
        }
        (slot, errors)
    }
}


/// Every unit index of every point is below `total`.
pub open spec fn points_within(points: Seq<Seq<usize>>, total: int) -> bool {
    forall|i: int, k: int|
        0 <= i < points.len() && 0 <= k < points[i].len() ==> (#[trigger] points[i][k]) < total
}

/// Following pairs into a slot whose units are among `total` units leaves
/// every point with units among `total` units.
pub proof fn lemma_wired_within(
    entry: EntryView,
    points: Seq<Seq<usize>>,
    bind: Bounds,
    slot: SlotView,
    sector: SectorView,
    start: usize,
    pairs: Seq<Pair>,
    total: int,
)
    requires
        points_within(points, total),
        points.len() == cells(bind.x as int, bind.y as int, bind.z as int),
        slot.wf(),
        slot.within(total - start),
        total <= usize::MAX,
    ensures
        points_within(entry.wired(points, bind, slot, sector, start, pairs), total),
        entry.wired(points, bind, slot, sector, start, pairs).len() == points.len(),
    decreases pairs.len(),
{
    if pairs.len() > 0 {
        lemma_wired_within(entry, points, bind, slot, sector, start, pairs.drop_last(), total);
        let before = entry.wired(points, bind, slot, sector, start, pairs.drop_last());
        let after = entry.wired(points, bind, slot, sector, start, pairs);
        let pair = pairs.last();
        if entry.lands(bind, sector, slot.bounds, pair) {
            let at = entry.local(pair.0);
            let id = cell_id(bind.x as int, bind.y as int, at.0, at.1, at.2);
            lemma_cell_id_range(bind.x as int, bind.y as int, bind.z as int, at.0, at.1, at.2);
            let there = remote(sector, pair.1);
            let cell = slot.cell(there);
            let more = shifted_by(cell, start);
            lemma_cell_id_range(
                slot.bounds.x as int,
                slot.bounds.y as int,
                slot.bounds.z as int,
                there.0,
                there.1,
                there.2,
            );
            let from = cell_id(slot.bounds.x as int, slot.bounds.y as int, there.0, there.1, there.2);
            assert forall|k: int| 0 <= k < more.len() implies #[trigger] more[k] < total by {
                assert(slot.points[from][k] < total - start);
            }
            assert(after == before.update(id, before[id] + more));
            assert forall|i: int, k: int|
                0 <= i < after.len() && 0 <= k < after[i].len() implies (#[trigger] after[i][k])
                < total by {
                if i == id {
                    if k < before[id].len() {
                        assert(before[id][k] < total);
                    } else {
                        assert(more[k - before[id].len()] < total);
                    }
                } else {
                    assert(before[i][k] < total);
                }
            }
        }
    }
}

/// A namespace that is well-formed against `total` units is well-formed
/// against any larger number.
pub proof fn lemma_names_wf_grows(names: Seq<SlotsOfView>, total: int, more: int)
    requires
        names_wf(names, total),
        total <= more <= usize::MAX,
    ensures
        names_wf(names, more),
{
    assert forall|e: int, s: int| 0 <= e < names.len() && 0 <= s < names[e].slots.len() implies (
    #[trigger] names[e].slots[s]).wf() && names[e].slots[s].within(more - names[e].start) by {
        let slot = names[e].slots[s];
        assert(slot.wf() && slot.within(total - names[e].start));
        assert forall|i: int, k: int|
            0 <= i < slot.points.len() && 0 <= k < slot.points[i].len() implies (
        #[trigger] slot.points[i][k]) < more - names[e].start by {
            assert(slot.points[i][k] < total - names[e].start);
        }
    }
}

/// Following the mappings of a bind leaves every point with units among
/// `total` units.
pub proof fn lemma_applied_all_within(
    entries: Seq<EntryView>,
    points: Seq<Seq<usize>>,
    bind: Bounds,
    names: Seq<SlotsOfView>,
    side: SlotSide,
    total: int,
)
    requires
        points_within(points, total),
        points.len() == cells(bind.x as int, bind.y as int, bind.z as int),
        names_wf(names, total),
    ensures
        points_within(applied_all(entries, points, bind, names, side), total),
        applied_all(entries, points, bind, names, side).len() == points.len(),
    decreases entries.len(),
{
    if entries.len() > 0 {
        lemma_applied_all_within(entries.drop_last(), points, bind, names, side, total);
        let before = applied_all(entries.drop_last(), points, bind, names, side);
        let entry = entries.last();
        lemma_resolve_range(names, entry.target);
        match resolve(names, entry.target) {
            Target::Found { entry: e, index, part } => {
                assert(names[e].slots[index].wf() && names[e].slots[index].within(
                    total - names[e].start,
                ));
                lemma_wired_within(
                    entry,
                    before,
                    bind,
                    names[e].slots[index],
                    part,
                    names[e].start,
                    entry.proposed(part, side),
                    total,
                );
            },
            _ => {},
        }
    }
}

/// The slot that a bind compiles to names units among `total` units only,
/// if the namespace does.
pub proof fn lemma_compiled_within(
    bind: BindView,
    names: Seq<SlotsOfView>,
    side: SlotSide,
    total: int,
)
    requires
        names_wf(names, total),
        0 <= cells(bind.size.x as int, bind.size.y as int, bind.size.z as int),
    ensures
        bind.compiled(names, side).within(total),
{
    lemma_applied_all_within(bind.maps, bind.blank(), bind.size, names, side, total);
}


impl EntryView {
    /// The target of the mapping exists.
    pub open spec fn resolves(self, names: Seq<SlotsOfView>) -> bool {
        resolve(names, self.target) is Found
    }
}

/// The mappings whose target exists, in order.
pub open spec fn resolving(entries: Seq<EntryView>, names: Seq<SlotsOfView>) -> Seq<EntryView> {
    entries.filter(|entry: EntryView| entry.resolves(names))
}

/// A mapping whose target does not exist is skipped, and nothing else:
/// it adds no unit to any point, it is complained about exactly once, and
/// the other mappings lead to what they would lead to if it were not there.
/// So a bind compiles to the same points as the bind that holds only the
/// mappings whose targets exist, there is one complaint for each of the
/// other mappings, and none for those.
pub proof fn lemma_unresolved_are_skipped(
    entries: Seq<EntryView>,
    points: Seq<Seq<usize>>,
    bind: Bounds,
    names: Seq<SlotsOfView>,
    side: SlotSide,
)
    ensures
        applied_all(entries, points, bind, names, side) == applied_all(
            resolving(entries, names),
            points,
            bind,
            names,
            side,
        ),
        complaints(entries, names).len() + resolving(entries, names).len() == entries.len(),
        complaints(resolving(entries, names), names).len() == 0,
        forall|i: int|
            0 <= i < entries.len() && !(#[trigger] entries[i]).resolves(names)
                ==> entries[i].applied(points, bind, names, side) == points
                && entries[i].complaint(names) is Some,
        forall|i: int|
            0 <= i < entries.len() && (#[trigger] entries[i]).resolves(names)
                ==> entries[i].complaint(names) is None,
    decreases entries.len(),
{
    reveal(Seq::filter);
    if entries.len() > 0 {
        let head = entries.drop_last();
        let last = entries.last();
        lemma_unresolved_are_skipped(head, points, bind, names, side);
        let good_head = resolving(head, names);
        if last.resolves(names) {
            assert(resolving(entries, names) == good_head.push(last));
            assert(good_head.push(last).drop_last() =~= good_head);
            assert(good_head.push(last).last() == last);
        } else {
            assert(resolving(entries, names) == good_head);
        }
        assert forall|i: int|
            0 <= i < entries.len() && !(#[trigger] entries[i]).resolves(names) implies entries[i].applied(
            points,
            bind,
            names,
            side,
        ) == points && entries[i].complaint(names) is Some by {}
    }
}


impl Clone for Bind {
    fn clone(&self) -> (copy: Self)
        ensures
            copy@ == self@,
    {
        let mut sectors: Vec<(String, Point, Bounds, String)> = Vec::new();
        let mut i: usize = 0;
        while i < self.sectors.len()
            invariant
                i <= self.sectors.len(),
                sectors.len() == i,
                forall|j: int| 0 <= j < i ==> declared_view(sectors@)[j] == #[trigger] declared_view(self.sectors@)[j],
            decreases self.sectors.len() - i,
        {
            let item = &self.sectors[i];
            sectors.push((item.0.clone(), item.1, item.2, item.3.clone()));
            proof {
                assert(declared_view(sectors@)[i as int] == declared_view(self.sectors@)[i as int]);
            }
            i += 1;
        }
        let mut maps: Vec<BasicBind> = Vec::new();
        let mut k: usize = 0;
        while k < self.maps.len()
            invariant
                k <= self.maps.len(),
                maps.len() == k,
                forall|j: int| 0 <= j < k ==> (#[trigger] maps@[j])@ == self.maps@[j]@,
            decreases self.maps.len() - k,
        {
            maps.push(self.maps[k].clone());
            k += 1;
        }
        let copy = Bind {
            name: self.name.clone(),
            kind: self.kind.clone(),
            size: self.size,
            sectors,
            maps,
        };
        proof {
            assert(copy@.sectors =~= self@.sectors);
            assert(copy@.maps =~= self@.maps);
        }
        copy
    }
}

/// The views of a list of texts.
pub open spec fn texts(list: Seq<String>) -> Seq<Seq<char>> {
    Seq::new(list.len(), |i: int| list[i]@)
}

/// The views of a list of optional texts.
pub open spec fn optional_texts(list: Seq<Option<String>>) -> Seq<Option<Seq<char>>> {
    Seq::new(list.len(), |i: int| opt_chars(list[i]))
}

/// The size of a single point.
pub open spec fn unit_size() -> Bounds {
    Bounds { x: 1, y: 1, z: 1 }
}

impl BindView {
    /// The sector called `name` can be declared: the name is new and not
    /// empty.
    pub open spec fn takes_name(self, name: Seq<char>) -> bool {
        name.len() > 0 && !declares(self.sectors, name)
    }

    /// The bind after a sector was declared for each of its first `k`
    /// points, under the names given. The points are taken with `x`
    /// changing slowest. A point whose name cannot be used gets no sector.
    pub open spec fn with_point_sectors(self, kind: Seq<char>, names: Seq<Seq<char>>, k: int) -> BindView
        decreases k,
    {
        if k <= 0 {
            self
        } else {
            let before = self.with_point_sectors(kind, names, k - 1);
            if before.takes_name(names[k - 1]) {
                BindView {
                    sectors: before.sectors.push(
                        DeclaredSector {
                            name: names[k - 1],
                            pos: box_points(self.size)[k - 1],
                            bounds: unit_size(),
                            kind,
                        },
                    ),
                    ..before
                }
            } else {
                before
            }
        }
    }

    /// The names of the first `k` points that cannot be used, in order.
    pub open spec fn refused_names(self, kind: Seq<char>, names: Seq<Seq<char>>, k: int) -> Seq<
        Seq<char>,
    >
        decreases k,
    {
        if k <= 0 {
            Seq::empty()
        } else {
            let before = self.refused_names(kind, names, k - 1);
            if self.with_point_sectors(kind, names, k - 1).takes_name(names[k - 1]) {
                before
            } else {
                before.push(names[k - 1])
            }
        }
    }

    /// The bind after each of its first `k` points that has a target was
    /// connected to it.
    pub open spec fn with_point_targets(self, targets: Seq<Option<Seq<char>>>, k: int) -> BindView
        decreases k,
    {
        if k <= 0 {
            self
        } else {
            let before = self.with_point_targets(targets, k - 1);
            match targets[k - 1] {
                Some(target) => BindView {
                    maps: before.maps.push(
                        EntryView {
                            corner: box_points(self.size)[k - 1],
                            size: unit_size(),
                            target,
                            conn: Connection::Straight(ConnStraight {  }),
                        },
                    ),
                    ..before
                },
                None => before,
            }
        }
    }
}

/// The coordinates of a point as a name function takes them.
pub open spec fn name_args(p: Point) -> (u32, u32, u32) {
    (p.x as u32, p.y as u32, p.z as u32)
}

/// The coordinates of a point as a target function takes them.
pub open spec fn target_args(p: Point) -> (usize, usize, usize) {
    (p.x as usize, p.y as usize, p.z as usize)
}

/// Each error says that the name at its place is taken.
pub open spec fn names_taken(errors: Seq<SectorError>, refused: Seq<Seq<char>>) -> bool {
    &&& errors.len() == refused.len()
    &&& forall|k: int| 0 <= k < errors.len() ==> name_taken(#[trigger] errors[k], refused[k])
}

/// The error says that `name` is taken.
pub open spec fn name_taken(error: SectorError, name: Seq<char>) -> bool {
    error matches SectorError::NameIsAlreadyTaken { taken_name } && taken_name@ == name
}

/// `made` holds what the name function returned for each point of a box
/// of the given size, the points taken with `x` changing slowest.
pub open spec fn names_made<F: Fn(u32, u32, u32) -> String>(
    names: F,
    made: Seq<String>,
    size: Bounds,
) -> bool {
    &&& made.len() == box_points(size).len()
    &&& forall|k: int|
        0 <= k < made.len() ==> call_ensures(names, name_args(box_points(size)[k]), #[trigger] made[k])
}

/// `made` holds what the target function returned for each point of a box
/// of the given size, the points taken with `x` changing slowest.
pub open spec fn targets_made<F: Fn(usize, usize, usize) -> Option<String>>(
    func: F,
    made: Seq<Option<String>>,
    size: Bounds,
) -> bool {
    &&& made.len() == box_points(size).len()
    &&& forall|k: int|
        0 <= k < made.len() ==> call_ensures(func, target_args(box_points(size)[k]), #[trigger] made[k])
}

impl Bind {
    /// Generates a sector for each point of slot with given names. A point
    /// whose name is empty or taken gets no sector, and the others get
    /// theirs all the same; the errors of the refused names are returned.
    pub fn gen_point_sectors<F: Fn(u32, u32, u32) -> String>(&mut self, kind: String, names: F) -> (done:
        Result<(), Vec<SectorError>>)
        requires
            old(self)@.wf(),
            forall|x: u32, y: u32, z: u32| call_requires(names, (x, y, z)),
        ensures
            final(self)@.wf(),
            exists|made: Seq<String>|
                {
                    &&& #[trigger] names_made(names, made, old(self)@.size)
                    &&& final(self)@ == old(self)@.with_point_sectors(
                        kind@,
                        texts(made),
                        made.len() as int,
                    )
                    &&& done is Ok <==> old(self)@.refused_names(
                        kind@,
                        texts(made),
                        made.len() as int,
                    ).len() == 0
                    &&& done matches Err(errors) ==> names_taken(
                        errors@,
                        old(self)@.refused_names(kind@, texts(made), made.len() as int),
                    )
                },
    {
        let ghost first = self@;
        let points = points_of(self.size);
        let mut errors: Vec<SectorError> = Vec::new();
        let ghost mut made: Seq<String> = Seq::empty();
        let mut i: usize = 0;
        while i < points.len()
            invariant
                i <= points.len(),
                first == old(self)@,
                points@ == box_points(first.size),
                self@.wf(),
                self@.size == first.size,
                forall|x: u32, y: u32, z: u32| call_requires(names, (x, y, z)),
                made.len() == i,
                forall|k: int| 0 <= k < i ==> call_ensures(names, name_args(points@[k]), #[trigger] made[k]),
                self@ == first.with_point_sectors(kind@, texts(made), i as int),
                names_taken(errors@, first.refused_names(kind@, texts(made), i as int)),
            decreases points.len() - i,
        {
            let point = points[i];
            let ghost before = self@;
            let ghost made_before = made;
            proof {
                lemma_box_contains(first.size, point);
                assert(points@.contains(point));
            }
            let name = names(point.x as u32, point.y as u32, point.z as u32);
            proof {
                made = made.push(name);
                lemma_same_prefix(first, kind@, texts(made_before), texts(made), i as int);
                assert(texts(made)[i as int] == name@);
            }
            let ghost told = errors@;
            let ghost refused_before = first.refused_names(kind@, texts(made), i as int);
            let res = self.add_sector(name, point, Bounds { x: 1, y: 1, z: 1 }, kind.clone());
            match res {
                Ok(()) => {},
                Err(e) => {
                    errors.push(e);
                    proof {
                        let refused = first.refused_names(kind@, texts(made), i + 1);
                        assert(refused == refused_before.push(texts(made)[i as int]));
                        assert forall|k: int| 0 <= k < errors.len() implies name_taken(
                            #[trigger] errors@[k],
                            refused[k],
                        ) by {
                            if k < told.len() {
                                assert(errors@[k] == told[k]);
                                assert(refused[k] == refused_before[k]);
                            }
                        }
                    }
                },
            }
            i += 1;
        }
        proof {
            assert(names_made(names, made, first.size));
        }
        if errors.len() == 0 {
            Ok(())
        } else {
            Err(errors)
        }
    }

    /// Connects the whole slot using some map.
    /// Map must take slot abstract point position as input and return
    /// an option of other slot path, to connect that point into. Each
    /// point that gets a path is connected to it on its own.
    pub fn connect_func<F: Fn(usize, usize, usize) -> Option<String>>(&mut self, func: F)
        requires
            forall|x: usize, y: usize, z: usize| call_requires(func, (x, y, z)),
        ensures
            exists|made: Seq<Option<String>>|
                {
                    &&& #[trigger] targets_made(func, made, old(self)@.size)
                    &&& final(self)@ == old(self)@.with_point_targets(
                        optional_texts(made),
                        made.len() as int,
                    )
                },
    {
        let ghost first = self@;
        let points = points_of(self.size);
        let ghost mut made: Seq<Option<String>> = Seq::empty();
        let mut i: usize = 0;
        while i < points.len()
            invariant
                i <= points.len(),
                first == old(self)@,
                points@ == box_points(first.size),
                self@.size == first.size,
                forall|x: usize, y: usize, z: usize| call_requires(func, (x, y, z)),
                made.len() == i,
                forall|k: int| 0 <= k < i ==> call_ensures(func, target_args(points@[k]), #[trigger] made[k]),
                self@ == first.with_point_targets(optional_texts(made), i as int),
            decreases points.len() - i,
        {
            let point = points[i];
            let ghost made_before = made;
            proof {
                lemma_box_contains(first.size, point);
                assert(points@.contains(point));
            }
            let target = func(point.x as usize, point.y as usize, point.z as usize);
            proof {
                made = made.push(target);
                lemma_same_targets(
                    first,
                    optional_texts(made_before),
                    optional_texts(made),
                    i as int,
                );
                assert(optional_texts(made)[i as int] == opt_chars(target));
            }
            match target {
                None => {},
                Some(target) => {
                    self.connect((point, Bounds { x: 1, y: 1, z: 1 }), target);
                },
            }
            i += 1;
        }
        proof {
            assert(targets_made(func, made, first.size));
        }
    }
}

/// Names that agree on the first `k` points give the same sectors for
/// those points.
pub proof fn lemma_same_prefix(
    bind: BindView,
    kind: Seq<char>,
    a: Seq<Seq<char>>,
    b: Seq<Seq<char>>,
    k: int,
)
    requires
        0 <= k <= a.len(),
        k <= b.len(),
        forall|j: int| 0 <= j < k ==> a[j] == b[j],
    ensures
        bind.with_point_sectors(kind, a, k) == bind.with_point_sectors(kind, b, k),
        bind.refused_names(kind, a, k) == bind.refused_names(kind, b, k),
    decreases k,
{
    if k > 0 {
        lemma_same_prefix(bind, kind, a, b, k - 1);
    }
}

/// Targets that agree on the first `k` points give the same mappings for
/// those points.
pub proof fn lemma_same_targets(
    bind: BindView,
    a: Seq<Option<Seq<char>>>,
    b: Seq<Option<Seq<char>>>,
    k: int,
)
    requires
        0 <= k <= a.len(),
        k <= b.len(),
        forall|j: int| 0 <= j < k ==> a[j] == b[j],
    ensures
        bind.with_point_targets(a, k) == bind.with_point_targets(b, k),
    decreases k,
{
    if k > 0 {
        lemma_same_targets(bind, a, b, k - 1);
    }
}


impl Bind {
    /// Tells whether a point map for the bind can be held in memory:
    /// whether `compile` can be called on a well-formed bind.
    pub fn can_be_compiled(&self) -> (ok: bool)
        ensures
            ok == self@.can_compile(),
    {
        let x = self.size.x as u128;
        let y = self.size.y as u128;
        let z = self.size.z as u128;
        proof {
            assert(0 <= x * y <= 0xffff_ffff * 0xffff_ffff) by (nonlinear_arith)
                requires
                    0 <= x <= 0xffff_ffff,
                    0 <= y <= 0xffff_ffff,
            ;
            assert(0 <= (x * y) * z <= 0xffff_ffff * 0xffff_ffff * 0xffff_ffff) by (nonlinear_arith)
                requires
                    0 <= x * y <= 0xffff_ffff * 0xffff_ffff,
                    0 <= z <= 0xffff_ffff,
            ;
        }
        x * y * z <= usize::MAX as u128
    }
}

} // verus!
