//! Wiring: following the connection requests of a combiner through the
//! flat unit list.

use vstd::prelude::*;
use vstd::string::*;
use crate::bind::{
    locate, names_exec_wf, names_view, names_wf, remote, resolve, shifted_by, Place, SlotsOf,
    SlotsOfView, Target,
};
use crate::connection::order::Pair;
use crate::connection::Connection;
use crate::scheme::{slots_wf, unit_view, units_view, UnitView};
use crate::shape::{Shape, ShapeView};
use crate::slot::{inside, SectorView, Slot, SlotSector, SlotView};
use crate::util::map3d::{cell_id, lemma_cell_id_range};
use crate::util::{in_bounds, is_point_in_bounds, Bounds, Point, Rot};

verus! {

/// One end of a connection: a sector of a slot of a scheme whose units
/// stand behind the first `start` units of the flat list.
pub struct End {
    pub start: usize,
    pub slot: SlotView,
    pub sector: SectorView,
}

/// The end that a path names in a namespace, if it names one.
pub open spec fn end_of(names: Seq<SlotsOfView>, path: Seq<char>) -> Option<End> {
    match resolve(names, path) {
        Target::Found { entry, index, part } => Some(
            End { start: names[entry].start, slot: names[entry].slots[index], sector: part },
        ),
        _ => None,
    }
}

/// The unit, connected to `targets` besides what it was connected to.
pub open spec fn with_targets(unit: UnitView, targets: Seq<usize>) -> UnitView {
    UnitView { shape: ShapeView { conns: unit.shape.conns + targets, ..unit.shape }, ..unit }
}

/// The units after each unit that `sources` names, counted from `start`,
/// was connected to `targets`.
pub open spec fn extended(
    units: Seq<UnitView>,
    sources: Seq<usize>,
    start: usize,
    targets: Seq<usize>,
) -> Seq<UnitView>
    decreases sources.len(),
{
    if sources.len() == 0 {
        units
    } else {
        let before = extended(units, sources.drop_last(), start, targets);
        let at = sources.last() + start;
        before.update(at, with_targets(before[at], targets))
    }
}

/// The pair falls on real points: its start lies in the sector and in the
/// slot of the one end, its end in the sector and in the slot of the other.
pub open spec fn lands(from: End, to: End, pair: Pair) -> bool {
    &&& in_bounds(pair.0, from.sector.bounds)
    &&& inside(remote(from.sector, pair.0), from.slot.bounds)
    &&& in_bounds(pair.1, to.sector.bounds)
    &&& inside(remote(to.sector, pair.1), to.slot.bounds)
}

/// The units after the pairs of `pairs` that land were followed: every
/// unit of the start point is connected to every unit of the end point.
pub open spec fn wired(units: Seq<UnitView>, from: End, to: End, pairs: Seq<Pair>) -> Seq<UnitView>
    decreases pairs.len(),
{
    if pairs.len() == 0 {
        units
    } else {
        let before = wired(units, from, to, pairs.drop_last());
        let pair = pairs.last();
        if lands(from, to, pair) {
            extended(
                before,
                from.slot.cell(remote(from.sector, pair.0)),
                from.start,
                shifted_by(to.slot.cell(remote(to.sector, pair.1)), to.start),
            )
        } else {
            before
        }
    }
}

/// `b` holds the units of `a`, each with the connections it had and maybe
/// more.
pub open spec fn grown(a: Seq<UnitView>, b: Seq<UnitView>) -> bool {
    &&& a.len() == b.len()
    &&& forall|i: int|
        0 <= i < a.len() ==> (#[trigger] b[i]).pos == a[i].pos && b[i].rot == a[i].rot
            && b[i].shape.base == a[i].shape.base && b[i].shape.color == a[i].shape.color
            && b[i].shape.forced == a[i].shape.forced && a[i].shape.conns.len()
            <= b[i].shape.conns.len()
}

/// Every connection of every unit is below `total`.
pub open spec fn bounded(units: Seq<UnitView>, total: int) -> bool {
    forall|i: int| 0 <= i < units.len() ==> (#[trigger] units[i]).wired_within(total)
}

/// Units that only got more connections fit as they did before.
pub proof fn lemma_grown_fits(a: Seq<UnitView>, b: Seq<UnitView>)
    requires
        grown(a, b),
        crate::scheme::units_fit(a),
    ensures
        crate::scheme::units_fit(b),
{
    assert forall|i: int| 0 <= i < b.len() implies (#[trigger] b[i]).fits() by {
        assert(a[i].fits());
        assert(b[i].pos == a[i].pos && b[i].rot == a[i].rot && b[i].shape.base == a[i].shape.base);
    }
}

/// The view of one end.
pub open spec fn end_view(end: (usize, &Slot, &SlotSector)) -> End {
    End { start: end.0, slot: end.1@, sector: end.2@ }
}

/// Finds the end that a path names: the number of units before those of
/// the scheme, the slot and the sector.
pub fn get_scheme_slot<'a>(path: &String, slots: &'a Vec<SlotsOf>) -> (found: Option<
    (usize, &'a Slot, &'a SlotSector),
>)
    ensures
        match found {
            Some(end) => Some(end_view(end)),
            None => None,
        } == end_of(names_view(slots@), path@),
        found matches Some(end) ==> (exists|e: int, s: int|
            0 <= e < slots.len() && 0 <= s < slots[e].slots.len() && end.0 == slots[e].start_shape
                && *end.1 == #[trigger] slots[e].slots[s]),
{
    match locate(path.clone(), slots) {
        Place::Found { entry, index, part } => {
            proof {
                assert(names_view(slots@)[entry as int] == slots@[entry as int]@);
                assert(names_view(slots@)[entry as int].slots[index as int]
                    == slots@[entry as int].slots@[index as int]@);
            }
            Some((slots[entry].start_shape, &slots[entry].slots[index], &slots[entry].slots[index].sectors[part].1))
        },
        _ => None,
    }
}

/// Connects each unit that `sources` names, counted from `start`, to
/// `targets`.
fn extend_each(
    shapes: &mut Vec<(Point, Rot, Shape)>,
    sources: &Vec<usize>,
    start: usize,
    targets: &Vec<usize>,
)
    requires
        forall|k: int| 0 <= k < sources.len() ==> #[trigger] sources@[k] + start < old(shapes).len(),
    ensures
        units_view(final(shapes)@) == extended(units_view(old(shapes)@), sources@, start, targets@),
        grown(units_view(old(shapes)@), units_view(final(shapes)@)),
        forall|total: int|
            bounded(units_view(old(shapes)@), total) && (forall|k: int|
                0 <= k < targets.len() ==> #[trigger] targets@[k] < total) ==> bounded(
                units_view(final(shapes)@),
                total,
            ),
{
    let ghost first = units_view(shapes@);
    let n = shapes.len();
    let mut k: usize = 0;
    proof {
        assert(sources@.take(0).len() == 0);
    }
    while k < sources.len()
        invariant
            k <= sources.len(),
            n == shapes.len(),
            first.len() == n,
            forall|j: int| 0 <= j < sources.len() ==> #[trigger] sources@[j] + start < n,
            units_view(shapes@) == extended(first, sources@.take(k as int), start, targets@),
            grown(first, units_view(shapes@)),
            forall|total: int|
                bounded(first, total) && (forall|j: int|
                    0 <= j < targets.len() ==> #[trigger] targets@[j] < total) ==> bounded(
                    units_view(shapes@),
                    total,
                ),
        decreases sources.len() - k,
    {
        let ghost seen = sources@.take(k + 1);
        let ghost before = units_view(shapes@);
        proof {
            assert(seen.drop_last() =~= sources@.take(k as int));
            assert(seen.last() == sources@[k as int]);
            assert(sources@[k as int] + start < n);
        }
        let at = sources[k] + start;
        shapes[at].2.extend_conn(targets);
        proof {
            let after = units_view(shapes@);
            assert(after =~= before.update(at as int, with_targets(before[at as int], targets@)));
            assert forall|i: int| 0 <= i < first.len() implies (#[trigger] after[i]).pos
                == first[i].pos && after[i].rot == first[i].rot && after[i].shape.base
                == first[i].shape.base && after[i].shape.color == first[i].shape.color
                && after[i].shape.forced == first[i].shape.forced && first[i].shape.conns.len()
                <= after[i].shape.conns.len() by {
                assert(before[i].pos == first[i].pos);
            }
            assert forall|total: int|
                bounded(first, total) && (forall|j: int|
                    0 <= j < targets.len() ==> #[trigger] targets@[j] < total) implies bounded(
                after,
                total,
            ) by {
                assert(bounded(before, total));
                assert forall|i: int| 0 <= i < after.len() implies (#[trigger] after[i]).wired_within(
                    total,
                ) by {
                    assert(before[i].wired_within(total));
                    if i == at {
                        assert forall|c: int| 0 <= c < after[i].shape.conns.len() implies #[trigger] after[i].shape.conns[c]
                            < total by {
                            if c < before[i].shape.conns.len() {
                                assert(before[i].shape.conns[c] < total);
                            } else {
                                assert(targets@[c - before[i].shape.conns.len()] < total);
                            }
                        }
                    }
                }
            }
        }
        k += 1;
    }
    proof {
        assert(sources@.take(k as int) =~= sources@);
    }
}

/// Each index of `list`, counted from `start`.
fn shifted_list(list: &Vec<usize>, start: usize) -> (out: Vec<usize>)
    requires
        forall|k: int| 0 <= k < list.len() ==> #[trigger] list@[k] + start <= usize::MAX,
    ensures
        out@ == shifted_by(list@, start),
{
    let mut out: Vec<usize> = Vec::new();
    let mut k: usize = 0;
    while k < list.len()
        invariant
            k <= list.len(),
            out.len() == k,
            forall|j: int| 0 <= j < list.len() ==> #[trigger] list@[j] + start <= usize::MAX,
            forall|j: int| 0 <= j < k ==> #[trigger] out@[j] == (list@[j] + start) as usize,
        decreases list.len() - k,
    {
        proof {
            assert(list@[k as int] + start <= usize::MAX);
        }
        out.push(list[k] + start);
        k += 1;
    }
    proof {
        assert(out@ =~= shifted_by(list@, start));
    }
    out
}

/// Every unit that a cell of the slot names, counted from `start`, is one
/// of `total` units.
pub proof fn lemma_cell_within(slot: SlotView, at: (int, int, int), start: usize, total: int)
    requires
        slot.wf(),
        slot.within(total - start),
    ensures
        forall|k: int| 0 <= k < slot.cell(at).len() ==> #[trigger] slot.cell(at)[k] + start < total,
{
    if inside(at, slot.bounds) {
        lemma_cell_id_range(
            slot.bounds.x as int,
            slot.bounds.y as int,
            slot.bounds.z as int,
            at.0,
            at.1,
            at.2,
        );
        let id = cell_id(slot.bounds.x as int, slot.bounds.y as int, at.0, at.1, at.2);
        assert forall|k: int| 0 <= k < slot.cell(at).len() implies #[trigger] slot.cell(at)[k]
            + start < total by {
            assert(slot.points[id][k] < total - start);
        }
    }
}

/// Follows one connection request whose two ends exist: for every pair
/// that the connection proposes and that lands, every unit of the start
/// point is connected to every unit of the end point.
pub fn compile_connection(
    from: (usize, &Slot, &SlotSector),
    to: (usize, &Slot, &SlotSector),
    with: &Connection,
    shapes: &mut Vec<(Point, Rot, Shape)>,
)
    requires
        from.1.wf(),
        to.1.wf(),
        from.1@.within(old(shapes).len() - from.0),
        to.1@.within(old(shapes).len() - to.0),
    ensures
        units_view(final(shapes)@) == wired(
            units_view(old(shapes)@),
            end_view(from),
            end_view(to),
            with.pairs(from.2.bounds, to.2.bounds),
        ),
        grown(units_view(old(shapes)@), units_view(final(shapes)@)),
        bounded(units_view(old(shapes)@), old(shapes).len() as int) ==> bounded(
            units_view(final(shapes)@),
            old(shapes).len() as int,
        ),
{
    let p2p_conns = with.connect(from.2.bounds, to.2.bounds);
    let ghost first = units_view(shapes@);
    let ghost source = end_view(from);
    let ghost target = end_view(to);
    let n = shapes.len();
    let mut j: usize = 0;
    proof {
        assert(p2p_conns@.take(0).len() == 0);
    }
    while j < p2p_conns.len()
        invariant
            j <= p2p_conns.len(),
            n == shapes.len(),
            first.len() == n,
            source == end_view(from),
            target == end_view(to),
            from.1.wf(),
            to.1.wf(),
            from.1@.within(n - from.0),
            to.1@.within(n - to.0),
            units_view(shapes@) == wired(first, source, target, p2p_conns@.take(j as int)),
            grown(first, units_view(shapes@)),
            bounded(first, n as int) ==> bounded(units_view(shapes@), n as int),
        decreases p2p_conns.len() - j,
    {
        let ghost seen = p2p_conns@.take(j + 1);
        let ghost before = units_view(shapes@);
        proof {
            assert(seen.drop_last() =~= p2p_conns@.take(j as int));
            assert(seen.last() == p2p_conns@[j as int]);
        }
        let (start, end) = p2p_conns[j];
        let from_at: (i64, i64, i64) = (
            from.2.pos.x as i64 + start.x as i64,
            from.2.pos.y as i64 + start.y as i64,
            from.2.pos.z as i64 + start.z as i64,
        );
        let to_at: (i64, i64, i64) = (
            to.2.pos.x as i64 + end.x as i64,
            to.2.pos.y as i64 + end.y as i64,
            to.2.pos.z as i64 + end.z as i64,
        );
        if is_point_in_bounds(start, from.2.bounds) && is_point_in_bounds(end, to.2.bounds) {
            match from.1.units_at(from_at) {
                Some(from_shapes) => match to.1.units_at(to_at) {
                    Some(to_shapes) => {
                        proof {
                            lemma_cell_within(
                                from.1@,
                                (from_at.0 as int, from_at.1 as int, from_at.2 as int),
                                from.0,
                                n as int,
                            );
                            lemma_cell_within(
                                to.1@,
                                (to_at.0 as int, to_at.1 as int, to_at.2 as int),
                                to.0,
                                n as int,
                            );
                        }
                        let targets = shifted_list(to_shapes, to.0);
                        extend_each(shapes, from_shapes, from.0, &targets);
                        proof {
                            let after = units_view(shapes@);
                            assert(grown(first, after)) by {
                                assert forall|i: int| 0 <= i < first.len() implies (
                                #[trigger] after[i]).pos == first[i].pos && after[i].rot
                                    == first[i].rot && after[i].shape.base == first[i].shape.base
                                    && after[i].shape.color == first[i].shape.color
                                    && after[i].shape.forced == first[i].shape.forced
                                    && first[i].shape.conns.len() <= after[i].shape.conns.len() by {
                                    assert(before[i].pos == first[i].pos);
                                }
                            }
                            if bounded(first, n as int) {
                                assert(bounded(before, n as int));
                                assert forall|k: int| 0 <= k < targets.len() implies #[trigger] targets@[k]
                                    < n by {
                                    assert(to_shapes@[k] + to.0 < n);
                                }
                            }
                        }
                    },
                    None => {},
                },
                None => {},
            }
        }
        proof {
            assert(units_view(shapes@) == wired(first, source, target, seen));
        }
        j += 1;
    }
    proof {
        assert(p2p_conns@.take(j as int) =~= p2p_conns@);
    }
}

} // verus!
