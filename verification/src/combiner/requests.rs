//! What holds of connection requests: what one request adds, and that no
//! later request takes it away.

use vstd::prelude::*;
use crate::bind::{lemma_resolve_range, names_wf, remote, resolve, shifted_by, SlotsOfView};
use crate::combiner::compile::{connected, connected_all};
use crate::combiner::laws::lemma_unit_box;
use crate::combiner::wiring::{end_of, extended, lands, lemma_cell_within, wired, with_targets, End};
use crate::combiner::flatten::{lemma_flat_len, lemma_namespace_wf, placed_wf, units_before};
use crate::combiner::{CaseView, CombinerView, SlotSide};
use crate::positioner::Positioner;
use crate::connection::order::Pair;
use crate::connection::{common_box, ConnStraight, Connection};
use crate::scheme::UnitView;
use crate::util::{Bounds, Point};

verus! {

/// `b` holds the units of `a`, each with the connections that it had,
/// in their order, and maybe more behind them.
pub open spec fn keeps(a: Seq<UnitView>, b: Seq<UnitView>) -> bool {
    &&& a.len() == b.len()
    &&& forall|i: int| 0 <= i < a.len() ==> (#[trigger] a[i]).shape.conns.is_prefix_of(b[i].shape.conns)
}

/// What a list holds, every list that it begins holds too.
pub proof fn lemma_prefix_contains(a: Seq<usize>, b: Seq<usize>, x: usize)
    requires
        a.is_prefix_of(b),
        a.contains(x),
    ensures
        b.contains(x),
{
    let i = choose|i: int| 0 <= i < a.len() && a[i] == x;
    assert(b[i] == x);
}

/// Keeping goes on: what keeps what keeps the units, keeps the units.
pub proof fn lemma_keeps_on(a: Seq<UnitView>, b: Seq<UnitView>, c: Seq<UnitView>)
    requires
        keeps(a, b),
        keeps(b, c),
    ensures
        keeps(a, c),
{
    assert forall|i: int| 0 <= i < a.len() implies (#[trigger] a[i]).shape.conns.is_prefix_of(
        c[i].shape.conns,
    ) by {
        assert(a[i].shape.conns.is_prefix_of(b[i].shape.conns));
        assert(b[i].shape.conns.is_prefix_of(c[i].shape.conns));
        assert(a[i].shape.conns =~= c[i].shape.conns.subrange(0, a[i].shape.conns.len() as int)) by {
            let x = a[i].shape.conns;
            let y = b[i].shape.conns;
            let z = c[i].shape.conns;
            assert(x.len() <= y.len() <= z.len());
            assert forall|k: int| 0 <= k < x.len() implies x[k] == z[k] by {
                assert(x[k] == y[k]);
                assert(y[k] == z[k]);
            }
        }
    }
}

/// Connecting units to targets keeps what every unit was connected to, and
/// connects each of the units to each of the targets.
pub proof fn lemma_extended(
    units: Seq<UnitView>,
    sources: Seq<usize>,
    start: usize,
    targets: Seq<usize>,
)
    requires
        forall|k: int| 0 <= k < sources.len() ==> #[trigger] sources[k] + start < units.len(),
    ensures
        keeps(units, extended(units, sources, start, targets)),
        forall|k: int, t: int|
            #![trigger sources[k], targets[t]]
            0 <= k < sources.len() && 0 <= t < targets.len() ==> extended(
                units,
                sources,
                start,
                targets,
            )[sources[k] + start].shape.conns.contains(targets[t]),
    decreases sources.len(),
{
    if sources.len() == 0 {
        assert forall|i: int| 0 <= i < units.len() implies (#[trigger] units[i]).shape.conns.is_prefix_of(
            units[i].shape.conns,
        ) by {}
    } else {
        let head = sources.drop_last();
        let before = extended(units, head, start, targets);
        assert forall|k: int| 0 <= k < head.len() implies #[trigger] head[k] + start < units.len() by {
            assert(head[k] == sources[k]);
        }
        lemma_extended(units, head, start, targets);
        let at = sources.last() + start;
        let after = before.update(at, with_targets(before[at], targets));
        assert(extended(units, sources, start, targets) == after);
        assert(keeps(before, after)) by {
            assert forall|i: int| 0 <= i < before.len() implies (#[trigger] before[i]).shape.conns.is_prefix_of(
                after[i].shape.conns,
            ) by {
                if i == at {
                    assert(after[i].shape.conns == before[i].shape.conns + targets);
                }
            }
        }
        lemma_keeps_on(units, before, after);
        assert forall|k: int, t: int|
            #![trigger sources[k], targets[t]]
            0 <= k < sources.len() && 0 <= t < targets.len() implies after[sources[k]
            + start].shape.conns.contains(targets[t]) by {
            let u = sources[k] + start;
            if u == at {
                let had = before[at].shape.conns;
                assert(after[at].shape.conns == had + targets);
                assert((had + targets)[had.len() + t] == targets[t]);
            } else {
                assert(k < head.len());
                assert(head[k] == sources[k]);
                assert(before[head[k] + start].shape.conns.contains(targets[t]));
                assert(after[u] == before[u]);
            }
        }
    }
}

/// Following pairs keeps what every unit was connected to.
pub proof fn lemma_wired_keeps(units: Seq<UnitView>, from: End, to: End, pairs: Seq<Pair>)
    requires
        from.slot.wf(),
        from.slot.within(units.len() - from.start),
    ensures
        keeps(units, wired(units, from, to, pairs)),
    decreases pairs.len(),
{
    if pairs.len() == 0 {
        assert forall|i: int| 0 <= i < units.len() implies (#[trigger] units[i]).shape.conns.is_prefix_of(
            units[i].shape.conns,
        ) by {}
    } else {
        let before = wired(units, from, to, pairs.drop_last());
        lemma_wired_keeps(units, from, to, pairs.drop_last());
        let pair = pairs.last();
        if lands(from, to, pair) {
            let cell = from.slot.cell(remote(from.sector, pair.0));
            lemma_cell_within(
                from.slot,
                remote(from.sector, pair.0),
                from.start,
                units.len() as int,
            );
            let targets = shifted_by(to.slot.cell(remote(to.sector, pair.1)), to.start);
            lemma_extended(before, cell, from.start, targets);
            lemma_keeps_on(units, before, extended(before, cell, from.start, targets));
        }
    }
}

/// Following a request keeps what every unit was connected to.
pub proof fn lemma_connected_keeps(
    units: Seq<UnitView>,
    case: CaseView,
    outs: Seq<SlotsOfView>,
    ins: Seq<SlotsOfView>,
)
    requires
        names_wf(outs, units.len() as int),
    ensures
        keeps(units, connected(units, case, outs, ins)),
{
    match (end_of(outs, case.from), end_of(ins, case.to)) {
        (Some(from), Some(to)) => {
            lemma_resolve_range(outs, case.from);
            let e = resolve(outs, case.from)->entry;
            let s = resolve(outs, case.from)->index;
            assert(outs[e].slots[s].wf() && outs[e].slots[s].within(units.len() - outs[e].start));
            lemma_wired_keeps(
                units,
                from,
                to,
                case.conn.pairs(from.sector.bounds, to.sector.bounds),
            );
        },
        _ => {
            assert forall|i: int| 0 <= i < units.len() implies (#[trigger] units[i]).shape.conns.is_prefix_of(
                units[i].shape.conns,
            ) by {}
        },
    }
}

/// Following requests keeps what every unit was connected to: a
/// connection, once made, stays.
pub proof fn lemma_connected_all_keeps(
    units: Seq<UnitView>,
    cases: Seq<CaseView>,
    outs: Seq<SlotsOfView>,
    ins: Seq<SlotsOfView>,
)
    requires
        names_wf(outs, units.len() as int),
    ensures
        keeps(units, connected_all(units, cases, outs, ins)),
    decreases cases.len(),
{
    if cases.len() == 0 {
        assert forall|i: int| 0 <= i < units.len() implies (#[trigger] units[i]).shape.conns.is_prefix_of(
            units[i].shape.conns,
        ) by {}
    } else {
        let before = connected_all(units, cases.drop_last(), outs, ins);
        lemma_connected_all_keeps(units, cases.drop_last(), outs, ins);
        lemma_connected_keeps(before, cases.last(), outs, ins);
        lemma_keeps_on(units, before, connected(before, cases.last(), outs, ins));
    }
}

/// The requests can be followed in two parts.
pub proof fn lemma_connected_all_split(
    units: Seq<UnitView>,
    cases: Seq<CaseView>,
    outs: Seq<SlotsOfView>,
    ins: Seq<SlotsOfView>,
    c: int,
)
    requires
        0 <= c <= cases.len(),
    ensures
        connected_all(units, cases, outs, ins) == connected_all(
            connected_all(units, cases.take(c), outs, ins),
            cases.skip(c),
            outs,
            ins,
        ),
    decreases cases.len() - c,
{
    let rest = cases.skip(c);
    if rest.len() == 0 {
        assert(cases.take(c) =~= cases);
    } else {
        let head = cases.drop_last();
        lemma_connected_all_split(units, head, outs, ins, c);
        assert(head.take(c) =~= cases.take(c));
        assert(head.skip(c) =~= rest.drop_last());
        assert(rest.last() == cases.last());
    }
}

/// The end is one point: its slot and its sector have one cell.
pub open spec fn one_point(end: End) -> bool {
    &&& end.slot.bounds == (Bounds { x: 1, y: 1, z: 1 })
    &&& end.sector.bounds == (Bounds { x: 1, y: 1, z: 1 })
    &&& end.sector.pos == (Point { x: 0, y: 0, z: 0 })
}

/// A straight request between two ends of one point each connects every
/// unit of the start point to every unit of the end point.
pub proof fn lemma_point_request(
    units: Seq<UnitView>,
    case: CaseView,
    outs: Seq<SlotsOfView>,
    ins: Seq<SlotsOfView>,
)
    requires
        case.conn == Connection::Straight(ConnStraight {  }),
        end_of(outs, case.from) matches Some(from) && one_point(from),
        end_of(ins, case.to) matches Some(to) && one_point(to),
    ensures
        connected(units, case, outs, ins) == extended(
            units,
            end_of(outs, case.from)->0.slot.cell((0, 0, 0)),
            end_of(outs, case.from)->0.start,
            shifted_by(end_of(ins, case.to)->0.slot.cell((0, 0, 0)), end_of(ins, case.to)->0.start),
        ),
{
    let from = end_of(outs, case.from)->0;
    let to = end_of(ins, case.to)->0;
    let origin = Point { x: 0, y: 0, z: 0 };
    let one = Bounds { x: 1, y: 1, z: 1 };
    lemma_unit_box();
    assert(common_box(one, one) == one);
    let pairs = case.conn.pairs(from.sector.bounds, to.sector.bounds);
    assert(pairs =~= seq![(origin, origin)]);
    assert(pairs.drop_last() =~= Seq::<Pair>::empty());
    assert(pairs.last() == (origin, origin));
    assert(lands(from, to, (origin, origin)));
    reveal_with_fuel(wired, 2);
    assert(wired(units, from, to, Seq::<Pair>::empty()) == units);
}

/// A straight request between two ends of one point each is followed, and
/// the requests behind it take nothing away: in the end every unit of the
/// start point is connected to every unit of the end point.
pub proof fn lemma_request_followed(
    units: Seq<UnitView>,
    cases: Seq<CaseView>,
    outs: Seq<SlotsOfView>,
    ins: Seq<SlotsOfView>,
    c: int,
    s: int,
    t: int,
)
    requires
        names_wf(outs, units.len() as int),
        0 <= c < cases.len(),
        cases[c].conn == Connection::Straight(ConnStraight {  }),
        end_of(outs, cases[c].from) matches Some(from) && one_point(from),
        end_of(ins, cases[c].to) matches Some(to) && one_point(to),
        0 <= s < end_of(outs, cases[c].from)->0.slot.cell((0, 0, 0)).len(),
        0 <= t < end_of(ins, cases[c].to)->0.slot.cell((0, 0, 0)).len(),
    ensures
        ({
            let from = end_of(outs, cases[c].from)->0;
            let to = end_of(ins, cases[c].to)->0;
            let done = connected_all(units, cases, outs, ins);
            &&& done.len() == units.len()
            &&& 0 <= from.slot.cell((0, 0, 0))[s] + from.start < units.len()
            &&& done[from.slot.cell((0, 0, 0))[s] + from.start].shape.conns.contains(
                (to.slot.cell((0, 0, 0))[t] + to.start) as usize,
            )
        }),
{
    let from = end_of(outs, cases[c].from)->0;
    let to = end_of(ins, cases[c].to)->0;
    let sources = from.slot.cell((0, 0, 0));
    let targets = shifted_by(to.slot.cell((0, 0, 0)), to.start);
    let first = cases.take(c);
    let upto = cases.take(c + 1);
    let before = connected_all(units, first, outs, ins);
    lemma_connected_all_keeps(units, first, outs, ins);
    assert(upto.drop_last() =~= first);
    assert(upto.last() == cases[c]);
    let after = connected_all(units, upto, outs, ins);
    assert(after == connected(before, cases[c], outs, ins));
    lemma_point_request(before, cases[c], outs, ins);
    lemma_resolve_range(outs, cases[c].from);
    let e = resolve(outs, cases[c].from)->entry;
    let i = resolve(outs, cases[c].from)->index;
    assert(outs[e].slots[i].wf() && outs[e].slots[i].within(units.len() - outs[e].start));
    lemma_cell_within(from.slot, (0, 0, 0), from.start, units.len() as int);
    lemma_extended(before, sources, from.start, targets);
    let u = sources[s] + from.start;
    assert(after[sources[s] + from.start].shape.conns.contains(targets[t]));
    lemma_connected_all_split(units, cases, outs, ins, c + 1);
    lemma_connected_all_keeps(after, cases.skip(c + 1), outs, ins);
    let done = connected_all(units, cases, outs, ins);
    assert(keeps(after, done));
    assert(after[u].shape.conns.is_prefix_of(done[u].shape.conns));
    lemma_prefix_contains(after[u].shape.conns, done[u].shape.conns, targets[t]);
}

/// In the scheme that a combiner compiles to, a straight request between
/// two ends of one point each, as from the carry output of one section to
/// the carry input of the next, shows: every unit of the start point is
/// connected to every unit of the end point, each counted from the start
/// of its scheme. The compiled scheme has the units of all the schemes.
pub proof fn lemma_compiled_request<P: Positioner>(view: CombinerView<P>, c: int, s: int, t: int)
    requires
        placed_wf(view.placed()),
        units_before(view.placed(), view.schemes.len() as int) <= usize::MAX,
        0 <= c < view.connections.len(),
        view.connections[c].conn == Connection::Straight(ConnStraight {  }),
        end_of(view.names(SlotSide::Output), view.connections[c].from) matches Some(from)
            && one_point(from),
        end_of(view.names(SlotSide::Input), view.connections[c].to) matches Some(to) && one_point(to),
        0 <= s < end_of(view.names(SlotSide::Output), view.connections[c].from)->0.slot.cell(
            (0, 0, 0),
        ).len(),
        0 <= t < end_of(view.names(SlotSide::Input), view.connections[c].to)->0.slot.cell(
            (0, 0, 0),
        ).len(),
    ensures
        ({
            let from = end_of(view.names(SlotSide::Output), view.connections[c].from)->0;
            let to = end_of(view.names(SlotSide::Input), view.connections[c].to)->0;
            &&& view.units().len() == units_before(view.placed(), view.schemes.len() as int)
            &&& 0 <= from.slot.cell((0, 0, 0))[s] + from.start < view.units().len()
            &&& view.units()[from.slot.cell((0, 0, 0))[s] + from.start].shape.conns.contains(
                (to.slot.cell((0, 0, 0))[t] + to.start) as usize,
            )
        }),
{
    let placed = view.placed();
    let flat = view.flat();
    lemma_flat_len(placed, placed.len() as int);
    lemma_namespace_wf(placed, SlotSide::Output);
    lemma_request_followed(
        flat,
        view.connections,
        view.names(SlotSide::Output),
        view.names(SlotSide::Input),
        c,
        s,
        t,
    );
}

} // verus!
