//! What holds of every compilation: how binds and connection requests
//! show in the compiled scheme and in the report, one by one.

use vstd::prelude::*;
use vstd::string::*;
use crate::bind::{
    lemma_unresolved_are_skipped, resolve, resolving, scheme_position, BindView, InvalidConnView,
    SlotsOfView, Target,
};
use crate::combiner::compile::{
    bind_complaints, compiled_slots, dangling, labelled, resolves, slot_path, PATH_SEPARATOR,
};
use crate::combiner::flatten::{units_before, Placed};
use crate::combiner::pass::lemma_slot_found;
use crate::bind::{applied_all, mirrored, shifted_by, EntryView};
use crate::connection::grid::{box_points, grid_points, plane_points, row_points, Span};
use crate::connection::order::Pair;
use crate::connection::{common_box, ConnStraight, Connection};
use crate::slot::{inside, SectorView};
use crate::util::map3d::{cell_id, lemma_cell_id_injective, lemma_cell_id_range};
use crate::util::{Bounds, Point};
use crate::combiner::flatten::side_slots;
use crate::combiner::{CaseView, CombinerView, SlotSide};
use crate::positioner::Positioner;
use crate::scheme::SchemeView;
use crate::scheme::{lemma_slot_position_range, slot_name, slot_position, DEFAULT_SLOT};
use crate::slot::SlotView;
use crate::util::{lemma_token_end, lemma_token_end_scan, split_token, token_end};

verus! {

/// The complaints about the first `k` binds are about those binds alone:
/// lists of binds that agree on them give the same complaints.
pub proof fn lemma_complaints_of_prefix(
    binds: Seq<BindView>,
    other: Seq<BindView>,
    names: Seq<SlotsOfView>,
    k: int,
)
    requires
        0 <= k <= binds.len(),
        k <= other.len(),
        forall|i: int| 0 <= i < k ==> binds[i] == other[i],
    ensures
        bind_complaints(binds, names, k) == bind_complaints(other, names, k),
    decreases k,
{
    if k > 0 {
        lemma_complaints_of_prefix(binds, other, names, k - 1);
    }
}

/// One bind more changes nothing of what the binds before it compile to,
/// and nothing of what is reported about them. It adds its own slot, and
/// one complaint under its own name for each of its mappings whose target
/// does not exist.
pub proof fn lemma_one_more_bind(
    binds: Seq<BindView>,
    added: BindView,
    names: Seq<SlotsOfView>,
    side: SlotSide,
)
    ensures
        compiled_slots(binds.push(added), names, side) == compiled_slots(binds, names, side).push(
            added.compiled(names, side),
        ),
        bind_complaints(binds.push(added), names, (binds.len() + 1) as int) == bind_complaints(
            binds,
            names,
            binds.len() as int,
        ) + labelled(added.name, added.unresolved(names)),
        labelled(added.name, added.unresolved(names)).len() + resolving(added.maps, names).len()
            == added.maps.len(),
        forall|i: int|
            0 <= i < added.unresolved(names).len() ==> (#[trigger] labelled(
                added.name,
                added.unresolved(names),
            )[i]).0 == added.name,
{
    let more = binds.push(added);
    assert(compiled_slots(more, names, side) =~= compiled_slots(binds, names, side).push(
        added.compiled(names, side),
    ));
    lemma_complaints_of_prefix(more, binds, names, binds.len() as int);
    lemma_unresolved_are_skipped(
        added.maps,
        added.blank(),
        added.size,
        names,
        side,
    );
}

/// Where both ends of every connection request exist, no request is
/// reported.
pub proof fn lemma_none_dangles(cases: Seq<CaseView>, outs: Seq<SlotsOfView>, ins: Seq<SlotsOfView>)
    requires
        forall|i: int| 0 <= i < cases.len() ==> resolves(#[trigger] cases[i], outs, ins),
    ensures
        dangling(cases, outs, ins) == Seq::<CaseView>::empty(),
    decreases cases.len(),
{
    if cases.len() > 0 {
        let head = cases.drop_last();
        assert forall|i: int| 0 <= i < head.len() implies resolves(#[trigger] head[i], outs, ins) by {
            assert(head[i] == cases[i]);
        }
        lemma_none_dangles(head, outs, ins);
        assert(resolves(cases[cases.len() - 1], outs, ins));
    }
}

/// Where the target of every mapping exists, there is no complaint.
pub proof fn lemma_all_resolve(bind: BindView, names: Seq<SlotsOfView>, side: SlotSide)
    requires
        forall|j: int| 0 <= j < bind.maps.len() ==> (#[trigger] bind.maps[j]).resolves(names),
    ensures
        bind.unresolved(names).len() == 0,
{
    lemma_unresolved_are_skipped(bind.maps, bind.blank(), bind.size, names, side);
    let entries = bind.maps;
    assert(resolving(entries, names) =~= entries) by {
        lemma_filter_all(bind, names);
    }
}

/// Where the target of every mapping exists, every mapping is among those
/// whose target exists.
proof fn lemma_filter_all(bind: BindView, names: Seq<SlotsOfView>)
    requires
        forall|j: int| 0 <= j < bind.maps.len() ==> (#[trigger] bind.maps[j]).resolves(names),
    ensures
        resolving(bind.maps, names) == bind.maps,
    decreases bind.maps.len(),
{
    reveal(Seq::filter);
    let entries = bind.maps;
    if entries.len() > 0 {
        let head = BindView { maps: entries.drop_last(), ..bind };
        assert forall|j: int| 0 <= j < head.maps.len() implies (#[trigger] head.maps[j]).resolves(
            names,
        ) by {
            assert(head.maps[j] == entries[j]);
        }
        lemma_filter_all(head, names);
        assert(entries[entries.len() - 1].resolves(names));
        assert(entries.drop_last().push(entries.last()) =~= entries);
    } else {
        assert(resolving(entries, names) =~= entries);
    }
}

/// Where the target of every mapping of each of the first `k` binds
/// exists, nothing is reported about them.
pub proof fn lemma_no_complaints(binds: Seq<BindView>, names: Seq<SlotsOfView>, side: SlotSide, k: int)
    requires
        0 <= k <= binds.len(),
        forall|i: int, j: int|
            0 <= i < k && 0 <= j < binds[i].maps.len() ==> (#[trigger] binds[i].maps[j]).resolves(
                names,
            ),
    ensures
        bind_complaints(binds, names, k) == Seq::<(Seq<char>, InvalidConnView)>::empty(),
    decreases k,
{
    if k > 0 {
        lemma_no_complaints(binds, names, side, k - 1);
        lemma_all_resolve(binds[k - 1], names, side);
        assert(labelled(binds[k - 1].name, binds[k - 1].unresolved(names)) =~= Seq::empty());
    }
}

/// Where the schemes of a namespace have names of their own, each name is
/// found at the place of its scheme.
pub proof fn lemma_found_at(names: Seq<SlotsOfView>, e: int)
    requires
        0 <= e < names.len(),
        forall|i: int, j: int|
            0 <= i < j < names.len() ==> (#[trigger] names[i]).scheme != (#[trigger] names[j]).scheme,
    ensures
        scheme_position(names, names[e].scheme) == Some(e),
    decreases names.len(),
{
    if e > 0 {
        let rest = names.drop_first();
        assert(names[0].scheme != names[e].scheme);
        assert forall|i: int, j: int| 0 <= i < j < rest.len() implies (#[trigger] rest[i]).scheme != (
        #[trigger] rest[j]).scheme by {
            assert(rest[i] == names[i + 1]);
            assert(rest[j] == names[j + 1]);
        }
        assert(rest[e - 1] == names[e]);
        lemma_found_at(rest, e - 1);
    }
}

/// The path `scheme/slot` leads to the slot: to the first slot of that
/// name of the scheme, as a whole. The names of the scheme and of the slot
/// hold no separator, and the slot has a name.
pub proof fn lemma_slot_path_resolves(names: Seq<SlotsOfView>, e: int, k: int)
    requires
        0 <= e < names.len(),
        scheme_position(names, names[e].scheme) == Some(e),
        !names[e].scheme.contains('/'),
        0 <= k < names[e].slots.len(),
        names[e].slots[k].name.len() > 0,
        !names[e].slots[k].name.contains('/'),
        forall|j: int| 0 <= j < names[e].slots.len() ==> (#[trigger] names[e].slots[j]).wf(),
    ensures
        resolve(names, slot_path(names[e].scheme, names[e].slots[k].name)) matches Target::Found {
            entry,
            index,
            part,
        } && entry == e && 0 <= index <= k && names[e].slots[index].name == names[e].slots[k].name
            && part == names[e].slots[index].whole(),
{
    let scheme = names[e].scheme;
    let slots = names[e].slots;
    let name = slots[k].name;
    let path = slot_path(scheme, name);
    let n = scheme.len() as int;
    reveal_strlit("/");
    assert(PATH_SEPARATOR@ =~= seq!['/']);
    assert(path.len() == n + 1 + name.len());
    assert(path[n] == '/');
    assert forall|j: int| 0 <= j < n implies path[j] != '/' by {
        assert(path[j] == scheme[j]);
        assert(scheme.contains(scheme[j]));
    }
    lemma_token_end_scan(path, n);
    assert(path.skip(n).first() == '/');
    assert(token_end(path.skip(n)) == 0);
    assert(path.take(n) =~= scheme);
    assert(path.skip(n + 1) =~= name);
    assert(split_token(path) == (scheme, Some(name)));
    lemma_token_end(name);
    if token_end(name) < name.len() {
        assert(name.contains(name[token_end(name)]));
    }
    assert(split_token(name) == (name, None::<Seq<char>>));
    lemma_slot_found(slots, name, k);
    lemma_slot_position_range(slots, name);
    lemma_first_slot(slots, name, k);
    let at = slot_position(slots, name)->0;
    assert(slots[at].wf());
    assert(slots[at].sectors[0].0 == Seq::<char>::empty());
    assert(slots[at].sector(Seq::<char>::empty()) == Some(slots[at].whole()));
}

/// The path that is the name of a scheme leads to the default slot of the
/// scheme, as a whole.
pub proof fn lemma_scheme_path_resolves(names: Seq<SlotsOfView>, e: int, k: int)
    requires
        0 <= e < names.len(),
        scheme_position(names, names[e].scheme) == Some(e),
        !names[e].scheme.contains('/'),
        0 <= k < names[e].slots.len(),
        names[e].slots[k].name == DEFAULT_SLOT@,
        forall|j: int| 0 <= j < names[e].slots.len() ==> (#[trigger] names[e].slots[j]).wf(),
    ensures
        resolve(names, names[e].scheme) matches Target::Found { entry, index, part } && entry == e
            && 0 <= index <= k && names[e].slots[index].name == DEFAULT_SLOT@ && part
            == names[e].slots[index].whole(),
{
    let scheme = names[e].scheme;
    let slots = names[e].slots;
    let none = Seq::<char>::empty();
    lemma_token_end(scheme);
    if token_end(scheme) < scheme.len() {
        assert(scheme.contains(scheme[token_end(scheme)]));
    }
    assert(split_token(scheme) == (scheme, None::<Seq<char>>));
    assert(token_end(none) == 0);
    assert(split_token(none) == (none, None::<Seq<char>>));
    assert(slot_name(none) == DEFAULT_SLOT@);
    lemma_slot_found(slots, none, k);
    lemma_slot_position_range(slots, none);
    lemma_first_slot(slots, none, k);
    let at = slot_position(slots, none)->0;
    assert(slots[at].wf());
    assert(slots[at].sectors[0].0 == Seq::<char>::empty());
    assert(slots[at].sector(none) == Some(slots[at].whole()));
}

/// The slot that is found is the first of its name.
pub proof fn lemma_first_slot(slots: Seq<SlotView>, name: Seq<char>, k: int)
    requires
        0 <= k < slots.len(),
        slots[k].name == slot_name(name),
    ensures
        slot_position(slots, name) matches Some(at) && at <= k,
    decreases slots.len(),
{
    if slots[0].name != slot_name(name) {
        let rest = slots.drop_first();
        assert(rest[k - 1] == slots[k]);
        lemma_first_slot(rest, name, k - 1);
    }
}

/// Schemes of `k` units each have as many units together as there are
/// schemes, times `k`.
pub proof fn lemma_count_of_equal(placed: Seq<Placed>, n: int, k: int)
    requires
        0 <= n <= placed.len(),
        forall|i: int| 0 <= i < n ==> (#[trigger] placed[i]).scheme.units.len() == k,
    ensures
        units_before(placed, n) == n * k,
    decreases n,
{
    if n > 0 {
        lemma_count_of_equal(placed, n - 1, k);
        assert(placed[n - 1].scheme.units.len() == k);
        assert((n - 1) * k + k == n * k) by (nonlinear_arith);
    } else {
        assert(n * k == 0) by (nonlinear_arith)
            requires
                n == 0,
        ;
    }
}

/// Every scheme of the combiner is well-formed.
pub open spec fn schemes_hold<P: Positioner>(view: CombinerView<P>) -> bool {
    forall|i: int| 0 <= i < view.schemes.len() ==> (#[trigger] view.schemes[i]).1.wf()
}

/// The scheme has a slot of the given name on the given side.
pub open spec fn has_slot(scheme: SchemeView, side: SlotSide, name: Seq<char>) -> bool {
    exists|k: int|
        0 <= k < side_slots(scheme, side).len() && (#[trigger] side_slots(scheme, side)[k]).name == name
}

/// In the namespace of a combiner every scheme is found at its own place,
/// with its own slots.
pub proof fn lemma_names_of<P: Positioner>(view: CombinerView<P>, side: SlotSide, i: int)
    requires
        view.wf(),
        schemes_hold(view),
        0 <= i < view.schemes.len(),
    ensures
        view.names(side).len() == view.schemes.len(),
        view.names(side)[i].scheme == view.schemes[i].0,
        view.names(side)[i].slots == side_slots(view.schemes[i].1, side),
        scheme_position(view.names(side), view.schemes[i].0) == Some(i),
        !view.schemes[i].0.contains('/'),
        forall|j: int|
            0 <= j < view.names(side)[i].slots.len() ==> (#[trigger] view.names(side)[i].slots[j]).wf(),
{
    let names = view.names(side);
    assert forall|a: int, b: int| 0 <= a < b < names.len() implies (#[trigger] names[a]).scheme != (
    #[trigger] names[b]).scheme by {
        assert(view.schemes[a].0 != view.schemes[b].0);
    }
    lemma_found_at(names, i);
    assert(view.schemes[i].1.wf());
}

/// A connection request from the name of one scheme to the name of
/// another is followed, and not reported, where the first scheme has a
/// default output slot and the second a default input slot.
pub proof fn lemma_request_resolves<P: Positioner>(
    view: CombinerView<P>,
    case: CaseView,
    i: int,
    j: int,
)
    requires
        view.wf(),
        schemes_hold(view),
        0 <= i < view.schemes.len(),
        0 <= j < view.schemes.len(),
        case.from == view.schemes[i].0,
        case.to == view.schemes[j].0,
        has_slot(view.schemes[i].1, SlotSide::Output, DEFAULT_SLOT@),
        has_slot(view.schemes[j].1, SlotSide::Input, DEFAULT_SLOT@),
    ensures
        resolves(case, view.names(SlotSide::Output), view.names(SlotSide::Input)),
{
    let outs = view.names(SlotSide::Output);
    let ins = view.names(SlotSide::Input);
    lemma_names_of(view, SlotSide::Output, i);
    lemma_names_of(view, SlotSide::Input, j);
    let a = choose|k: int|
        0 <= k < side_slots(view.schemes[i].1, SlotSide::Output).len() && (#[trigger] side_slots(
            view.schemes[i].1,
            SlotSide::Output,
        )[k]).name == DEFAULT_SLOT@;
    let b = choose|k: int|
        0 <= k < side_slots(view.schemes[j].1, SlotSide::Input).len() && (#[trigger] side_slots(
            view.schemes[j].1,
            SlotSide::Input,
        )[k]).name == DEFAULT_SLOT@;
    lemma_scheme_path_resolves(outs, i, a);
    lemma_scheme_path_resolves(ins, j, b);
}

/// A mapping of a bind whose target is the path `scheme/slot` of a slot of
/// a scheme of the combiner is followed, and not complained about. The
/// slot has a name, and the name holds no separator.
pub proof fn lemma_mapping_resolves<P: Positioner>(
    view: CombinerView<P>,
    entry: EntryView,
    side: SlotSide,
    i: int,
    k: int,
)
    requires
        view.wf(),
        schemes_hold(view),
        0 <= i < view.schemes.len(),
        0 <= k < side_slots(view.schemes[i].1, side).len(),
        side_slots(view.schemes[i].1, side)[k].name.len() > 0,
        !side_slots(view.schemes[i].1, side)[k].name.contains('/'),
        entry.target == slot_path(view.schemes[i].0, side_slots(view.schemes[i].1, side)[k].name),
    ensures
        entry.resolves(view.names(side)),
        entry.complaint(view.names(side)) is None,
{
    lemma_names_of(view, side, i);
    lemma_slot_path_resolves(view.names(side), i, k);
}

/// The request leads from the name of a scheme of the combiner with a
/// default output slot to the name of one with a default input slot.
pub open spec fn joins_schemes<P: Positioner>(view: CombinerView<P>, case: CaseView) -> bool {
    exists|i: int, j: int|
        0 <= i < view.schemes.len() && 0 <= j < view.schemes.len() && case.from == (
        #[trigger] view.schemes[i]).0 && case.to == (#[trigger] view.schemes[j]).0 && has_slot(
            view.schemes[i].1,
            SlotSide::Output,
            DEFAULT_SLOT@,
        ) && has_slot(view.schemes[j].1, SlotSide::Input, DEFAULT_SLOT@)
}

/// The target of the mapping is the path `scheme/slot` of a slot of a
/// scheme of the combiner, where the slot has a name without separator.
pub open spec fn names_slot<P: Positioner>(view: CombinerView<P>, entry: EntryView, side: SlotSide) -> bool {
    exists|i: int, k: int|
        0 <= i < view.schemes.len() && 0 <= k < side_slots(view.schemes[i].1, side).len()
            && entry.target == slot_path(
            view.schemes[i].0,
            (#[trigger] side_slots(view.schemes[i].1, side)[k]).name,
        ) && side_slots(view.schemes[i].1, side)[k].name.len() > 0 && !side_slots(
            view.schemes[i].1,
            side,
        )[k].name.contains('/')
}

/// Every mapping of every bind names a slot of a scheme of the combiner.
pub open spec fn binds_name_slots<P: Positioner>(
    view: CombinerView<P>,
    binds: Seq<BindView>,
    side: SlotSide,
) -> bool {
    forall|b: int, m: int|
        0 <= b < binds.len() && 0 <= m < binds[b].maps.len() ==> names_slot(
            view,
            #[trigger] binds[b].maps[m],
            side,
        )
}

/// Schemes of one size in a combiner, where every request joins two
/// schemes and every mapping of every bind names a slot of a scheme, as
/// where sections are chained and their slots are passed on: nothing is
/// reported, whatever the number of the schemes, and the units of the
/// schemes are, together, their number times the size.
pub proof fn lemma_sections_compile<P: Positioner>(view: CombinerView<P>, size: int)
    requires
        view.wf(),
        schemes_hold(view),
        view.all_placed(),
        forall|i: int| 0 <= i < view.schemes.len() ==> (#[trigger] view.schemes[i]).1.units.len() == size,
        forall|c: int| 0 <= c < view.connections.len() ==> joins_schemes(view, #[trigger] view.connections[c]),
        binds_name_slots(view, view.inputs, SlotSide::Input),
        binds_name_slots(view, view.outputs, SlotSide::Output),
    ensures
        units_before(view.placed(), view.schemes.len() as int) == view.schemes.len() * size,
        dangling(view.connections, view.names(SlotSide::Output), view.names(SlotSide::Input))
            == Seq::<CaseView>::empty(),
        bind_complaints(view.inputs, view.names(SlotSide::Input), view.inputs.len() as int)
            == Seq::<(Seq<char>, InvalidConnView)>::empty(),
        bind_complaints(view.outputs, view.names(SlotSide::Output), view.outputs.len() as int)
            == Seq::<(Seq<char>, InvalidConnView)>::empty(),
{
    let placed = view.placed();
    assert forall|i: int| 0 <= i < placed.len() implies (#[trigger] placed[i]).scheme.units.len()
        == size by {
        assert(view.schemes[i].1.units.len() == size);
    }
    lemma_count_of_equal(placed, view.schemes.len() as int, size);
    let outs = view.names(SlotSide::Output);
    let ins = view.names(SlotSide::Input);
    assert forall|c: int| 0 <= c < view.connections.len() implies resolves(
        #[trigger] view.connections[c],
        outs,
        ins,
    ) by {
        let case = view.connections[c];
        assert(joins_schemes(view, case));
        let (i, j) = choose|i: int, j: int|
            0 <= i < view.schemes.len() && 0 <= j < view.schemes.len() && case.from == (
            #[trigger] view.schemes[i]).0 && case.to == (#[trigger] view.schemes[j]).0 && has_slot(
                view.schemes[i].1,
                SlotSide::Output,
                DEFAULT_SLOT@,
            ) && has_slot(view.schemes[j].1, SlotSide::Input, DEFAULT_SLOT@);
        lemma_request_resolves(view, case, i, j);
    }
    lemma_none_dangles(view.connections, outs, ins);
    lemma_binds_resolve(view, view.inputs, SlotSide::Input);
    lemma_no_complaints(view.inputs, ins, SlotSide::Input, view.inputs.len() as int);
    lemma_binds_resolve(view, view.outputs, SlotSide::Output);
    lemma_no_complaints(view.outputs, outs, SlotSide::Output, view.outputs.len() as int);
}

/// Where every mapping of every bind names a slot of a scheme of the
/// combiner, the target of every mapping exists.
pub proof fn lemma_binds_resolve<P: Positioner>(view: CombinerView<P>, binds: Seq<BindView>, side: SlotSide)
    requires
        view.wf(),
        schemes_hold(view),
        binds_name_slots(view, binds, side),
    ensures
        forall|b: int, m: int|
            0 <= b < binds.len() && 0 <= m < binds[b].maps.len() ==> (#[trigger] binds[b].maps[m]).resolves(
                view.names(side),
            ),
{
    assert forall|b: int, m: int|
        0 <= b < binds.len() && 0 <= m < binds[b].maps.len() implies (#[trigger] binds[b].maps[m]).resolves(
        view.names(side),
    ) by {
        let entry = binds[b].maps[m];
        assert(names_slot(view, entry, side));
        let (i, k) = choose|i: int, k: int|
            0 <= i < view.schemes.len() && 0 <= k < side_slots(view.schemes[i].1, side).len()
                && entry.target == slot_path(
                view.schemes[i].0,
                (#[trigger] side_slots(view.schemes[i].1, side)[k]).name,
            ) && side_slots(view.schemes[i].1, side)[k].name.len() > 0 && !side_slots(
                view.schemes[i].1,
                side,
            )[k].name.contains('/');
        lemma_mapping_resolves(view, entry, side, i, k);
    }
}

/// The box of one point holds the origin and nothing else.
pub proof fn lemma_unit_box()
    ensures
        box_points(Bounds { x: 1, y: 1, z: 1 }) == seq![Point { x: 0, y: 0, z: 0 }],
{
    let one = Span { lo: 0, hi: 1 };
    let none = Span { lo: 0, hi: 0 };
    reveal_with_fuel(grid_points, 2);
    reveal_with_fuel(plane_points, 2);
    assert(grid_points(none, one, one) =~= Seq::<Point>::empty());
    assert(plane_points(0, none, one) =~= Seq::<Point>::empty());
    assert(row_points(0, 0, one) =~= seq![Point { x: 0, y: 0, z: 0 }]);
    assert(plane_points(0, one, one) =~= seq![Point { x: 0, y: 0, z: 0 }]);
    assert(grid_points(one, one, one) =~= seq![Point { x: 0, y: 0, z: 0 }]);
}

/// The mapping leads one point of the bind, straight, to its target.
pub open spec fn point_mapping(entry: EntryView) -> bool {
    entry.size == (Bounds { x: 1, y: 1, z: 1 }) && entry.conn == Connection::Straight(ConnStraight {  })
}

/// A mapping of one point proposes one pair, from its point to the first
/// point of a target that is not empty.
pub proof fn lemma_point_pairs(entry: EntryView, target: SectorView, side: SlotSide)
    requires
        point_mapping(entry),
        target.bounds.x >= 1,
        target.bounds.y >= 1,
        target.bounds.z >= 1,
    ensures
        entry.proposed(target, side) == seq![(Point { x: 0, y: 0, z: 0 }, Point { x: 0, y: 0, z: 0 })],
{
    let origin = Point { x: 0, y: 0, z: 0 };
    let one = Bounds { x: 1, y: 1, z: 1 };
    lemma_unit_box();
    assert(common_box(one, target.bounds) == one);
    assert(common_box(target.bounds, one) == one);
    let straight = ConnStraight {  };
    assert(straight.pairs(one, target.bounds) =~= seq![(origin, origin)]);
    assert(straight.pairs(target.bounds, one) =~= seq![(origin, origin)]);
    assert(mirrored(seq![(origin, origin)]) =~= seq![(origin, origin)]);
}

/// What a mapping of one point adds to the point maps of a bind: the
/// units of the first point of the slot that it leads to, counted from the
/// start of the scheme of the slot, at its own point.
pub proof fn lemma_point_applied(
    entry: EntryView,
    points: Seq<Seq<usize>>,
    bind: Bounds,
    names: Seq<SlotsOfView>,
    side: SlotSide,
)
    requires
        point_mapping(entry),
        inside((entry.corner.x as int, entry.corner.y as int, entry.corner.z as int), bind),
        resolve(names, entry.target) matches Target::Found { entry: e, index, part } && part
            == names[e].slots[index].whole() && names[e].slots[index].bounds.x >= 1
            && names[e].slots[index].bounds.y >= 1 && names[e].slots[index].bounds.z >= 1,
    ensures
        ({
            let id = cell_id(
                bind.x as int,
                bind.y as int,
                entry.corner.x as int,
                entry.corner.y as int,
                entry.corner.z as int,
            );
            entry.applied(points, bind, names, side) == points.update(
                id,
                points[id] + reached(names, entry.target),
            )
        }),
{
    let origin = Point { x: 0, y: 0, z: 0 };
    let e = resolve(names, entry.target)->entry;
    let index = resolve(names, entry.target)->index;
    let part = resolve(names, entry.target)->part;
    let slot = names[e].slots[index];
    lemma_point_pairs(entry, part, side);
    let pairs = seq![(origin, origin)];
    assert(pairs.drop_last() =~= Seq::<Pair>::empty());
    assert(pairs.last() == (origin, origin));
    assert(entry.lands(bind, part, slot.bounds, (origin, origin)));
    reveal_with_fuel(EntryView::wired, 2);
    assert(entry.wired(points, bind, slot, part, names[e].start, Seq::<Pair>::empty()) == points);
}

/// The units that the path leads to: those of the first point of its
/// slot, counted from the start of the scheme of the slot.
pub open spec fn reached(names: Seq<SlotsOfView>, path: Seq<char>) -> Seq<usize> {
    match resolve(names, path) {
        Target::Found { entry, index, part } => shifted_by(
            names[entry].slots[index].cell((0, 0, 0)),
            names[entry].start,
        ),
        _ => Seq::empty(),
    }
}

/// The cell of the bind that the mapping starts at.
pub open spec fn corner_cell(entry: EntryView, bind: Bounds) -> int {
    cell_id(
        bind.x as int,
        bind.y as int,
        entry.corner.x as int,
        entry.corner.y as int,
        entry.corner.z as int,
    )
}

/// Each of the first `k` mappings leads one point of the bind, a point of
/// its own, to a whole slot that exists and is not empty.
pub open spec fn point_mappings(maps: Seq<EntryView>, bind: Bounds, names: Seq<SlotsOfView>, k: int) -> bool {
    &&& forall|m: int|
        0 <= m < k ==> point_mapping(#[trigger] maps[m]) && inside(
            (maps[m].corner.x as int, maps[m].corner.y as int, maps[m].corner.z as int),
            bind,
        ) && (resolve(names, maps[m].target) matches Target::Found { entry: e, index, part } && part
            == names[e].slots[index].whole() && names[e].slots[index].bounds.x >= 1
            && names[e].slots[index].bounds.y >= 1 && names[e].slots[index].bounds.z >= 1)
    &&& forall|m: int, n: int| 0 <= m < n < k ==> (#[trigger] maps[m]).corner != (#[trigger] maps[n]).corner
}

/// A bind whose mappings lead one point each to a slot of a scheme, as
/// where the slots of sections are gathered into one slot: each of these
/// points stands for exactly the units that its path leads to, counted
/// from the start of the scheme.
pub proof fn lemma_point_mappings(
    maps: Seq<EntryView>,
    bind: BindView,
    names: Seq<SlotsOfView>,
    side: SlotSide,
    k: int,
)
    requires
        0 <= k <= maps.len(),
        point_mappings(maps, bind.size, names, maps.len() as int),
    ensures
        ({
            let points = applied_all(maps.take(k), bind.blank(), bind.size, names, side);
            &&& points.len() == bind.blank().len()
            &&& forall|m: int|
                0 <= m < k ==> points[corner_cell(#[trigger] maps[m], bind.size)] == reached(
                    names,
                    maps[m].target,
                )
            &&& forall|m: int|
                k <= m < maps.len() ==> points[corner_cell(#[trigger] maps[m], bind.size)]
                    == Seq::<usize>::empty()
        }),
    decreases k,
{
    let size = bind.size;
    let blank = bind.blank();
    assert forall|m: int| 0 <= m < maps.len() implies 0 <= corner_cell(#[trigger] maps[m], size)
        < blank.len() by {
        lemma_cell_id_range(
            size.x as int,
            size.y as int,
            size.z as int,
            maps[m].corner.x as int,
            maps[m].corner.y as int,
            maps[m].corner.z as int,
        );
    }
    if k == 0 {
        assert(maps.take(0) =~= Seq::<EntryView>::empty());
    } else {
        lemma_point_mappings(maps, bind, names, side, k - 1);
        let before = applied_all(maps.take(k - 1), blank, size, names, side);
        let entry = maps[k - 1];
        assert(maps.take(k).drop_last() =~= maps.take(k - 1));
        assert(maps.take(k).last() == entry);
        lemma_point_applied(entry, before, size, names, side);
        let id = corner_cell(entry, size);
        let after = applied_all(maps.take(k), blank, size, names, side);
        assert(after == before.update(id, before[id] + reached(names, entry.target)));
        assert(before[id] == Seq::<usize>::empty());
        assert(before[id] + reached(names, entry.target) =~= reached(names, entry.target));
        assert forall|m: int| 0 <= m < maps.len() && m != k - 1 implies corner_cell(
            #[trigger] maps[m],
            size,
        ) != id by {
            if corner_cell(maps[m], size) == id {
                lemma_cell_id_injective(
                    size.x as int,
                    size.y as int,
                    (maps[m].corner.x as int, maps[m].corner.y as int, maps[m].corner.z as int),
                    (entry.corner.x as int, entry.corner.y as int, entry.corner.z as int),
                );
                if m < k - 1 {
                    assert(maps[m].corner != maps[k - 1].corner);
                } else {
                    assert(maps[k - 1].corner != maps[m].corner);
                }
            }
        }
    }
}

/// No slot of the given side of any scheme of the combiner is empty.
pub open spec fn slots_not_empty<P: Positioner>(view: CombinerView<P>, side: SlotSide) -> bool {
    forall|i: int, k: int|
        0 <= i < view.schemes.len() && 0 <= k < side_slots(view.schemes[i].1, side).len() ==> (
        #[trigger] side_slots(view.schemes[i].1, side)[k]).bounds.x >= 1 && side_slots(
            view.schemes[i].1,
            side,
        )[k].bounds.y >= 1 && side_slots(view.schemes[i].1, side)[k].bounds.z >= 1
}

/// Each mapping of the bind leads one point of the bind, a point of its
/// own, straight to a slot of a scheme of the combiner.
pub open spec fn gathers<P: Positioner>(view: CombinerView<P>, bind: BindView, side: SlotSide) -> bool {
    &&& forall|m: int|
        0 <= m < bind.maps.len() ==> point_mapping(#[trigger] bind.maps[m]) && inside(
            (
                bind.maps[m].corner.x as int,
                bind.maps[m].corner.y as int,
                bind.maps[m].corner.z as int,
            ),
            bind.size,
        ) && names_slot(view, bind.maps[m], side)
    &&& forall|m: int, n: int|
        0 <= m < n < bind.maps.len() ==> (#[trigger] bind.maps[m]).corner != (
        #[trigger] bind.maps[n]).corner
}

/// A bind that gathers slots of the schemes of a combiner point by point,
/// as the bind that stands for all the sections of a chain: it compiles
/// to a slot each of whose points stands for exactly the units of the slot
/// that its path names, counted from the start of the scheme of that slot,
/// and nothing is complained about.
pub proof fn lemma_gathered_slots<P: Positioner>(view: CombinerView<P>, bind: BindView, side: SlotSide)
    requires
        view.wf(),
        schemes_hold(view),
        slots_not_empty(view, side),
        gathers(view, bind, side),
    ensures
        bind.unresolved(view.names(side)).len() == 0,
        forall|m: int|
            0 <= m < bind.maps.len() ==> bind.compiled(view.names(side), side).points[corner_cell(
                #[trigger] bind.maps[m],
                bind.size,
            )] == reached(view.names(side), bind.maps[m].target) && resolve(
                view.names(side),
                bind.maps[m].target,
            ) is Found,
{
    let names = view.names(side);
    let maps = bind.maps;
    assert forall|m: int| 0 <= m < maps.len() implies (resolve(
        names,
        (#[trigger] maps[m]).target,
    ) matches Target::Found { entry: e, index, part } && part == names[e].slots[index].whole()
        && names[e].slots[index].bounds.x >= 1 && names[e].slots[index].bounds.y >= 1
        && names[e].slots[index].bounds.z >= 1) by {
        let entry = maps[m];
        assert(names_slot(view, entry, side));
        let (i, k) = choose|i: int, k: int|
            0 <= i < view.schemes.len() && 0 <= k < side_slots(view.schemes[i].1, side).len()
                && entry.target == slot_path(
                view.schemes[i].0,
                (#[trigger] side_slots(view.schemes[i].1, side)[k]).name,
            ) && side_slots(view.schemes[i].1, side)[k].name.len() > 0 && !side_slots(
                view.schemes[i].1,
                side,
            )[k].name.contains('/');
        lemma_names_of(view, side, i);
        lemma_slot_path_resolves(names, i, k);
        let index = resolve(names, entry.target)->index;
        assert(side_slots(view.schemes[i].1, side)[index].bounds.x >= 1);
    }
    assert(point_mappings(maps, bind.size, names, maps.len() as int));
    lemma_point_mappings(maps, bind, names, side, maps.len() as int);
    assert(maps.take(maps.len() as int) =~= maps);
    assert forall|j: int| 0 <= j < maps.len() implies (#[trigger] maps[j]).resolves(names) by {
        assert(resolve(names, maps[j].target) is Found);
    }
    lemma_all_resolve(bind, names, side);
}

} // verus!
