//! Compiling a combiner into one scheme.

use vstd::prelude::*;
use vstd::string::*;
use crate::bind::{
    complaints_view, lemma_compiled_within, lemma_names_wf_grows, names_exec_wf, names_view,
    names_wf, Bind, BindView, InvalidConn, InvalidConnView, SlotsOf, SlotsOfView,
};
use crate::combiner::flatten::{
    can_flatten, flat_units, flatten, lemma_flat_len, lemma_flat_wired, lemma_namespace_wf,
    namespace, placed_view, placed_wf, units_before, Placed,
};
use crate::combiner::limits::{binds_can_be_compiled, placed_can_be_compiled};
use crate::combiner::wiring::{
    bounded, compile_connection, end_of, end_view, get_scheme_slot, grown, wired, End,
};
use crate::combiner::{
    binds_view, binds_wf, cases_view, strings_view, CaseView, Combiner, CombinerView,
    CompileError, ConnCase, InvalidActs, SlotSide,
};
use crate::positioner::{named_view, schemes_wf, Named, Positioner};
use crate::scheme::{
    size_of, slots_view, slots_wf, slots_within, unit_view, units_fit, units_view, units_wired,
    Scheme, SchemeView, UnitView,
};
use crate::shape::Shape;
use crate::slot::{Slot, SlotView};
use crate::util::{opt_chars, reversed, Point, Rot, MAX_CONNECTIONS};

verus! {

pub const TIP_OVERFLOW: &'static str =
    "Some slots were connected with too much other slots. That resulted in connection overflow. When some shape of the scheme gets more than 255 connections connected to it's input or output it is called connections overflow. This is bad, because it is too buggy and, probably, it is not the thing you want. If you want to intentionally allow connections overflow, use `allow_conns_overflow` method before compilation.";

pub const TIP_OVERFLOW_HEAD: &'static str = "Combiner '";

pub const TIP_OVERFLOW_MIDDLE: &'static str = "' compilation: ";

pub const PATH_SEPARATOR: &'static str = "/";

/// The units after one connection request was followed. A request one of
/// whose ends does not exist changes nothing. The start of a request is
/// looked up among the outputs, its end among the inputs.
pub open spec fn connected(
    units: Seq<UnitView>,
    case: CaseView,
    outs: Seq<SlotsOfView>,
    ins: Seq<SlotsOfView>,
) -> Seq<UnitView> {
    match (end_of(outs, case.from), end_of(ins, case.to)) {
        (Some(from), Some(to)) => wired(
            units,
            from,
            to,
            case.conn.pairs(from.sector.bounds, to.sector.bounds),
        ),
        _ => units,
    }
}

/// Both ends of the request exist.
pub open spec fn resolves(case: CaseView, outs: Seq<SlotsOfView>, ins: Seq<SlotsOfView>) -> bool {
    end_of(outs, case.from) is Some && end_of(ins, case.to) is Some
}

/// The units after the requests were followed, one after the other.
pub open spec fn connected_all(
    units: Seq<UnitView>,
    cases: Seq<CaseView>,
    outs: Seq<SlotsOfView>,
    ins: Seq<SlotsOfView>,
) -> Seq<UnitView>
    decreases cases.len(),
{
    if cases.len() == 0 {
        units
    } else {
        connected(connected_all(units, cases.drop_last(), outs, ins), cases.last(), outs, ins)
    }
}

/// The requests one of whose ends does not exist, in order.
pub open spec fn dangling(cases: Seq<CaseView>, outs: Seq<SlotsOfView>, ins: Seq<SlotsOfView>) -> Seq<
    CaseView,
>
    decreases cases.len(),
{
    if cases.len() == 0 {
        Seq::empty()
    } else {
        let before = dangling(cases.drop_last(), outs, ins);
        if resolves(cases.last(), outs, ins) {
            before
        } else {
            before.push(cases.last())
        }
    }
}

/// The unit has more connections than the game allows.
pub open spec fn overloaded(unit: UnitView) -> bool {
    unit.shape.conns.len() > MAX_CONNECTIONS
}

/// For each unit, whether it has more connections than the game allows.
pub open spec fn overload_flags(units: Seq<UnitView>) -> Seq<bool> {
    Seq::new(units.len(), |i: int| overloaded(units[i]))
}

/// Some unit has more connections than the game allows.
pub open spec fn any_overloaded(units: Seq<UnitView>) -> bool {
    exists|i: int| 0 <= i < units.len() && overloaded(#[trigger] units[i])
}

/// A point of the slot names a unit that is flagged.
pub open spec fn slot_hits(slot: SlotView, start: usize, flags: Seq<bool>) -> bool {
    exists|p: int, k: int|
        0 <= p < slot.points.len() && 0 <= k < slot.points[p].len() && flags[(
        #[trigger] slot.points[p][k]) + start]
}

/// The path of a slot of an inner scheme.
pub open spec fn slot_path(scheme: Seq<char>, slot: Seq<char>) -> Seq<char> {
    scheme + PATH_SEPARATOR@ + slot
}

/// The paths of those of the first `k` slots of the entry that lead to a
/// flagged unit.
pub open spec fn affected_slots(entry: SlotsOfView, flags: Seq<bool>, k: int) -> Seq<Seq<char>>
    decreases k,
{
    if k <= 0 {
        Seq::empty()
    } else {
        let before = affected_slots(entry, flags, k - 1);
        if slot_hits(entry.slots[k - 1], entry.start, flags) {
            before.push(slot_path(entry.scheme, entry.slots[k - 1].name))
        } else {
            before
        }
    }
}

/// The paths of the slots of the first `e` entries that lead to a flagged
/// unit.
pub open spec fn affected(names: Seq<SlotsOfView>, flags: Seq<bool>, e: int) -> Seq<Seq<char>>
    decreases e,
{
    if e <= 0 {
        Seq::empty()
    } else {
        affected(names, flags, e - 1) + affected_slots(
            names[e - 1],
            flags,
            names[e - 1].slots.len() as int,
        )
    }
}

/// The slots that the binds compile to.
pub open spec fn compiled_slots(binds: Seq<BindView>, names: Seq<SlotsOfView>, side: SlotSide) -> Seq<
    SlotView,
> {
    Seq::new(binds.len(), |i: int| binds[i].compiled(names, side))
}

/// Complaints, each with the name of the bind that they are about.
pub open spec fn labelled(name: Seq<char>, complaints: Seq<InvalidConnView>) -> Seq<
    (Seq<char>, InvalidConnView),
> {
    Seq::new(complaints.len(), |i: int| (name, complaints[i]))
}

/// The complaints about the first `k` binds, bind after bind.
pub open spec fn bind_complaints(binds: Seq<BindView>, names: Seq<SlotsOfView>, k: int) -> Seq<
    (Seq<char>, InvalidConnView),
>
    decreases k,
{
    if k <= 0 {
        Seq::empty()
    } else {
        bind_complaints(binds, names, k - 1) + labelled(
            binds[k - 1].name,
            binds[k - 1].unresolved(names),
        )
    }
}

/// The views of a list of labelled complaints.
pub open spec fn labelled_view(list: Seq<(String, InvalidConn)>) -> Seq<
    (Seq<char>, InvalidConnView),
> {
    Seq::new(list.len(), |i: int| (list[i].0@, list[i].1@))
}

/// The tip of the error about too many connections.
pub open spec fn overflow_tip(debug_name: Option<Seq<char>>) -> Seq<char> {
    match debug_name {
        None => TIP_OVERFLOW@,
        Some(name) => TIP_OVERFLOW_HEAD@ + name + TIP_OVERFLOW_MIDDLE@ + TIP_OVERFLOW@,
    }
}

/// Every bind can be compiled: its point map can be held in memory.
pub open spec fn binds_can_compile(binds: Seq<BindView>) -> bool {
    forall|i: int| 0 <= i < binds.len() ==> (#[trigger] binds[i]).can_compile()
}

impl<P: Positioner> CombinerView<P> {
    /// The positioner places every scheme.
    pub open spec fn all_placed(self) -> bool {
        forall|i: int|
            0 <= i < self.schemes.len() ==> self.positioner.placement(self.schemes, i) is Some
    }

    /// The schemes with their places.
    pub open spec fn placed(self) -> Seq<Placed> {
        Seq::new(
            self.schemes.len(),
            |i: int|
                {
                    let at = self.positioner.placement(self.schemes, i)->0;
                    Placed { name: self.schemes[i].0, pos: at.0, rot: at.1, scheme: self.schemes[i].1 }
                },
        )
    }

    /// The units of all schemes in one list, before any request was
    /// followed.
    pub open spec fn flat(self) -> Seq<UnitView> {
        flat_units(self.placed(), self.schemes.len() as int)
    }

    /// The input slots or the output slots of the schemes.
    pub open spec fn names(self, side: SlotSide) -> Seq<SlotsOfView> {
        namespace(self.placed(), side)
    }

    /// The units of the compiled scheme: those of all schemes, with the
    /// connection requests followed.
    pub open spec fn units(self) -> Seq<UnitView> {
        connected_all(
            self.flat(),
            self.connections,
            self.names(SlotSide::Output),
            self.names(SlotSide::Input),
        )
    }

    /// Nothing overflows while the combiner is compiled: every scheme can
    /// be moved to its place and its units fit there, and the point map of
    /// every bind can be held in memory.
    pub open spec fn can_compile(self) -> bool {
        self.all_placed() ==> {
            &&& units_before(self.placed(), self.schemes.len() as int) <= usize::MAX
            &&& can_flatten(self.placed())
            &&& units_fit(self.flat())
            &&& binds_can_compile(self.inputs)
            &&& binds_can_compile(self.outputs)
        }
    }

    /// A unit would have more connections than the game allows, and this
    /// is not allowed.
    pub open spec fn overflows(self) -> bool {
        !self.conns_overflow_allowed && any_overloaded(self.units())
    }

    /// The scheme that the combiner compiles to: the units of all schemes
    /// at their places with the connection requests followed, and the slots
    /// that the input binds and the output binds compile to.
    pub open spec fn scheme(self) -> SchemeView {
        SchemeView {
            units: self.units(),
            inputs: compiled_slots(self.inputs, self.names(SlotSide::Input), SlotSide::Input),
            outputs: compiled_slots(self.outputs, self.names(SlotSide::Output), SlotSide::Output),
            bounds: size_of(self.units()),
        }
    }
}

/// What a report of invalid actions holds.
pub struct InvalidActsView {
    pub connections: Seq<CaseView>,
    pub inp_bind_conns: Seq<(Seq<char>, InvalidConnView)>,
    pub out_bind_conns: Seq<(Seq<char>, InvalidConnView)>,
}

impl View for InvalidActs {
    type V = InvalidActsView;

    open spec fn view(&self) -> InvalidActsView {
        InvalidActsView {
            connections: cases_view(self.connections@),
            inp_bind_conns: labelled_view(self.inp_bind_conns@),
            out_bind_conns: labelled_view(self.out_bind_conns@),
        }
    }
}

/// Compiles the binds of one side, bind after bind.
pub fn compile_binds(binds: Vec<Bind>, names: &Vec<SlotsOf>, side: SlotSide) -> (out: (
    Vec<Slot>,
    Vec<(String, InvalidConn)>,
))
    requires
        binds_wf(binds_view(binds@)),
        binds_can_compile(binds_view(binds@)),
        names_exec_wf(names@),
        names_wf(names_view(names@), usize::MAX as int),
    ensures
        slots_wf(out.0@),
        slots_view(out.0@) == compiled_slots(binds_view(binds@), names_view(names@), side),
        labelled_view(out.1@) == bind_complaints(
            binds_view(binds@),
            names_view(names@),
            binds.len() as int,
        ),
{
    let ghost all = binds_view(binds@);
    let ghost list = binds@;
    let ghost ns = names_view(names@);
    let n = binds.len();
    let mut rest = reversed(binds);
    let mut slots: Vec<Slot> = Vec::new();
    let mut invalid: Vec<(String, InvalidConn)> = Vec::new();
    let mut i: usize = 0;
    proof {
        assert(labelled_view(invalid@) =~= bind_complaints(all, ns, 0));
    }
    while i < n
        invariant
            i <= n,
            n == list.len(),
            all == binds_view(list),
            ns == names_view(names@),
            binds_wf(all),
            binds_can_compile(all),
            names_exec_wf(names@),
            names_wf(ns, usize::MAX as int),
            rest.len() == n - i,
            forall|j: int| 0 <= j < n - i ==> #[trigger] rest@[j] == list[n - 1 - j],
            slots.len() == i,
            slots_wf(slots@),
            forall|j: int| 0 <= j < i ==> (#[trigger] slots@[j])@ == all[j].compiled(ns, side),
            labelled_view(invalid@) == bind_complaints(all, ns, i as int),
        decreases n - i,
    {
        let ghost rest_before = rest@;
        let ghost slots_before = slots@;
        match rest.pop() {
            Some(bind) => {
                proof {
                    assert(bind == rest_before[n - i - 1]);
                    assert(bind == list[i as int]);
                    assert(all[i as int] == bind@);
                    assert(all[i as int].wf() && all[i as int].can_compile());
                    assert forall|j: int| 0 <= j < n - i - 1 implies #[trigger] rest@[j] == list[n
                        - 1 - j] by {
                        assert(rest@[j] == rest_before[j]);
                    }
                }
                let (slot, complaints) = bind.compile(names, side);
                label_all(&mut invalid, &slot.name, complaints);
                slots.push(slot);
                proof {
                    assert forall|j: int| 0 <= j < i + 1 implies (#[trigger] slots@[j]).wf()
                        && slots@[j]@ == all[j].compiled(ns, side) by {
                        if j < i {
                            assert(slots@[j] == slots_before[j]);
                        }
                    }
                }
            },
            None => {
                proof {
                    assert(false);
                }
            },
        }
        i += 1;
    }
    proof {
        assert(slots_view(slots@) =~= compiled_slots(all, ns, side));
    }
    (slots, invalid)
}

/// Adds the complaints about one bind, each with the name of the bind.
fn label_all(invalid: &mut Vec<(String, InvalidConn)>, name: &String, complaints: Vec<InvalidConn>)
    ensures
        labelled_view(final(invalid)@) == labelled_view(old(invalid)@) + labelled(
            name@,
            complaints_view(complaints@),
        ),
{
    let ghost before = labelled_view(invalid@);
    let ghost added = labelled(name@, complaints_view(complaints@));
    let mut k: usize = 0;
    proof {
        assert(labelled_view(invalid@) =~= before + added.take(0));
    }
    while k < complaints.len()
        invariant
            k <= complaints.len(),
            added == labelled(name@, complaints_view(complaints@)),
            labelled_view(invalid@) == before + added.take(k as int),
        decreases complaints.len() - k,
    {
        let ghost so_far = labelled_view(invalid@);
        invalid.push((name.clone(), complaints[k].clone()));
        k += 1;
        proof {
            assert(added[k - 1] == (name@, complaints@[k - 1]@));
            assert(labelled_view(invalid@) =~= so_far.push(added[k - 1]));
            assert(added.take(k as int) =~= added.take(k - 1).push(added[k - 1]));
            assert(labelled_view(invalid@) =~= before + added.take(k as int));
        }
    }
    proof {
        assert(added.take(k as int) =~= added);
    }
}

/// Follows the connection requests, one after the other, and gives back
/// those one of whose ends does not exist.
pub fn connect_all(
    cases: &Vec<ConnCase>,
    shapes: &mut Vec<(Point, Rot, Shape)>,
    outputs_map: &Vec<SlotsOf>,
    inputs_map: &Vec<SlotsOf>,
) -> (invalid: Vec<ConnCase>)
    requires
        names_exec_wf(outputs_map@),
        names_exec_wf(inputs_map@),
        names_wf(names_view(outputs_map@), old(shapes).len() as int),
        names_wf(names_view(inputs_map@), old(shapes).len() as int),
    ensures
        units_view(final(shapes)@) == connected_all(
            units_view(old(shapes)@),
            cases_view(cases@),
            names_view(outputs_map@),
            names_view(inputs_map@),
        ),
        cases_view(invalid@) == dangling(
            cases_view(cases@),
            names_view(outputs_map@),
            names_view(inputs_map@),
        ),
        grown(units_view(old(shapes)@), units_view(final(shapes)@)),
        bounded(units_view(old(shapes)@), old(shapes).len() as int) ==> bounded(
            units_view(final(shapes)@),
            old(shapes).len() as int,
        ),
{
    let ghost first = units_view(shapes@);
    let ghost all = cases_view(cases@);
    let ghost outs = names_view(outputs_map@);
    let ghost ins = names_view(inputs_map@);
    let n = shapes.len();
    let mut invalid: Vec<ConnCase> = Vec::new();
    let mut i: usize = 0;
    proof {
        assert(all.take(0).len() == 0);
        assert(cases_view(invalid@) =~= dangling(all.take(0), outs, ins));
    }
    while i < cases.len()
        invariant
            i <= cases.len(),
            n == shapes.len(),
            first.len() == n,
            all == cases_view(cases@),
            outs == names_view(outputs_map@),
            ins == names_view(inputs_map@),
            names_exec_wf(outputs_map@),
            names_exec_wf(inputs_map@),
            names_wf(outs, n as int),
            names_wf(ins, n as int),
            units_view(shapes@) == connected_all(first, all.take(i as int), outs, ins),
            cases_view(invalid@) == dangling(all.take(i as int), outs, ins),
            grown(first, units_view(shapes@)),
            bounded(first, n as int) ==> bounded(units_view(shapes@), n as int),
        decreases cases.len() - i,
    {
        let ghost seen = all.take(i + 1);
        let ghost before = units_view(shapes@);
        let ghost invalid_before = cases_view(invalid@);
        proof {
            assert(seen.drop_last() =~= all.take(i as int));
            assert(seen.last() == cases@[i as int]@);
        }
        let conn = &cases[i];
        let slot_from = get_scheme_slot(&conn.from, outputs_map);
        let slot_to = get_scheme_slot(&conn.to, inputs_map);
        match (slot_from, slot_to) {
            (Some(from), Some(to)) => {
                proof {
                    let (e, s) = choose|e: int, s: int|
                        0 <= e < outputs_map.len() && 0 <= s < outputs_map[e].slots.len() && from.0
                            == outputs_map[e].start_shape && *from.1 == #[trigger] outputs_map[e].slots[s];
                    assert(slots_wf(outputs_map@[e].slots@));
                    assert(outs[e] == outputs_map@[e]@);
                    assert(outs[e].slots[s] == outputs_map@[e].slots@[s]@);
                    assert(outs[e].slots[s].within(n - outs[e].start));
                    let (f, t) = choose|f: int, t: int|
                        0 <= f < inputs_map.len() && 0 <= t < inputs_map[f].slots.len() && to.0
                            == inputs_map[f].start_shape && *to.1 == #[trigger] inputs_map[f].slots[t];
                    assert(slots_wf(inputs_map@[f].slots@));
                    assert(ins[f] == inputs_map@[f]@);
                    assert(ins[f].slots[t] == inputs_map@[f].slots@[t]@);
                    assert(ins[f].slots[t].within(n - ins[f].start));
                }
                compile_connection(from, to, &conn.connection, shapes);
                proof {
                    let after = units_view(shapes@);
                    assert(grown(first, after)) by {
                        assert forall|k: int| 0 <= k < first.len() implies (#[trigger] after[k]).pos
                            == first[k].pos && after[k].rot == first[k].rot && after[k].shape.base
                            == first[k].shape.base && after[k].shape.color == first[k].shape.color
                            && after[k].shape.forced == first[k].shape.forced
                            && first[k].shape.conns.len() <= after[k].shape.conns.len() by {
                            assert(before[k].pos == first[k].pos);
                        }
                    }
                }
            },
            _ => {
                invalid.push(conn.clone());
                proof {
                    assert(cases_view(invalid@) =~= invalid_before.push(cases@[i as int]@));
                }
            },
        }
        proof {
            assert(units_view(shapes@) == connected_all(first, seen, outs, ins));
            assert(cases_view(invalid@) == dangling(seen, outs, ins));
        }
        i += 1;
    }
    proof {
        assert(all.take(i as int) =~= all);
    }
    invalid
}

/// Tells for each unit whether it has more connections than the game
/// allows, and whether any has.
pub fn find_overloaded(shapes: &Vec<(Point, Rot, Shape)>) -> (found: (Vec<bool>, bool))
    ensures
        found.0@ == overload_flags(units_view(shapes@)),
        found.1 == any_overloaded(units_view(shapes@)),
{
    let ghost units = units_view(shapes@);
    let mut flags: Vec<bool> = Vec::new();
    let mut any = false;
    let mut i: usize = 0;
    while i < shapes.len()
        invariant
            i <= shapes.len(),
            units == units_view(shapes@),
            flags.len() == i,
            forall|j: int| 0 <= j < i ==> #[trigger] flags@[j] == overloaded(units[j]),
            any == (exists|j: int| 0 <= j < i && overloaded(#[trigger] units[j])),
        decreases shapes.len() - i,
    {
        let over = shapes[i].2.connections().len() > MAX_CONNECTIONS as usize;
        proof {
            assert(units[i as int] == unit_view(shapes@[i as int]));
            assert(over == overloaded(units[i as int]));
        }
        flags.push(over);
        if over {
            any = true;
        }
        i += 1;
    }
    proof {
        assert(flags@ =~= overload_flags(units));
    }
    (flags, any)
}

/// Tells whether a point of the slot names a flagged unit.
fn slot_is_hit(slot: &Slot, start: usize, flags: &Vec<bool>) -> (hit: bool)
    requires
        slot@.within(flags.len() - start),
    ensures
        hit == slot_hits(slot@, start, flags@),
{
    let ghost view = slot@;
    let data = &slot.shape_map.data;
    let mut p: usize = 0;
    while p < data.len()
        invariant
            p <= data.len(),
            view == slot@,
            data@ == slot.shape_map.data@,
            view.within(flags.len() - start),
            forall|a: int, k: int|
                0 <= a < p && 0 <= k < view.points[a].len() ==> !flags@[(#[trigger] view.points[a][k])
                    + start],
        decreases data.len() - p,
    {
        let list = &data[p];
        proof {
            assert(view.points[p as int] == list@);
        }
        let mut k: usize = 0;
        while k < list.len()
            invariant
                k <= list.len(),
                p < data.len(),
                view == slot@,
                view.points[p as int] == list@,
                view.points.len() == data.len(),
                view.within(flags.len() - start),
                forall|b: int| 0 <= b < k ==> !flags@[(#[trigger] view.points[p as int][b]) + start],
            decreases list.len() - k,
        {
            proof {
                assert(view.points[p as int][k as int] < flags.len() - start);
            }
            if flags[start + list[k]] {
                return true;
            }
            k += 1;
        }
        p += 1;
    }
    false
}

/// The paths of the slots that lead to a flagged unit.
pub fn check_affected_slots(ovf_shapes: &Vec<bool>, slots_map: &Vec<SlotsOf>) -> (paths: Vec<String>)
    requires
        names_wf(names_view(slots_map@), ovf_shapes.len() as int),
    ensures
        strings_view(paths@) == affected(
            names_view(slots_map@),
            ovf_shapes@,
            slots_map.len() as int,
        ),
{
    let ghost names = names_view(slots_map@);
    let mut paths: Vec<String> = Vec::new();
    let mut e: usize = 0;
    proof {
        assert(strings_view(paths@) =~= affected(names, ovf_shapes@, 0));
    }
    while e < slots_map.len()
        invariant
            e <= slots_map.len(),
            names == names_view(slots_map@),
            names_wf(names, ovf_shapes.len() as int),
            strings_view(paths@) == affected(names, ovf_shapes@, e as int),
        decreases slots_map.len() - e,
    {
        let entry = &slots_map[e];
        let ghost done = strings_view(paths@);
        proof {
            assert(names[e as int] == entry@);
            assert(strings_view(paths@) =~= done + affected_slots(entry@, ovf_shapes@, 0));
        }
        let mut s: usize = 0;
        while s < entry.slots.len()
            invariant
                s <= entry.slots.len(),
                e < slots_map.len(),
                names == names_view(slots_map@),
                names[e as int] == entry@,
                names_wf(names, ovf_shapes.len() as int),
                strings_view(paths@) == done + affected_slots(entry@, ovf_shapes@, s as int),
            decreases entry.slots.len() - s,
        {
            let ghost before = strings_view(paths@);
            proof {
                assert(entry@.slots[s as int] == entry.slots@[s as int]@);
                assert(names[e as int].slots[s as int].within(
                    ovf_shapes.len() - names[e as int].start,
                ));
            }
            if slot_is_hit(&entry.slots[s], entry.start_shape, ovf_shapes) {
                let mut path = entry.scheme.clone();
                path.append(PATH_SEPARATOR);
                path.append(entry.slots[s].name.as_str());
                paths.push(path);
                proof {
                    assert(strings_view(paths@) =~= before.push(
                        slot_path(entry@.scheme, entry@.slots[s as int].name),
                    ));
                }
            }
            s += 1;
            proof {
                assert(strings_view(paths@) =~= done + affected_slots(entry@, ovf_shapes@, s as int));
            }
        }
        e += 1;
    }
    paths
}


/// The slots that binds compile to are within the flat list, if the
/// namespace is.
pub proof fn lemma_compiled_slots_within(
    binds: Seq<BindView>,
    names: Seq<SlotsOfView>,
    side: SlotSide,
    slots: Seq<SlotView>,
    total: int,
)
    requires
        slots == compiled_slots(binds, names, side),
        forall|i: int| 0 <= i < slots.len() ==> (#[trigger] slots[i]).wf(),
        names_wf(names, total),
    ensures
        slots_within(slots, total),
{
    assert forall|i: int| 0 <= i < slots.len() implies (#[trigger] slots[i]).wf() && slots[i].within(
        total,
    ) by {
        assert(slots[i] == binds[i].compiled(names, side));
        assert(0 <= crate::util::map3d::cells(
            binds[i].size.x as int,
            binds[i].size.y as int,
            binds[i].size.z as int,
        )) by (nonlinear_arith)
            requires
                0 <= binds[i].size.x as int,
                0 <= binds[i].size.y as int,
                0 <= binds[i].size.z as int,
                crate::util::map3d::cells(
                    binds[i].size.x as int,
                    binds[i].size.y as int,
                    binds[i].size.z as int,
                ) == binds[i].size.x as int * binds[i].size.y as int * binds[i].size.z as int,
        ;
        lemma_compiled_within(binds[i], names, side, total);
    }
}

/// The views of well-formed slots are well-formed.
pub proof fn lemma_slots_wf_views(slots: Seq<Slot>)
    requires
        slots_wf(slots),
    ensures
        forall|i: int| 0 <= i < slots.len() ==> (#[trigger] slots_view(slots)[i]).wf(),
{
    assert forall|i: int| 0 <= i < slots.len() implies (#[trigger] slots_view(slots)[i]).wf() by {
        assert(slots[i].wf());
    }
}

/// The schemes that the positioner gave back are the schemes of the
/// combiner with their places.
pub proof fn lemma_placed<P: Positioner>(
    view: CombinerView<P>,
    schemes: Seq<(String, Scheme)>,
    list: Seq<(String, (Point, Rot, Scheme))>,
)
    requires
        view.schemes == named_view(schemes),
        schemes_wf(schemes),
        list.len() == schemes.len(),
        forall|i: int|
            0 <= i < list.len() ==> (#[trigger] list[i]).0@ == schemes[i].0@ && list[i].1.2@
                == schemes[i].1@ && list[i].1.2.wf() && list[i].1.1.valid() && Some(
                (list[i].1.0, list[i].1.1),
            ) == view.positioner.placement(named_view(schemes), i),
    ensures
        placed_view(list) == view.placed(),
        placed_wf(placed_view(list)),
        view.all_placed(),
{
    assert(placed_view(list) =~= view.placed()) by {
        assert forall|i: int| 0 <= i < list.len() implies placed_view(list)[i] == view.placed()[i] by {
            assert(list[i].0@ == schemes[i].0@);
        }
    }
    assert forall|i: int| 0 <= i < list.len() implies (#[trigger] placed_view(list)[i]).scheme.wf()
        && placed_view(list)[i].rot.valid() by {
        assert(list[i].1.2.wf());
    }
    assert forall|i: int| 0 <= i < view.schemes.len() implies view.positioner.placement(
        view.schemes,
        i,
    ) is Some by {
        assert(list[i].1.1.valid());
    }
}

impl<P: Positioner> CombinerView<P> {
    /// `out` is what compiling the combiner gives: the error of the
    /// positioner if it leaves a scheme without a place; else the slots
    /// that lead to an overloaded unit, if there is one and this is not
    /// allowed; else the compiled scheme with the report of what was left
    /// out. The compiled scheme holds the units of all the schemes, as
    /// many as they have together: each at its place, with the connections
    /// that it had and those that the requests gave it.
    pub open spec fn compiles_to(
        self,
        out: Result<(Scheme, InvalidActs), CompileError<P::Error>>,
    ) -> bool {
        match out {
            Err(CompileError::PositionerError(error)) => !self.all_placed()
                && self.positioner.reports(self.schemes, error),
            Err(CompileError::ConnectionsOverflow { affected_inputs, affected_outputs, tip }) => {
                &&& self.all_placed()
                &&& self.overflows()
                &&& strings_view(affected_inputs@) == affected(
                    self.names(SlotSide::Input),
                    overload_flags(self.units()),
                    self.schemes.len() as int,
                )
                &&& strings_view(affected_outputs@) == affected(
                    self.names(SlotSide::Output),
                    overload_flags(self.units()),
                    self.schemes.len() as int,
                )
                &&& tip@ == overflow_tip(self.debug_name)
            },
            Ok((scheme, acts)) => {
                &&& self.all_placed()
                &&& !self.overflows()
                &&& scheme.wf()
                &&& scheme@ == self.scheme()
                &&& scheme@.units.len() == units_before(self.placed(), self.schemes.len() as int)
                &&& grown(self.flat(), scheme@.units)
                &&& acts@ == (InvalidActsView {
                    connections: dangling(
                        self.connections,
                        self.names(SlotSide::Output),
                        self.names(SlotSide::Input),
                    ),
                    inp_bind_conns: bind_complaints(
                        self.inputs,
                        self.names(SlotSide::Input),
                        self.inputs.len() as int,
                    ),
                    out_bind_conns: bind_complaints(
                        self.outputs,
                        self.names(SlotSide::Output),
                        self.outputs.len() as int,
                    ),
                })
            },
        }
    }
}

/// Puts the placed schemes of the combiner `whole` together, compiles its
/// binds and follows its connection requests.
fn compile_placed<P: Positioner>(
    Ghost(whole): Ghost<Combiner<P>>,
    placed: Vec<(String, (Point, Rot, Scheme))>,
    connections: Vec<ConnCase>,
    inputs: Vec<Bind>,
    outputs: Vec<Bind>,
    conns_overflow_allowed: bool,
    debug_name: Option<String>,
) -> (out: Result<(Scheme, InvalidActs), CompileError<P::Error>>)
    requires
        whole.wf(),
        whole@.can_compile(),
        whole@.all_placed(),
        placed_view(placed@) == whole@.placed(),
        placed_wf(placed_view(placed@)),
        forall|i: int| 0 <= i < placed.len() ==> (#[trigger] placed[i]).1.2.wf(),
        connections == whole.connections,
        inputs == whole.inputs,
        outputs == whole.outputs,
        conns_overflow_allowed == whole.conns_overflow_allowed,
        debug_name == whole.debug_name,
    ensures
        whole@.compiles_to(out),
{
    let ghost view = whole@;
    let ghost all = placed_view(placed@);
    let ghost ins = view.names(SlotSide::Input);
    let ghost outs = view.names(SlotSide::Output);
    // Combining all schemes into new one
    let (mut shapes, inputs_map, outputs_map) = flatten(placed);
    let ghost flat = units_view(shapes@);
    let ghost total = shapes.len() as int;
    proof {
        lemma_namespace_wf(all, SlotSide::Input);
        lemma_namespace_wf(all, SlotSide::Output);
        lemma_names_wf_grows(ins, total, usize::MAX as int);
        lemma_names_wf_grows(outs, total, usize::MAX as int);
        lemma_flat_wired(all, all.len() as int);
        lemma_flat_len(all, all.len() as int);
        assert(bounded(flat, total));
    }
    // Compiling binds
    let (in_slots, in_invalid) = compile_binds(inputs, &inputs_map, SlotSide::Input);
    let (out_slots, out_invalid) = compile_binds(outputs, &outputs_map, SlotSide::Output);
    // Compiling all the connections
    let invalid = connect_all(&connections, &mut shapes, &outputs_map, &inputs_map);
    let ghost units = units_view(shapes@);
    proof {
        assert(units == view.units());
        crate::combiner::wiring::lemma_grown_fits(flat, units);
    }
    if !conns_overflow_allowed {
        // Check if some shape contains too many connections
        let (ovf_shapes, any) = find_overloaded(&shapes);
        if any {
            let mut tip = match &debug_name {
                None => String::new(),
                Some(name) => {
                    let mut head = TIP_OVERFLOW_HEAD.to_owned();
                    head.append(name.as_str());
                    head.append(TIP_OVERFLOW_MIDDLE);
                    head
                },
            };
            tip.append(TIP_OVERFLOW);
            proof {
                assert(tip@ =~= overflow_tip(view.debug_name));
            }
            return Err(
                CompileError::ConnectionsOverflow {
                    affected_inputs: check_affected_slots(&ovf_shapes, &inputs_map),
                    affected_outputs: check_affected_slots(&ovf_shapes, &outputs_map),
                    tip,
                },
            );
        }
    }
    proof {
        lemma_slots_wf_views(in_slots@);
        lemma_slots_wf_views(out_slots@);
        lemma_compiled_slots_within(
            view.inputs,
            ins,
            SlotSide::Input,
            slots_view(in_slots@),
            total,
        );
        lemma_compiled_slots_within(
            view.outputs,
            outs,
            SlotSide::Output,
            slots_view(out_slots@),
            total,
        );
        assert(units_wired(units));
    }
    let scheme = Scheme::create(shapes, in_slots, out_slots);
    Ok(
        (
            scheme,
            InvalidActs { connections: invalid, inp_bind_conns: in_invalid, out_bind_conns: out_invalid },
        ),
    )
}

impl<P: Positioner> Combiner<P> {
    /// Compiles the [`Combiner`] to a [`Scheme`], and lists of all of
    /// invalid actions performed - invalid connections, invalid inputs
    /// and outputs.
    ///
    /// Fails if the positioner leaves a scheme without a place, or if a
    /// unit would have more connections than the game allows and this was
    /// not allowed. Paths that lead nowhere do not make it fail: what names
    /// them is left out and reported.
    pub fn compile(self) -> (out: Result<(Scheme, InvalidActs), CompileError<P::Error>>)
        requires
            self.wf(),
            self@.can_compile(),
        ensures
            self@.compiles_to(out),
    {
        let ghost whole = self;
        let ghost named = self.schemes@;
        let Combiner {
            schemes,
            last_scheme: _,
            connections,
            positioner,
            inputs,
            outputs,
            conns_overflow_allowed,
            debug_name,
        } = self;
        // Placing schemes
        let placed = match positioner.arrange(schemes) {
            Ok(list) => list,
            Err(error) => {
                return Err(CompileError::PositionerError(error));
            },
        };
        proof {
            lemma_placed(whole@, named, placed@);
        }
        compile_placed::<P>(
            Ghost(whole),
            placed,
            connections,
            inputs,
            outputs,
            conns_overflow_allowed,
            debug_name,
        )
    }

    /// Compiles the combiner if nothing overflows on the way: if the units
    /// can be counted, every scheme can be moved to the place that the
    /// positioner gives it, and every point map can be held in memory.
    /// Returns nothing otherwise.
    pub fn try_compile(self) -> (out: Option<Result<(Scheme, InvalidActs), CompileError<P::Error>>>)
        requires
            self.wf(),
        ensures
            out is Some <==> self@.can_compile(),
            out matches Some(compiled) ==> self@.compiles_to(compiled),
    {
        let ghost whole = self;
        let ghost named = self.schemes@;
        let Combiner {
            schemes,
            last_scheme: _,
            connections,
            positioner,
            inputs,
            outputs,
            conns_overflow_allowed,
            debug_name,
        } = self;
        let placed = match positioner.arrange(schemes) {
            Ok(list) => list,
            Err(error) => {
                return Some(Err(CompileError::PositionerError(error)));
            },
        };
        proof {
            lemma_placed(whole@, named, placed@);
        }
        if !placed_can_be_compiled(&placed) || !binds_can_be_compiled(&inputs)
            || !binds_can_be_compiled(&outputs) {
            return None;
        }
        Some(
            compile_placed::<P>(
                Ghost(whole),
                placed,
                connections,
                inputs,
                outputs,
                conns_overflow_allowed,
                debug_name,
            ),
        )
    }
}

} // verus!
