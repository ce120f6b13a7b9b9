//! Flattening: the units of all placed schemes in one list, and the slots
//! of the schemes with the place of their units in that list.

use vstd::prelude::*;
use vstd::string::*;
use crate::bind::{names_exec_wf, names_view, names_wf, SlotsOf, SlotsOfView};
use crate::combiner::SlotSide;
use crate::scheme::{
    slots_view, slots_wf, unit_view, units_fit, units_view, units_wired, Scheme, SchemeView, UnitView,
};
use crate::shape::Shape;
use crate::slot::{Slot, SlotView};
use crate::util::{reversed, Point, Rot};

verus! {

/// A scheme with its name and the place that the positioner gave it.
pub struct Placed {
    pub name: Seq<char>,
    pub pos: Point,
    pub rot: Rot,
    pub scheme: SchemeView,
}

/// The views of a list of placed schemes.
pub open spec fn placed_view(list: Seq<(String, (Point, Rot, Scheme))>) -> Seq<Placed> {
    Seq::new(
        list.len(),
        |i: int| Placed { name: list[i].0@, pos: list[i].1.0, rot: list[i].1.1, scheme: list[i].1.2@ },
    )
}

/// The number of units of the first `i` schemes.
pub open spec fn units_before(placed: Seq<Placed>, i: int) -> int
    decreases i,
{
    if i <= 0 {
        0
    } else {
        units_before(placed, i - 1) + placed[i - 1].scheme.units.len()
    }
}

/// The units of the scheme at place `i`, as they stand in the flat list.
#[verifier::opaque]
pub open spec fn units_of(placed: Seq<Placed>, i: int) -> Seq<UnitView> {
    placed[i].scheme.relocated_units(units_before(placed, i) as usize, placed[i].pos, placed[i].rot)
}

/// The units of the first `k` schemes, scheme after scheme: each unit at
/// its new place, and connected to the new places of the units that it was
/// connected to.
pub open spec fn flat_units(placed: Seq<Placed>, k: int) -> Seq<UnitView>
    decreases k,
{
    if k <= 0 {
        Seq::empty()
    } else {
        flat_units(placed, k - 1) + units_of(placed, k - 1)
    }
}

/// The slots of one side of a scheme.
pub open spec fn side_slots(scheme: SchemeView, side: SlotSide) -> Seq<SlotView> {
    match side {
        SlotSide::Input => scheme.inputs,
        SlotSide::Output => scheme.outputs,
    }
}

/// The slots of one side of all the schemes, each scheme with the number
/// of units that stand before its own.
pub open spec fn namespace(placed: Seq<Placed>, side: SlotSide) -> Seq<SlotsOfView> {
    Seq::new(
        placed.len(),
        |i: int|
            SlotsOfView {
                scheme: placed[i].name,
                start: units_before(placed, i) as usize,
                slots: side_slots(placed[i].scheme, side),
            },
    )
}

/// The entry of the scheme at place `i` in the namespace of a side.
pub open spec fn entry_of(placed: Seq<Placed>, side: SlotSide, i: int) -> SlotsOfView {
    SlotsOfView {
        scheme: placed[i].name,
        start: units_before(placed, i) as usize,
        slots: side_slots(placed[i].scheme, side),
    }
}

/// Every scheme can be relocated to its place in the flat list.
pub open spec fn can_flatten(placed: Seq<Placed>) -> bool {
    forall|i: int|
        0 <= i < placed.len() ==> (#[trigger] placed[i]).scheme.can_relocate(
            units_before(placed, i) as usize,
            placed[i].pos,
            placed[i].rot,
        )
}

/// Every scheme is well-formed.
pub open spec fn placed_wf(placed: Seq<Placed>) -> bool {
    forall|i: int| 0 <= i < placed.len() ==> (#[trigger] placed[i]).scheme.wf() && placed[i].rot.valid()
}

/// What `units_of` stands for.
pub proof fn lemma_units_of(placed: Seq<Placed>, i: int)
    ensures
        units_of(placed, i) == placed[i].scheme.relocated_units(
            units_before(placed, i) as usize,
            placed[i].pos,
            placed[i].rot,
        ),
        units_of(placed, i).len() == placed[i].scheme.units.len(),
{
    reveal(units_of);
}

/// The number of units grows with the number of schemes.
pub proof fn lemma_units_before_grows(placed: Seq<Placed>, i: int, j: int)
    requires
        0 <= i <= j,
    ensures
        0 <= units_before(placed, i) <= units_before(placed, j),
    decreases j,
{
    if i < j {
        lemma_units_before_grows(placed, i, j - 1);
    } else if i > 0 {
        lemma_units_before_grows(placed, i - 1, i - 1);
    }
}

/// The flat list of the first `k` schemes holds all their units.
pub proof fn lemma_flat_len(placed: Seq<Placed>, k: int)
    requires
        0 <= k,
    ensures
        flat_units(placed, k).len() == units_before(placed, k),
    decreases k,
{
    if k > 0 {
        lemma_flat_len(placed, k - 1);
        lemma_units_of(placed, k - 1);
    }
}

/// The unit at place `u` of the scheme at place `i` stands at place
/// `units_before(placed, i) + u` of the flat list.
pub proof fn lemma_flat_index(placed: Seq<Placed>, k: int, i: int, u: int)
    requires
        0 <= i < k,
        0 <= u < placed[i].scheme.units.len(),
    ensures
        units_before(placed, i) + u < units_before(placed, k),
        flat_units(placed, k)[units_before(placed, i) + u] == units_of(placed, i)[u],
    decreases k,
{
    lemma_flat_len(placed, k - 1);
    lemma_units_of(placed, k - 1);
    let head = flat_units(placed, k - 1);
    let last = units_of(placed, k - 1);
    assert(flat_units(placed, k) == head + last);
    lemma_units_before_grows(placed, 0, i);
    if i < k - 1 {
        lemma_flat_index(placed, k - 1, i, u);
        assert((head + last)[units_before(placed, i) + u] == head[units_before(placed, i) + u]);
    } else {
        assert((head + last)[head.len() + u] == last[u]);
    }
}

/// In the flat list every unit is connected to units of the list only.
pub proof fn lemma_flat_wired(placed: Seq<Placed>, k: int)
    requires
        0 <= k <= placed.len(),
        placed_wf(placed),
        units_before(placed, k) <= usize::MAX,
    ensures
        forall|i: int|
            0 <= i < flat_units(placed, k).len() ==> (#[trigger] flat_units(placed, k)[i]).wired_within(
                units_before(placed, k),
            ),
    decreases k,
{
    if k > 0 {
        let head = flat_units(placed, k - 1);
        let last = units_of(placed, k - 1);
        let start = units_before(placed, k - 1);
        lemma_units_before_grows(placed, k - 1, k);
        lemma_flat_wired(placed, k - 1);
        lemma_flat_len(placed, k - 1);
        lemma_units_of(placed, k - 1);
        let scheme = placed[k - 1].scheme;
        assert(scheme.wf());
        assert forall|i: int| 0 <= i < flat_units(placed, k).len() implies (#[trigger] flat_units(
            placed,
            k,
        )[i]).wired_within(units_before(placed, k)) by {
            if i < head.len() {
                assert(head[i].wired_within(start));
            } else {
                let u = i - head.len();
                assert(scheme.units[u].wired_within(scheme.units.len() as int));
                let unit = last[u];
                assert forall|c: int| 0 <= c < unit.shape.conns.len() implies #[trigger] unit.shape.conns[c]
                    < units_before(placed, k) by {
                    assert(scheme.units[u].shape.conns[c] < scheme.units.len());
                }
            }
        }
    }
}

/// The namespace of either side is well-formed against the whole flat
/// list.
pub proof fn lemma_namespace_wf(placed: Seq<Placed>, side: SlotSide)
    requires
        placed_wf(placed),
        units_before(placed, placed.len() as int) <= usize::MAX,
    ensures
        names_wf(namespace(placed, side), units_before(placed, placed.len() as int)),
{
    let names = namespace(placed, side);
    let total = units_before(placed, placed.len() as int);
    assert forall|e: int, s: int| 0 <= e < names.len() && 0 <= s < names[e].slots.len() implies (
    #[trigger] names[e].slots[s]).wf() && names[e].slots[s].within(total - names[e].start) by {
        let scheme = placed[e].scheme;
        assert(scheme.wf());
        lemma_units_before_grows(placed, e, e + 1);
        lemma_units_before_grows(placed, e + 1, placed.len() as int);
        lemma_units_before_grows(placed, 0, e);
        let slot = names[e].slots[s];
        match side {
            SlotSide::Input => {
                assert(scheme.inputs[s].wf() && scheme.inputs[s].within(scheme.units.len() as int));
            },
            SlotSide::Output => {
                assert(scheme.outputs[s].wf() && scheme.outputs[s].within(
                    scheme.units.len() as int,
                ));
            },
        }
        assert forall|i: int, k: int|
            0 <= i < slot.points.len() && 0 <= k < slot.points[i].len() implies (
        #[trigger] slot.points[i][k]) < total - names[e].start by {
            assert(slot.points[i][k] < scheme.units.len());
        }
    }
}

/// Adds the units of one placed scheme to the flat list, and gives the
/// slots of its two sides.
fn add_scheme(
    shapes: &mut Vec<(Point, Rot, Shape)>,
    item: (String, (Point, Rot, Scheme)),
    start_shape: usize,
) -> (sides: (SlotsOf, SlotsOf))
    requires
        item.1.2.wf(),
        item.1.2@.can_relocate(start_shape, item.1.0, item.1.1),
    ensures
        units_view(final(shapes)@) == units_view(old(shapes)@) + item.1.2@.relocated_units(
            start_shape,
            item.1.0,
            item.1.1,
        ),
        sides.0@ == (SlotsOfView {
            scheme: item.0@,
            start: start_shape,
            slots: item.1.2@.inputs,
        }),
        sides.1@ == (SlotsOfView {
            scheme: item.0@,
            start: start_shape,
            slots: item.1.2@.outputs,
        }),
        slots_wf(sides.0.slots@),
        slots_wf(sides.1.slots@),
{
    let ghost before = units_view(shapes@);
    let (name, (pos, rot, scheme)) = item;
    let (mut scheme_shapes, scheme_inps, scheme_outps) = scheme.disassemble(start_shape, pos, rot);
    let ghost added = units_view(scheme_shapes@);
    let ins = SlotsOf { scheme: name.clone(), start_shape, slots: scheme_inps };
    let outs = SlotsOf { scheme: name, start_shape, slots: scheme_outps };
    shapes.append(&mut scheme_shapes);
    proof {
        assert(units_view(shapes@) =~= before + added);
    }
    (ins, outs)
}

/// Everything that flattening needs of the placed schemes.
#[verifier::opaque]
pub open spec fn ready(list: Seq<(String, (Point, Rot, Scheme))>) -> bool {
    &&& forall|i: int| 0 <= i < list.len() ==> (#[trigger] list[i]).1.2.wf()
    &&& placed_wf(placed_view(list))
    &&& can_flatten(placed_view(list))
}

/// What `ready` says of the scheme at place `i`.
pub proof fn lemma_ready(list: Seq<(String, (Point, Rot, Scheme))>, i: int)
    requires
        ready(list),
        0 <= i < list.len(),
    ensures
        list[i].1.2.wf(),
        list[i].1.2@.can_relocate(
            units_before(placed_view(list), i) as usize,
            list[i].1.0,
            list[i].1.1,
        ),
        units_of(placed_view(list), i) == list[i].1.2@.relocated_units(
            units_before(placed_view(list), i) as usize,
            list[i].1.0,
            list[i].1.1,
        ),
        units_of(placed_view(list), i).len() == list[i].1.2@.units.len(),
        units_before(placed_view(list), i + 1) == units_before(placed_view(list), i)
            + list[i].1.2@.units.len(),
        flat_units(placed_view(list), i + 1) == flat_units(placed_view(list), i) + units_of(
            placed_view(list),
            i,
        ),
        entry_of(placed_view(list), SlotSide::Input, i) == (SlotsOfView {
            scheme: list[i].0@,
            start: units_before(placed_view(list), i) as usize,
            slots: list[i].1.2@.inputs,
        }),
        entry_of(placed_view(list), SlotSide::Output, i) == (SlotsOfView {
            scheme: list[i].0@,
            start: units_before(placed_view(list), i) as usize,
            slots: list[i].1.2@.outputs,
        }),
{
    reveal(ready);
    let all = placed_view(list);
    assert(all[i] == (Placed {
        name: list[i].0@,
        pos: list[i].1.0,
        rot: list[i].1.1,
        scheme: list[i].1.2@,
    }));
    assert(all[i].scheme.can_relocate(units_before(all, i) as usize, all[i].pos, all[i].rot));
    lemma_units_of(all, i);
}

/// Puts the units of all the placed schemes into one list, scheme after
/// scheme, and lists the input slots and the output slots of each scheme
/// with the number of units that stand before its own.
pub fn flatten(placed: Vec<(String, (Point, Rot, Scheme))>) -> (flat: (
    Vec<(Point, Rot, Shape)>,
    Vec<SlotsOf>,
    Vec<SlotsOf>,
))
    requires
        forall|i: int| 0 <= i < placed.len() ==> (#[trigger] placed[i]).1.2.wf(),
        placed_wf(placed_view(placed@)),
        can_flatten(placed_view(placed@)),
    ensures
        units_view(flat.0@) == flat_units(placed_view(placed@), placed.len() as int),
        flat.0.len() == units_before(placed_view(placed@), placed.len() as int),
        names_view(flat.1@) == namespace(placed_view(placed@), SlotSide::Input),
        names_view(flat.2@) == namespace(placed_view(placed@), SlotSide::Output),
        names_exec_wf(flat.1@),
        names_exec_wf(flat.2@),
{
    let ghost all = placed_view(placed@);
    let ghost list = placed@;
    let n = placed.len();
    proof {
        reveal(ready);
        assert(ready(list));
    }
    let mut rest = reversed(placed);
    let mut shapes: Vec<(Point, Rot, Shape)> = Vec::new();
    let mut inputs_map: Vec<SlotsOf> = Vec::new();
    let mut outputs_map: Vec<SlotsOf> = Vec::new();
    let mut i: usize = 0;
    proof {
        assert(units_view(shapes@) =~= flat_units(all, 0));
    }
    while i < n
        invariant
            i <= n,
            n == list.len(),
            all == placed_view(list),
            rest.len() == n - i,
            forall|j: int| 0 <= j < n - i ==> #[trigger] rest@[j] == list[n - 1 - j],
            ready(list),
            units_view(shapes@) == flat_units(all, i as int),
            shapes.len() == units_before(all, i as int),
            inputs_map.len() == i,
            outputs_map.len() == i,
            forall|j: int|
                0 <= j < i ==> (#[trigger] inputs_map@[j])@ == entry_of(all, SlotSide::Input, j)
                    && slots_wf(inputs_map@[j].slots@),
            forall|j: int|
                0 <= j < i ==> (#[trigger] outputs_map@[j])@ == entry_of(all, SlotSide::Output, j)
                    && slots_wf(outputs_map@[j].slots@),
        decreases n - i,
    {
        let ghost before = units_view(shapes@);
        let ghost ins_before = inputs_map@;
        let ghost outs_before = outputs_map@;
        let ghost rest_before = rest@;
        match rest.pop() {
            Some(item) => {
                proof {
                    assert(item == rest_before[n - i - 1]);
                    assert(item == list[i as int]);
                    lemma_ready(list, i as int);
                    assert forall|j: int| 0 <= j < n - i - 1 implies #[trigger] rest@[j] == list[n
                        - 1 - j] by {
                        assert(rest@[j] == rest_before[j]);
                    }
                }
                let start_shape = shapes.len();
                let (ins, outs) = add_scheme(&mut shapes, item, start_shape);
                proof {
                    assert(units_view(shapes@) == before + units_of(all, i as int));
                    assert(units_view(shapes@).len() == shapes.len());
                    assert(before.len() == units_before(all, i as int));
                    assert(shapes.len() == units_before(all, i + 1));
                }
                inputs_map.push(ins);
                outputs_map.push(outs);
                proof {
                    assert forall|j: int| 0 <= j < i + 1 implies (#[trigger] inputs_map@[j])@
                        == entry_of(all, SlotSide::Input, j) && slots_wf(inputs_map@[j].slots@) by {
                        if j < i {
                            assert(inputs_map@[j] == ins_before[j]);
                        }
                    }
                    assert forall|j: int| 0 <= j < i + 1 implies (#[trigger] outputs_map@[j])@
                        == entry_of(all, SlotSide::Output, j) && slots_wf(outputs_map@[j].slots@) by {
                        if j < i {
                            assert(outputs_map@[j] == outs_before[j]);
                        }
                    }
                }
            },
            None => {
                proof {
                    assert(false);
                }
            },
        }
        i += 1;
    }
    proof {
        assert(names_view(inputs_map@) =~= namespace(all, SlotSide::Input));
        assert(names_view(outputs_map@) =~= namespace(all, SlotSide::Output));
    }
    (shapes, inputs_map, outputs_map)
}

} // verus!
