//! Taking units out of a scheme, and putting plain blocks in their place.

use vstd::prelude::*;
use crate::scheme::{
    bounds_of, lows, highs, size_of, slots_view, slots_wf, slots_within, unit_view, units_fit,
    units_view, units_wired, Scheme, SchemeView, UnitView,
};
use crate::shape::vanilla::{BlockBody, BlockType};
use crate::shape::{Shape, ShapeBase, ShapeView};
use crate::slot::{can_renumber, renumber, renumbered, Slot, SlotView};
use crate::util::{Point, Rot};

verus! {

/// An index of a unit after the unit `id` has left: what `renumbered` does
/// to each index that it keeps.
pub open spec fn moved_index(index: usize, id: usize, offset: int) -> usize {
    if index > id {
        (index + offset) as usize
    } else {
        index
    }
}

/// The indices of `list` but for `id`, in order, each moved by `offset`
/// if it is above `id`.
pub open spec fn moved_others(list: Seq<usize>, id: usize, offset: int) -> Seq<usize> {
    list.filter(other_than(id)).map_values(mover(id, offset))
}

/// Tells the indices other than `id`.
pub open spec fn other_than(id: usize) -> spec_fn(usize) -> bool {
    |index: usize| index != id
}

/// Moves the indices above `id` by `offset`.
pub open spec fn mover(id: usize, offset: int) -> spec_fn(usize) -> usize {
    |index: usize| moved_index(index, id, offset)
}

/// Renumbering drops every index equal to `id`, moves every index above
/// `id` by `offset`, leaves every index below `id` as it is, and keeps the
/// order of what it keeps.
pub proof fn lemma_renumbered(list: Seq<usize>, id: usize, offset: int)
    ensures
        renumbered(list, id, offset) == moved_others(list, id, offset),
    decreases list.len(),
{
    let keep = other_than(id);
    let moved = mover(id, offset);
    reveal(Seq::filter);
    if list.len() == 0 {
        assert(list.filter(keep).map_values(moved) =~= Seq::<usize>::empty());
    } else {
        lemma_renumbered(list.drop_last(), id, offset);
        let head = list.drop_last().filter(keep);
        assert(moved_others(list.drop_last(), id, offset) == head.map_values(moved));
        if list.last() != id {
            assert(list.filter(keep) == head.push(list.last()));
            assert(head.push(list.last()).map_values(moved) =~= head.map_values(moved).push(
                moved(list.last()),
            ));
        } else {
            assert(list.filter(keep) == head);
        }
        assert(moved_others(list, id, offset) == list.filter(keep).map_values(moved));
    }
}

/// After the unit `id` has left, no index of the list names it, as long as
/// indices move down by one.
pub proof fn lemma_renumbered_within(list: Seq<usize>, id: usize, offset: int, count: int)
    requires
        -1 <= offset <= 0,
        forall|k: int| 0 <= k < list.len() ==> #[trigger] list[k] < count,
        id < count,
    ensures
        forall|k: int|
            0 <= k < renumbered(list, id, offset).len() ==> #[trigger] renumbered(
                list,
                id,
                offset,
            )[k] < count + offset,
        offset == 0 ==> forall|k: int|
            0 <= k < renumbered(list, id, offset).len() ==> #[trigger] renumbered(
                list,
                id,
                offset,
            )[k] != id,
    decreases list.len(),
{
    if list.len() > 0 {
        assert forall|k: int| 0 <= k < list.drop_last().len() implies #[trigger] list.drop_last()[k]
            < count by {
            assert(list.drop_last()[k] == list[k]);
        }
        lemma_renumbered_within(list.drop_last(), id, offset, count);
        assert(list[list.len() - 1] < count);
        let rest = renumbered(list.drop_last(), id, offset);
        let all = renumbered(list, id, offset);
        let last = list.last();
        assert forall|k: int| 0 <= k < all.len() implies #[trigger] all[k] < count + offset && (
        offset == 0 ==> all[k] != id) by {
            if k < rest.len() {
                assert(all[k] == rest[k]);
            } else {
                assert(last != id);
                if last > id {
                    assert(all[k] == (last + offset) as usize);
                } else {
                    assert(all[k] == last);
                }
            }
        }
    }
}

impl UnitView {
    /// The unit after the unit `id` has left the scheme.
    pub open spec fn without(self, id: usize, offset: int) -> UnitView {
        UnitView {
            shape: ShapeView { conns: renumbered(self.shape.conns, id, offset), ..self.shape },
            ..self
        }
    }
}

/// The slots after the unit `id` has left the scheme.
pub open spec fn slots_without(slots: Seq<SlotView>, id: usize, offset: int) -> Seq<SlotView> {
    Seq::new(slots.len(), |i: int| slots[i].without(id, offset))
}

/// The units after the connections to the unit `id` were taken away.
pub open spec fn units_without(units: Seq<UnitView>, id: usize, offset: int) -> Seq<UnitView> {
    Seq::new(units.len(), |i: int| units[i].without(id, offset))
}

impl SchemeView {
    /// The scheme after every connection to the unit `id` was taken away,
    /// from units and from slots, and the indices above `id` were moved
    /// by `offset`.
    pub open spec fn unplugged(self, id: usize, offset: int) -> SchemeView {
        SchemeView {
            units: units_without(self.units, id, offset),
            inputs: slots_without(self.inputs, id, offset),
            outputs: slots_without(self.outputs, id, offset),
            bounds: self.bounds,
        }
    }

    /// The scheme without the unit `id`, with the size that it had before.
    /// The units behind `id` move up by one place, and every connection and
    /// every slot follows them.
    pub open spec fn cut(self, id: usize) -> SchemeView {
        if id >= self.units.len() {
            self
        } else {
            (SchemeView { units: self.units.remove(id as int), ..self }).unplugged(id, -1)
        }
    }

    /// The scheme without the unit `id`.
    pub open spec fn removed(self, id: usize) -> SchemeView {
        SchemeView { bounds: size_of(self.cut(id).units), ..self.cut(id) }
    }

    /// The scheme with a plain block in the place of the unit `id`. The
    /// block has the size, the colour and the mark of the unit, and nothing
    /// is connected to it any more.
    pub open spec fn replaced(self, id: usize, with: BlockType) -> SchemeView {
        if id >= self.units.len() {
            self
        } else {
            let cleared = self.unplugged(id, 0);
            let old = cleared.units[id as int];
            SchemeView {
                units: cleared.units.update(
                    id as int,
                    UnitView {
                        shape: ShapeView {
                            base: ShapeBase::Block(
                                BlockBody { block_type: with, size: old.shape.base.size_of() },
                            ),
                            conns: Seq::empty(),
                            color: old.shape.color,
                            forced: old.shape.forced,
                        },
                        ..old
                    },
                ),
                ..cleared
            }
        }
    }

    /// Everything but the size is well-formed.
    pub open spec fn wf_but_bounds(self) -> bool {
        &&& units_fit(self.units)
        &&& units_wired(self.units)
        &&& slots_within(self.inputs, self.units.len() as int)
        &&& slots_within(self.outputs, self.units.len() as int)
    }
}

/// Taking a unit out keeps everything but the size well-formed.
pub proof fn lemma_cut_wf(scheme: SchemeView, id: usize)
    requires
        scheme.wf_but_bounds(),
    ensures
        scheme.cut(id).wf_but_bounds(),
        id < scheme.units.len() ==> scheme.cut(id).units.len() == scheme.units.len() - 1,
{
    if id < scheme.units.len() {
        let n = scheme.units.len() as int;
        let rest = scheme.units.remove(id as int);
        let after = scheme.cut(id);
        assert forall|i: int| 0 <= i < after.units.len() implies (#[trigger] after.units[i]).fits()
            && after.units[i].wired_within(after.units.len() as int) by {
            let before = if i < id {
                scheme.units[i]
            } else {
                scheme.units[i + 1]
            };
            assert(rest[i] == before);
            assert(before.fits());
            assert(before.wired_within(n));
            lemma_renumbered_within(before.shape.conns, id, -1, n);
        }
        lemma_slots_without(scheme.inputs, id, -1, n);
        lemma_slots_without(scheme.outputs, id, -1, n);
    }
}

/// Slots stay well-formed when a unit leaves, and name units of the new
/// list only.
pub proof fn lemma_slots_without(slots: Seq<SlotView>, id: usize, offset: int, count: int)
    requires
        slots_within(slots, count),
        -1 <= offset <= 0,
        id < count,
    ensures
        slots_within(slots_without(slots, id, offset), count + offset),
{
    let after = slots_without(slots, id, offset);
    assert forall|i: int| 0 <= i < after.len() implies (#[trigger] after[i]).wf() && after[i].within(
        count + offset,
    ) by {
        let slot = slots[i];
        assert(slot.wf() && slot.within(count));
        assert forall|p: int, k: int|
            0 <= p < after[i].points.len() && 0 <= k < after[i].points[p].len() implies (
        #[trigger] after[i].points[p][k]) < count + offset by {
            assert forall|c: int| 0 <= c < slot.points[p].len() implies #[trigger] slot.points[p][c]
                < count by {
                assert(slot.points[p][c] < count);
            }
            lemma_renumbered_within(slot.points[p], id, offset, count);
        }
    }
}

/// Every index above `id` can move down by one, or stay.
pub proof fn lemma_can_renumber(list: Seq<usize>, id: usize, offset: int)
    requires
        -1 <= offset <= 0,
    ensures
        can_renumber(list, id, offset),
{
}

impl Scheme {
    /// Takes every connection to the unit `id` away, from units and from
    /// slots, and moves the indices above `id` by `id_offset`.
    fn delete_connections_to(&mut self, id: usize, id_offset: isize)
        requires
            slots_wf(old(self).inputs@),
            slots_wf(old(self).outputs@),
            -1 <= id_offset <= 0,
        ensures
            slots_wf(final(self).inputs@),
            slots_wf(final(self).outputs@),
            final(self)@ == old(self)@.unplugged(id, id_offset as int),
    {
        let ghost before = self@;
        let n = self.shapes.len();
        let mut i: usize = 0;
        while i < n
            invariant
                i <= n,
                n == self.shapes.len(),
                before == old(self)@,
                before.units.len() == n,
                -1 <= id_offset <= 0,
                self.inputs == old(self).inputs,
                self.outputs == old(self).outputs,
                self.bounds == old(self).bounds,
                forall|j: int|
                    0 <= j < i ==> unit_view(#[trigger] self.shapes@[j]) == before.units[j].without(
                        id,
                        id_offset as int,
                    ),
                forall|j: int| i <= j < n ==> unit_view(#[trigger] self.shapes@[j]) == before.units[j],
            decreases n - i,
        {
            proof {
                assert(unit_view(self.shapes@[i as int]) == before.units[i as int]);
                lemma_can_renumber(self.shapes@[i as int].2.out_conns@, id, id_offset as int);
            }
            let conns = renumber(&self.shapes[i].2.out_conns, id, id_offset);
            self.shapes[i].2.out_conns = conns;
            i += 1;
        }
        proof {
            assert(units_view(self.shapes@) =~= units_without(before.units, id, id_offset as int));
        }
        unplug_slots(&mut self.inputs, id, id_offset);
        unplug_slots(&mut self.outputs, id, id_offset);
    }

    /// Takes the unit `id` out of the scheme, and leaves the size of the
    /// scheme as it was. Nothing happens if there is no such unit.
    pub fn no_bounds_remove_shape(&mut self, id: usize)
        requires
            slots_wf(old(self).inputs@),
            slots_wf(old(self).outputs@),
        ensures
            slots_wf(final(self).inputs@),
            slots_wf(final(self).outputs@),
            final(self)@ == old(self)@.cut(id),
    {
        if id >= self.shapes.len() {
            return ;
        }
        let ghost before = self@;
        let _ = self.shapes.remove(id);
        proof {
            assert(self@.units =~= before.units.remove(id as int));
        }
        self.delete_connections_to(id, -1);
    }

    /// Takes the unit `id` out of the scheme. Nothing happens if there is
    /// no such unit.
    pub fn remove_shape(&mut self, id: usize)
        requires
            old(self).wf(),
        ensures
            final(self).wf(),
            final(self)@ == old(self)@.removed(id),
    {
        proof {
            lemma_cut_wf(self@, id);
        }
        self.no_bounds_remove_shape(id);
        let (_, bounds) = bounds_of(&self.shapes);
        self.bounds = bounds;
    }

    /// Puts a plain block in the place of the unit `id`. Nothing happens
    /// if there is no such unit.
    pub fn replace_shape(&mut self, id: usize, with: BlockType)
        requires
            slots_wf(old(self).inputs@),
            slots_wf(old(self).outputs@),
        ensures
            slots_wf(final(self).inputs@),
            slots_wf(final(self).outputs@),
            final(self)@ == old(self)@.replaced(id, with),
    {
        if id >= self.shapes.len() {
            return ;
        }
        let ghost before = self@;
        self.delete_connections_to(id, 0);
        let ghost cleared = self@;
        proof {
            assert(cleared.units.len() == before.units.len());
            assert(self.shapes.len() == cleared.units.len());
        }
        let mut new_shape = BlockBody::new(with, self.shapes[id].2.bounds());
        if self.shapes[id].2.is_forcibly_used() {
            new_shape.set_forcibly_used();
        }
        match self.shapes[id].2.get_color() {
            None => {},
            Some(color) => new_shape.set_color(color.clone()),
        }
        self.shapes[id].2 = new_shape;
        proof {
            assert(cleared.units[id as int] == unit_view(old(self).shapes@[id as int]).without(id, 0));
            assert(self@.units =~= before.replaced(id, with).units);
        }
    }
}

/// Tells every slot that the unit `id` has left.
fn unplug_slots(slots: &mut Vec<Slot>, id: usize, id_offset: isize)
    requires
        slots_wf(old(slots)@),
        -1 <= id_offset <= 0,
    ensures
        slots_wf(final(slots)@),
        slots_view(final(slots)@) == slots_without(slots_view(old(slots)@), id, id_offset as int),
{
    let ghost before = slots_view(slots@);
    let n = slots.len();
    let mut i: usize = 0;
    while i < n
        invariant
            i <= n,
            n == slots.len(),
            before.len() == n,
            -1 <= id_offset <= 0,
            slots_wf(slots@),
            forall|j: int| 0 <= j < i ==> (#[trigger] slots@[j])@ == before[j].without(id, id_offset as int),
            forall|j: int| i <= j < n ==> (#[trigger] slots@[j])@ == before[j],
        decreases n - i,
    {
        let ghost list = slots@;
        proof {
            assert(slots@[i as int].wf());
            assert forall|p: int| 0 <= p < slots@[i as int]@.points.len() implies can_renumber(
                #[trigger] slots@[i as int]@.points[p],
                id,
                id_offset as int,
            ) by {}
        }
        slots[i].shape_was_removed(id, id_offset);
        proof {
            assert forall|j: int| 0 <= j < n implies (#[trigger] slots@[j]).wf() by {
                if j != i {
                    assert(slots@[j] == list[j]);
                    assert(list[j].wf());
                }
            }
        }
        i += 1;
    }
    proof {
        assert(slots_view(slots@) =~= slots_without(before, id, id_offset as int));
    }
}


/// What a list of unit indices becomes when the unit `id` is taken out:
/// the indices equal to `id` are dropped, the indices above `id` are one
/// less, the indices below `id` stay, and the order stays.
pub open spec fn after_removal(list: Seq<usize>, id: usize) -> Seq<usize> {
    moved_others(list, id, -1)
}

/// Taking the unit `id` out of a scheme moves the units behind it up by
/// one place and renumbers everything that names a unit: in the
/// connections of every unit that stays and in every point of every slot,
/// each index below `id` is unchanged, each index equal to `id` is gone,
/// and each index above `id` is one less.
pub proof fn lemma_cut_renumbers(scheme: SchemeView, id: usize)
    requires
        id < scheme.units.len(),
    ensures
        scheme.cut(id).units.len() == scheme.units.len() - 1,
        forall|j: int|
            0 <= j < scheme.units.len() - 1 ==> {
                let from = if j < id {
                    scheme.units[j]
                } else {
                    scheme.units[j + 1]
                };
                &&& (#[trigger] scheme.cut(id).units[j]).pos == from.pos
                &&& scheme.cut(id).units[j].rot == from.rot
                &&& scheme.cut(id).units[j].shape.base == from.shape.base
                &&& scheme.cut(id).units[j].shape.color == from.shape.color
                &&& scheme.cut(id).units[j].shape.forced == from.shape.forced
                &&& scheme.cut(id).units[j].shape.conns == after_removal(from.shape.conns, id)
            },
        scheme.cut(id).inputs.len() == scheme.inputs.len(),
        scheme.cut(id).outputs.len() == scheme.outputs.len(),
        forall|s: int, p: int|
            0 <= s < scheme.inputs.len() && 0 <= p < scheme.inputs[s].points.len() ==> (
            #[trigger] scheme.cut(id).inputs[s].points[p]) == after_removal(
                scheme.inputs[s].points[p],
                id,
            ),
        forall|s: int, p: int|
            0 <= s < scheme.outputs.len() && 0 <= p < scheme.outputs[s].points.len() ==> (
            #[trigger] scheme.cut(id).outputs[s].points[p]) == after_removal(
                scheme.outputs[s].points[p],
                id,
            ),
{
    let rest = scheme.units.remove(id as int);
    let after = scheme.cut(id);
    assert forall|j: int| 0 <= j < scheme.units.len() - 1 implies {
        let from = if j < id {
            scheme.units[j]
        } else {
            scheme.units[j + 1]
        };
        &&& (#[trigger] after.units[j]).pos == from.pos
        &&& after.units[j].rot == from.rot
        &&& after.units[j].shape.base == from.shape.base
        &&& after.units[j].shape.color == from.shape.color
        &&& after.units[j].shape.forced == from.shape.forced
        &&& after.units[j].shape.conns == after_removal(from.shape.conns, id)
    } by {
        let from = if j < id {
            scheme.units[j]
        } else {
            scheme.units[j + 1]
        };
        assert(rest[j] == from);
        lemma_renumbered(from.shape.conns, id, -1);
    }
    assert forall|s: int, p: int|
        0 <= s < scheme.inputs.len() && 0 <= p < scheme.inputs[s].points.len() implies (
    #[trigger] after.inputs[s].points[p]) == after_removal(scheme.inputs[s].points[p], id) by {
        lemma_renumbered(scheme.inputs[s].points[p], id, -1);
    }
    assert forall|s: int, p: int|
        0 <= s < scheme.outputs.len() && 0 <= p < scheme.outputs[s].points.len() implies (
    #[trigger] after.outputs[s].points[p]) == after_removal(scheme.outputs[s].points[p], id) by {
        lemma_renumbered(scheme.outputs[s].points[p], id, -1);
    }
}

} // verus!
