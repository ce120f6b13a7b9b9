//! Finding the units of a scheme that nothing uses.
//!
//! A unit is used if it is kept by force, if a point of an output slot
//! stands for it, or if it is connected into a used unit.

use vstd::prelude::*;
use crate::scheme::removal::lemma_cut_wf;
use crate::scheme::{
    bounds_of, size_of, slots_view, slots_wf, unit_view, units_view, Scheme, SchemeView, UnitView,
};
use crate::shape::vanilla::BlockType;
use crate::shape::Shape;
use crate::slot::points_view;
use crate::util::{Point, Rot};

verus! {

/// The number of entries that are false.
pub open spec fn count_false(marks: Seq<bool>) -> nat
    decreases marks.len(),
{
    if marks.len() == 0 {
        0
    } else {
        count_false(marks.drop_last()) + if marks.last() {
            0nat
        } else {
            1nat
        }
    }
}

/// Setting a false entry to true leaves one false entry less.
pub proof fn lemma_mark(marks: Seq<bool>, i: int)
    requires
        0 <= i < marks.len(),
        !marks[i],
    ensures
        count_false(marks.update(i, true)) + 1 == count_false(marks),
    decreases marks.len(),
{
    let after = marks.update(i, true);
    if i == marks.len() - 1 {
        assert(after.drop_last() =~= marks.drop_last());
    } else {
        assert(after.drop_last() =~= marks.drop_last().update(i, true));
        lemma_mark(marks.drop_last(), i);
    }
}

impl SchemeView {
    /// A point of an output slot stands for the unit `i`.
    pub open spec fn addressed(self, i: int) -> bool {
        exists|o: int, p: int, k: int|
            0 <= o < self.outputs.len() && 0 <= p < self.outputs[o].points.len() && 0 <= k
                < self.outputs[o].points[p].len() && (#[trigger] self.outputs[o].points[p][k]) == i
    }

    /// The unit `i` is used for what it is: it is kept by force, or an
    /// output slot stands for it.
    pub open spec fn rooted(self, i: int) -> bool {
        self.units[i].shape.forced || self.addressed(i)
    }

    /// The unit `i` is connected into the unit `j`.
    pub open spec fn feeds(self, i: int, j: int) -> bool {
        exists|c: int|
            0 <= c < self.units[i].shape.conns.len() && (#[trigger] self.units[i].shape.conns[c])
                == j
    }

    /// `path` leads along connections to a unit that is used for what it
    /// is: each unit of the path is connected into the next one, and the
    /// last one is kept by force or stood for by an output slot.
    pub open spec fn leads_out(self, path: Seq<int>) -> bool {
        &&& path.len() > 0
        &&& forall|k: int| 0 <= k < path.len() ==> 0 <= #[trigger] path[k] < self.units.len()
        &&& forall|k: int| 0 <= k < path.len() - 1 ==> self.feeds(#[trigger] path[k], path[k + 1])
        &&& self.rooted(path.last())
    }

    /// The unit `i` is used: from it a unit that is used for what it is can
    /// be reached along connections.
    pub open spec fn used(self, i: int) -> bool {
        exists|path: Seq<int>| #[trigger] self.leads_out(path) && path[0] == i
    }

    /// For each unit, whether it is used.
    pub open spec fn usage(self) -> Seq<bool> {
        Seq::new(self.units.len(), |i: int| self.used(i))
    }

    /// The scheme after the units from place `k` on that are not flagged
    /// were taken out, the last one first.
    pub open spec fn cut_unflagged(self, flags: Seq<bool>, k: int) -> SchemeView
        decreases flags.len() - k,
    {
        if k >= flags.len() {
            self
        } else {
            let rest = self.cut_unflagged(flags, k + 1);
            if flags[k] {
                rest
            } else {
                rest.cut(k as usize)
            }
        }
    }

    /// The scheme with the flagged units only.
    pub open spec fn kept(self, flags: Seq<bool>) -> SchemeView {
        let cut = self.cut_unflagged(flags, 0);
        SchemeView { bounds: size_of(cut.units), ..cut }
    }

    /// The scheme after a plain block was put in the place of each unit
    /// from place `k` on that is not flagged.
    pub open spec fn replace_unflagged(self, flags: Seq<bool>, with: BlockType, k: int) -> SchemeView
        decreases flags.len() - k,
    {
        if k >= flags.len() {
            self
        } else {
            let rest = self.replace_unflagged(flags, with, k + 1);
            if flags[k] {
                rest
            } else {
                rest.replaced(k as usize, with)
            }
        }
    }
}

/// Marks that hold every unit that is used for what it is, and that hold
/// every unit that is connected into a marked one, hold every used unit.
pub proof fn lemma_closed_marks(scheme: SchemeView, marks: Seq<bool>, path: Seq<int>)
    requires
        marks.len() == scheme.units.len(),
        forall|r: int| 0 <= r < marks.len() && scheme.rooted(r) ==> marks[r],
        forall|a: int, j: int|
            0 <= a < marks.len() && 0 <= j < marks.len() && scheme.feeds(a, j) && marks[j]
                ==> marks[a],
        scheme.leads_out(path),
    ensures
        marks[path[0]],
    decreases path.len(),
{
    assert(0 <= path[0] < scheme.units.len());
    if path.len() > 1 {
        let rest = path.drop_first();
        assert forall|k: int| 0 <= k < rest.len() implies 0 <= #[trigger] rest[k]
            < scheme.units.len() by {
            assert(rest[k] == path[k + 1]);
        }
        assert forall|k: int| 0 <= k < rest.len() - 1 implies scheme.feeds(
            #[trigger] rest[k],
            rest[k + 1],
        ) by {
            assert(rest[k] == path[k + 1]);
            assert(scheme.feeds(path[k + 1], path[k + 2]));
        }
        assert(rest.last() == path.last());
        lemma_closed_marks(scheme, marks, rest);
        assert(rest[0] == path[1]);
        assert(0 <= path[1] < scheme.units.len());
        assert(scheme.feeds(path[0], path[1]));
    } else {
        assert(path.last() == path[0]);
    }
}

/// A unit that is connected into a used unit is used.
pub proof fn lemma_feeds_used(scheme: SchemeView, i: int, j: int)
    requires
        0 <= i < scheme.units.len(),
        scheme.feeds(i, j),
        scheme.used(j),
    ensures
        scheme.used(i),
{
    let path = choose|path: Seq<int>| #[trigger] scheme.leads_out(path) && path[0] == j;
    let longer = seq![i] + path;
    assert forall|k: int| 0 <= k < longer.len() implies 0 <= #[trigger] longer[k]
        < scheme.units.len() by {
        if k > 0 {
            assert(longer[k] == path[k - 1]);
        }
    }
    assert forall|k: int| 0 <= k < longer.len() - 1 implies scheme.feeds(
        #[trigger] longer[k],
        longer[k + 1],
    ) by {
        if k > 0 {
            assert(longer[k] == path[k - 1]);
            assert(longer[k + 1] == path[k]);
            assert(scheme.feeds(path[k - 1], path[k]));
        } else {
            assert(longer[1] == path[0]);
        }
    }
    assert(longer.last() == path.last());
    assert(scheme.leads_out(longer) && longer[0] == i);
}

/// A unit that is used for what it is is used.
pub proof fn lemma_rooted_used(scheme: SchemeView, i: int)
    requires
        0 <= i < scheme.units.len(),
        scheme.rooted(i),
    ensures
        scheme.used(i),
{
    let path = seq![i];
    assert(scheme.leads_out(path) && path[0] == i);
}

/// Marks every unit that a point of the slots stands for.
fn mark_addressed(is_used: &mut Vec<bool>, scheme: &Scheme)
    requires
        old(is_used).len() == scheme.shapes.len(),
        forall|i: int| 0 <= i < old(is_used).len() ==> #[trigger] old(is_used)@[i] == scheme@.units[i].shape.forced,
    ensures
        final(is_used).len() == old(is_used).len(),
        forall|i: int| 0 <= i < final(is_used).len() ==> #[trigger] final(is_used)@[i] == scheme@.rooted(i),
{
    let ghost view = scheme@;
    let n = is_used.len();
    let mut o: usize = 0;
    while o < scheme.outputs.len()
        invariant
            o <= scheme.outputs.len(),
            view == scheme@,
            n == is_used.len(),
            n == view.units.len(),
            forall|i: int| 0 <= i < n && #[trigger] is_used@[i] ==> view.rooted(i),
            forall|i: int| 0 <= i < n && view.units[i].shape.forced ==> #[trigger] is_used@[i],
            forall|a: int, p: int, k: int|
                0 <= a < o && 0 <= p < view.outputs[a].points.len() && 0 <= k
                    < view.outputs[a].points[p].len() && (#[trigger] view.outputs[a].points[p][k])
                    < n ==> is_used@[view.outputs[a].points[p][k] as int],
        decreases scheme.outputs.len() - o,
    {
        let data = &scheme.outputs[o].shape_map.data;
        proof {
            assert(view.outputs[o as int] == scheme.outputs@[o as int]@);
            assert(view.outputs[o as int].points == points_view(data@));
        }
        let mut p: usize = 0;
        while p < data.len()
            invariant
                p <= data.len(),
                o < scheme.outputs.len(),
                view == scheme@,
                n == is_used.len(),
                n == view.units.len(),
                view.outputs[o as int].points == points_view(data@),
                forall|i: int| 0 <= i < n && #[trigger] is_used@[i] ==> view.rooted(i),
                forall|i: int| 0 <= i < n && view.units[i].shape.forced ==> #[trigger] is_used@[i],
                forall|a: int, q: int, k: int|
                    0 <= a < o && 0 <= q < view.outputs[a].points.len() && 0 <= k
                        < view.outputs[a].points[q].len() && (
                    #[trigger] view.outputs[a].points[q][k]) < n
                        ==> is_used@[view.outputs[a].points[q][k] as int],
                forall|q: int, k: int|
                    0 <= q < p && 0 <= k < data@[q].len() && (#[trigger] data@[q]@[k]) < n
                        ==> is_used@[data@[q]@[k] as int],
            decreases data.len() - p,
        {
            let list = &data[p];
            let mut k: usize = 0;
            while k < list.len()
                invariant
                    k <= list.len(),
                    p < data.len(),
                    o < scheme.outputs.len(),
                    list@ == data@[p as int]@,
                    view == scheme@,
                    n == is_used.len(),
                    n == view.units.len(),
                    view.outputs[o as int].points == points_view(data@),
                    forall|i: int| 0 <= i < n && #[trigger] is_used@[i] ==> view.rooted(i),
                    forall|i: int| 0 <= i < n && view.units[i].shape.forced ==> #[trigger] is_used@[i],
                    forall|a: int, q: int, c: int|
                        0 <= a < o && 0 <= q < view.outputs[a].points.len() && 0 <= c
                            < view.outputs[a].points[q].len() && (
                        #[trigger] view.outputs[a].points[q][c]) < n
                            ==> is_used@[view.outputs[a].points[q][c] as int],
                    forall|q: int, c: int|
                        0 <= q < p && 0 <= c < data@[q].len() && (#[trigger] data@[q]@[c]) < n
                            ==> is_used@[data@[q]@[c] as int],
                    forall|c: int| 0 <= c < k && (#[trigger] list@[c]) < n ==> is_used@[list@[c] as int],
                decreases list.len() - k,
            {
                let connection = list[k];
                if connection < n {
                    proof {
                        assert(view.outputs[o as int].points[p as int][k as int] == connection);
                        assert(view.addressed(connection as int));
                    }
                    is_used.set(connection, true);
                }
                k += 1;
            }
            p += 1;
        }
        proof {
            assert forall|a: int, q: int, c: int|
                0 <= a < o + 1 && 0 <= q < view.outputs[a].points.len() && 0 <= c
                    < view.outputs[a].points[q].len() && (#[trigger] view.outputs[a].points[q][c])
                    < n implies is_used@[view.outputs[a].points[q][c] as int] by {
                if a == o {
                    assert(view.outputs[a].points[q][c] == data@[q]@[c]);
                }
            }
        }
        o += 1;
    }
    proof {
        assert forall|i: int| 0 <= i < n implies #[trigger] is_used@[i] == view.rooted(i) by {
            if view.addressed(i) {
                let (a, q, c) = choose|a: int, q: int, c: int|
                    0 <= a < view.outputs.len() && 0 <= q < view.outputs[a].points.len() && 0 <= c
                        < view.outputs[a].points[q].len() && (
                    #[trigger] view.outputs[a].points[q][c]) == i;
                assert(is_used@[view.outputs[a].points[q][c] as int]);
            }
        }
    }
}

/// Tells whether the unit `id` is connected into a marked unit.
fn feeds_marked(scheme: &Scheme, is_used: &Vec<bool>, id: usize) -> (hit: bool)
    requires
        id < scheme.shapes.len(),
        is_used.len() == scheme.shapes.len(),
    ensures
        hit == (exists|j: int| 0 <= j < is_used.len() && scheme@.feeds(id as int, j) && is_used@[j]),
{
    let ghost view = scheme@;
    let conns = &scheme.shapes[id].2.out_conns;
    proof {
        assert(view.units[id as int] == unit_view(scheme.shapes@[id as int]));
    }
    let mut c: usize = 0;
    while c < conns.len()
        invariant
            c <= conns.len(),
            view == scheme@,
            id < scheme.shapes.len(),
            conns@ == view.units[id as int].shape.conns,
            is_used.len() == scheme.shapes.len(),
            forall|k: int| 0 <= k < c ==> !((#[trigger] conns@[k]) < is_used.len() && is_used@[conns@[k] as int]),
        decreases conns.len() - c,
    {
        if conns[c] < is_used.len() && is_used[conns[c]] {
            proof {
                assert(view.feeds(id as int, conns@[c as int] as int));
            }
            return true;
        }
        c += 1;
    }
    proof {
        if exists|j: int| 0 <= j < is_used.len() && view.feeds(id as int, j) && is_used@[j] {
            let j = choose|j: int| 0 <= j < is_used.len() && view.feeds(id as int, j) && is_used@[j];
            let k = choose|k: int|
                0 <= k < view.units[id as int].shape.conns.len() && (
                #[trigger] view.units[id as int].shape.conns[k]) == j;
            assert(conns@[k] == j);
        }
    }
    false
}

impl Scheme {
    /// Tells for each unit whether it is used. A unit is used if it is
    /// kept by force, if a point of an output slot stands for it, or if it
    /// is connected into a used unit.
    pub fn get_used_shapes(&self) -> (is_used: Vec<bool>)
        ensures
            is_used@ == self@.usage(),
    {
        let ghost view = self@;
        let n = self.shapes.len();
        // used = connected to output
        let mut is_used: Vec<bool> = Vec::new();
        let mut i: usize = 0;
        while i < n
            invariant
                i <= n,
                n == self.shapes.len(),
                view == self@,
                is_used.len() == i,
                forall|j: int| 0 <= j < i ==> #[trigger] is_used@[j] == view.units[j].shape.forced,
            decreases n - i,
        {
            proof {
                assert(view.units[i as int] == unit_view(self.shapes@[i as int]));
            }
            is_used.push(self.shapes[i].2.is_forcibly_used());
            i += 1;
        }
        // in the first place, all shapes connected to output are used
        mark_addressed(&mut is_used, self);
        proof {
            assert forall|j: int| 0 <= j < n && #[trigger] is_used@[j] implies view.used(j) by {
                lemma_rooted_used(view, j);
            }
        }
        // Then "usefulness" spreads to other shapes in reverse iteratively
        loop
            invariant
                n == self.shapes.len(),
                view == self@,
                is_used.len() == n,
                forall|j: int| 0 <= j < n && #[trigger] is_used@[j] ==> view.used(j),
                forall|j: int| 0 <= j < n && view.rooted(j) ==> #[trigger] is_used@[j],
            ensures
                is_used.len() == n,
                forall|j: int| 0 <= j < n && #[trigger] is_used@[j] ==> view.used(j),
                forall|j: int| 0 <= j < n && view.rooted(j) ==> #[trigger] is_used@[j],
                forall|a: int, j: int|
                    0 <= a < n && 0 <= j < n && view.feeds(a, j) && is_used@[j] ==> is_used@[a],
            decreases count_false(is_used@),
        {
            let ghost start = is_used@;
            let mut changed = false;
            let mut id: usize = 0;
            while id < n
                invariant
                    id <= n,
                    n == self.shapes.len(),
                    view == self@,
                    is_used.len() == n,
                    start.len() == n,
                    forall|j: int| 0 <= j < n && #[trigger] is_used@[j] ==> view.used(j),
                    forall|j: int| 0 <= j < n && view.rooted(j) ==> #[trigger] is_used@[j],
                    !changed ==> is_used@ == start,
                    changed ==> count_false(is_used@) < count_false(start),
                    !changed ==> forall|a: int, j: int|
                        0 <= a < id && 0 <= j < n && view.feeds(a, j) && is_used@[j] ==> is_used@[a],
                decreases n - id,
            {
                if !is_used[id] {
                    // If the shape is connected to used shape, "usefulness" spreads
                    if feeds_marked(self, &is_used, id) {
                        proof {
                            let j = choose|j: int|
                                0 <= j < is_used.len() && view.feeds(id as int, j) && is_used@[j];
                            lemma_feeds_used(view, id as int, j);
                            lemma_mark(is_used@, id as int);
                        }
                        is_used.set(id, true);
                        changed = true;
                    }
                }
                id += 1;
            }
            if !changed {
                break ;
            }
        }
        proof {
            assert forall|j: int| 0 <= j < n implies #[trigger] is_used@[j] == view.used(j) by {
                if view.used(j) {
                    let path = choose|path: Seq<int>| #[trigger] view.leads_out(path) && path[0] == j;
                    lemma_closed_marks(view, is_used@, path);
                }
            }
            assert(is_used@ =~= view.usage());
        }
        is_used
    }

    /// Takes the units that are not flagged out of the scheme, the last
    /// one first. Flags are counted by the place of the units before any is
    /// taken out; places without a unit are passed over.
    pub fn keep_shapes(&mut self, flags: &Vec<bool>)
        requires
            old(self).wf(),
        ensures
            final(self).wf(),
            final(self)@ == old(self)@.kept(flags@),
    {
        let ghost before = self@;
        let mut i: usize = flags.len();
        while i > 0
            invariant
                i <= flags.len(),
                before == old(self)@,
                slots_wf(self.inputs@),
                slots_wf(self.outputs@),
                self@.wf_but_bounds(),
                self@ == before.cut_unflagged(flags@, i as int),
            decreases i,
        {
            i -= 1;
            if !flags[i] {
                proof {
                    lemma_cut_wf(self@, i);
                }
                self.no_bounds_remove_shape(i);
            }
        }
        // Check bounds, those might have been updated
        let (_, bounds) = bounds_of(&self.shapes);
        self.bounds = bounds;
    }

    /// Takes every unit out of the scheme that is not used.
    pub fn remove_unused(&mut self)
        requires
            old(self).wf(),
        ensures
            final(self).wf(),
            final(self)@ == old(self)@.kept(old(self)@.usage()),
    {
        let is_used = self.get_used_shapes();
        self.keep_shapes(&is_used);
    }

    /// Puts a plain block in the place of every unit that is not used.
    pub fn replace_unused_with(&mut self, block: BlockType)
        requires
            slots_wf(old(self).inputs@),
            slots_wf(old(self).outputs@),
        ensures
            slots_wf(final(self).inputs@),
            slots_wf(final(self).outputs@),
            final(self)@ == old(self)@.replace_unflagged(old(self)@.usage(), block, 0),
    {
        let ghost before = self@;
        let is_used = self.get_used_shapes();
        let mut i: usize = is_used.len();
        while i > 0
            invariant
                i <= is_used.len(),
                before == old(self)@,
                slots_wf(self.inputs@),
                slots_wf(self.outputs@),
                self@ == before.replace_unflagged(is_used@, block, i as int),
            decreases i,
        {
            i -= 1;
            if !is_used[i] {
                self.replace_shape(i, block);
            }
        }
    }

    /// Keeps the units for which `filter` returns true, and takes the
    /// others out.
    pub fn filter_shapes<F: Fn(&Point, &Rot, &Shape) -> bool>(&mut self, filter: F)
        requires
            old(self).wf(),
            forall|i: int|
                0 <= i < old(self).shapes.len() ==> call_requires(
                    filter,
                    (&old(self).shapes[i].0, &old(self).shapes[i].1, &old(self).shapes[i].2),
                ),
        ensures
            final(self).wf(),
            exists|flags: Seq<bool>|
                flags.len() == old(self).shapes.len() && (forall|i: int|
                    0 <= i < flags.len() ==> call_ensures(
                        filter,
                        (&old(self).shapes[i].0, &old(self).shapes[i].1, &old(self).shapes[i].2),
                        #[trigger] flags[i],
                    )) && final(self)@ == old(self)@.kept(flags),
    {
        let mut passed_shapes: Vec<bool> = Vec::new();
        let mut i: usize = 0;
        while i < self.shapes.len()
            invariant
                i <= self.shapes.len(),
                *self == *old(self),
                passed_shapes.len() == i,
                forall|j: int|
                    0 <= j < self.shapes.len() ==> call_requires(
                        filter,
                        (&self.shapes[j].0, &self.shapes[j].1, &self.shapes[j].2),
                    ),
                forall|j: int|
                    0 <= j < i ==> call_ensures(
                        filter,
                        (&self.shapes[j].0, &self.shapes[j].1, &self.shapes[j].2),
                        #[trigger] passed_shapes@[j],
                    ),
            decreases self.shapes.len() - i,
        {
            let pass = filter(&self.shapes[i].0, &self.shapes[i].1, &self.shapes[i].2);
            passed_shapes.push(pass);
            i += 1;
        }
        self.keep_shapes(&passed_shapes);
    }
}

} // verus!
