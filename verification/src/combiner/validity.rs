//! Telling whether binds and combiners that were put together by hand are
//! well-formed: what the functions of the combiner ask of them.

use vstd::prelude::*;
use vstd::string::*;
use crate::bind::{names_exec_wf, names_view, names_wf, Bind, SlotsOf};
use crate::combiner::{binds_view, binds_wf, Combiner};
use crate::positioner::{named_view, ManualPos, Positioner};
use crate::scheme::{slots_wf, Scheme};
use crate::slot::{fits_within, sector_fits};
use crate::util::has_separator;

verus! {

impl Bind {
    /// Tells whether no sector before the sector number `i` has its name.
    fn sector_is_new(&self, i: usize) -> (ok: bool)
        requires
            i < self.sectors.len(),
        ensures
            ok == (forall|j: int| 0 <= j < i ==> (#[trigger] self@.sectors[j]).name != self@.sectors[i as int].name),
    {
        let mut j: usize = 0;
        while j < i
            invariant
                j <= i,
                i < self.sectors.len(),
                forall|k: int|
                    0 <= k < j ==> (#[trigger] self@.sectors[k]).name != self@.sectors[i as int].name,
            decreases i - j,
        {
            if self.sectors[j].0 == self.sectors[i].0 {
                proof {
                    assert(self@.sectors[j as int].name == self@.sectors[i as int].name);
                }
                return false;
            }
            j += 1;
        }
        true
    }

    /// Tells whether the bind is well-formed: whether its sectors have
    /// names of their own, none of them empty, and lie within the bind.
    pub fn is_wf(&self) -> (ok: bool)
        ensures
            ok == self@.wf(),
    {
        let ghost view = self@;
        let mut i: usize = 0;
        while i < self.sectors.len()
            invariant
                i <= self.sectors.len(),
                view == self@,
                forall|a: int| 0 <= a < i ==> (#[trigger] view.sectors[a]).name.len() > 0,
                forall|a: int, b: int|
                    0 <= a < b < i ==> (#[trigger] view.sectors[a]).name != (#[trigger] view.sectors[b]).name,
                forall|a: int|
                    0 <= a < i ==> sector_fits(
                        (#[trigger] view.sectors[a]).pos,
                        view.sectors[a].bounds,
                        view.size,
                    ),
            decreases self.sectors.len() - i,
        {
            let sector = &self.sectors[i];
            proof {
                assert(view.sectors[i as int].name == sector.0@);
                assert(view.sectors[i as int].pos == sector.1);
                assert(view.sectors[i as int].bounds == sector.2);
            }
            if sector.0.as_str().unicode_len() == 0 {
                return false;
            }
            if !self.sector_is_new(i) {
                return false;
            }
            if !fits_within(sector.1, sector.2, self.size) {
                return false;
            }
            i += 1;
        }
        true
    }
}

/// Tells whether no bind before the bind number `i` has its name.
fn bind_is_new(binds: &Vec<Bind>, i: usize) -> (ok: bool)
    requires
        i < binds.len(),
    ensures
        ok == (forall|j: int| 0 <= j < i ==> (#[trigger] binds_view(binds@)[j]).name != binds_view(
            binds@,
        )[i as int].name),
{
    let ghost views = binds_view(binds@);
    let mut j: usize = 0;
    while j < i
        invariant
            j <= i,
            i < binds.len(),
            views == binds_view(binds@),
            forall|k: int| 0 <= k < j ==> (#[trigger] views[k]).name != views[i as int].name,
        decreases i - j,
    {
        proof {
            assert(views[j as int] == binds@[j as int]@);
            assert(views[i as int] == binds@[i as int]@);
        }
        if binds[j].name == binds[i].name {
            return false;
        }
        j += 1;
    }
    true
}

/// Tells whether the binds are well-formed, have names of their own, and
/// no name holds the path separator.
pub fn binds_hold(binds: &Vec<Bind>) -> (ok: bool)
    ensures
        ok == binds_wf(binds_view(binds@)),
{
    let ghost views = binds_view(binds@);
    let mut i: usize = 0;
    while i < binds.len()
        invariant
            i <= binds.len(),
            views == binds_view(binds@),
            forall|a: int| 0 <= a < i ==> (#[trigger] views[a]).wf() && !views[a].name.contains('/'),
            forall|a: int, b: int|
                0 <= a < b < i ==> (#[trigger] views[a]).name != (#[trigger] views[b]).name,
        decreases binds.len() - i,
    {
        proof {
            assert(views[i as int] == binds@[i as int]@);
        }
        if !binds[i].is_wf() || has_separator(&binds[i].name) {
            return false;
        }
        if !bind_is_new(binds, i) {
            return false;
        }
        i += 1;
    }
    true
}

/// Tells whether the slots of a namespace are well-formed and name units
/// that can be counted: whether binds can be compiled against it.
pub fn names_hold(names: &Vec<SlotsOf>) -> (ok: bool)
    ensures
        ok == (names_exec_wf(names@) && names_wf(names_view(names@), usize::MAX as int)),
{
    let ghost views = names_view(names@);
    let mut e: usize = 0;
    while e < names.len()
        invariant
            e <= names.len(),
            views == names_view(names@),
            forall|a: int, s: int|
                0 <= a < e && 0 <= s < names@[a].slots.len() ==> (#[trigger] names@[a].slots@[s]).wf(),
            forall|a: int, s: int|
                0 <= a < e && 0 <= s < views[a].slots.len() ==> (#[trigger] views[a].slots[s]).wf()
                    && views[a].slots[s].within(usize::MAX - views[a].start),
        decreases names.len() - e,
    {
        let entry = &names[e];
        proof {
            assert(views[e as int] == names@[e as int]@);
        }
        let mut s: usize = 0;
        while s < entry.slots.len()
            invariant
                s <= entry.slots.len(),
                e < names.len(),
                *entry == names@[e as int],
                views == names_view(names@),
                views[e as int] == names@[e as int]@,
                forall|b: int| 0 <= b < s ==> (#[trigger] entry.slots@[b]).wf(),
                forall|b: int|
                    0 <= b < s ==> (#[trigger] views[e as int].slots[b]).wf() && views[e as int].slots[b].within(
                        usize::MAX - views[e as int].start,
                    ),
            decreases entry.slots.len() - s,
        {
            proof {
                assert(views[e as int].slots[s as int] == entry.slots@[s as int]@);
                assert(views[e as int].start == entry.start_shape);
            }
            if !entry.slots[s].is_wf() || !entry.slots[s].is_within(usize::MAX - entry.start_shape) {
                proof {
                    assert(!names@[e as int].slots@[s as int].wf() || !views[e as int].slots[s as int].within(
                        usize::MAX - views[e as int].start,
                    ));
                }
                return false;
            }
            s += 1;
        }
        e += 1;
    }
    proof {
        assert forall|a: int| 0 <= a < names.len() implies slots_wf(
            (#[trigger] names@[a]).slots@,
        ) by {
            assert forall|b: int| 0 <= b < names@[a].slots@.len() implies (#[trigger] names@[a].slots@[b]).wf() by {}
        }
    }
    true
}

impl ManualPos {
    /// Tells whether no pose before the pose number `i` is held under its
    /// name.
    fn pose_is_new(&self, i: usize) -> (ok: bool)
        requires
            i < self.poses.len(),
        ensures
            ok == (forall|j: int| 0 <= j < i ==> (#[trigger] self.view()[j]).0 != self.view()[i as int].0),
    {
        let mut j: usize = 0;
        while j < i
            invariant
                j <= i,
                i < self.poses.len(),
                forall|k: int| 0 <= k < j ==> (#[trigger] self.view()[k]).0 != self.view()[i as int].0,
            decreases i - j,
        {
            proof {
                assert(self.view()[j as int].0 == self.poses@[j as int].0@);
                assert(self.view()[i as int].0 == self.poses@[i as int].0@);
            }
            if self.poses[j].0 == self.poses[i].0 {
                return false;
            }
            j += 1;
        }
        true
    }

    /// Tells whether the positioner is well-formed: whether it holds no
    /// two poses under one name. A positioner that the library made is;
    /// one whose fields were set by hand may not be.
    pub fn is_wf(&self) -> (ok: bool)
        ensures
            ok == self.wf(),
    {
        let mut i: usize = 0;
        while i < self.poses.len()
            invariant
                i <= self.poses.len(),
                forall|a: int, b: int|
                    0 <= a < b < i ==> (#[trigger] self.view()[a]).0 != (#[trigger] self.view()[b]).0,
                forall|a: int| 0 <= a < i ==> (#[trigger] self.view()[a]).1.1.valid(),
            decreases self.poses.len() - i,
        {
            if !self.pose_is_new(i) {
                return false;
            }
            self.poses[i].1.1.is_valid();
            proof {
                assert(self.view()[i as int].1 == self.poses@[i as int].1);
            }
            i += 1;
        }
        true
    }
}

/// Tells whether no scheme before the scheme number `i` has its name.
fn scheme_is_new(schemes: &Vec<(String, Scheme)>, i: usize) -> (ok: bool)
    requires
        i < schemes.len(),
    ensures
        ok == (forall|j: int| 0 <= j < i ==> (#[trigger] named_view(schemes@)[j]).0 != named_view(
            schemes@,
        )[i as int].0),
{
    let ghost views = named_view(schemes@);
    let mut j: usize = 0;
    while j < i
        invariant
            j <= i,
            i < schemes.len(),
            views == named_view(schemes@),
            forall|k: int| 0 <= k < j ==> (#[trigger] views[k]).0 != views[i as int].0,
        decreases i - j,
    {
        proof {
            assert(views[j as int].0 == schemes@[j as int].0@);
            assert(views[i as int].0 == schemes@[i as int].0@);
        }
        if schemes[j].0 == schemes[i].0 {
            return false;
        }
        j += 1;
    }
    true
}

impl<P: Positioner> Combiner<P> {
    /// Tells whether the combiner is well-formed: whether its schemes are,
    /// under names of their own without path separator, and its binds are.
    /// A combiner that the library made is; one whose fields were set by
    /// hand may not be.
    pub fn is_wf(&self) -> (ok: bool)
        ensures
            ok == self.wf(),
    {
        let ghost views = named_view(self.schemes@);
        let mut i: usize = 0;
        while i < self.schemes.len()
            invariant
                i <= self.schemes.len(),
                views == named_view(self.schemes@),
                forall|a: int| 0 <= a < i ==> (#[trigger] self.schemes@[a]).1.wf(),
                forall|a: int| 0 <= a < i ==> !(#[trigger] views[a]).0.contains('/'),
                forall|a: int, b: int|
                    0 <= a < b < i ==> (#[trigger] views[a]).0 != (#[trigger] views[b]).0,
            decreases self.schemes.len() - i,
        {
            proof {
                assert(views[i as int].0 == self.schemes@[i as int].0@);
            }
            if !self.schemes[i].1.is_wf() || has_separator(&self.schemes[i].0) {
                proof {
                    assert(!self.schemes@[i as int].1.wf() || self@.schemes[i as int].0.contains('/'));
                }
                return false;
            }
            if !scheme_is_new(&self.schemes, i) {
                proof {
                    let j = choose|j: int| 0 <= j < i && !((#[trigger] views[j]).0 != views[i as int].0);
                    assert(self@.schemes[j].0 == self@.schemes[i as int].0);
                }
                return false;
            }
            i += 1;
        }
        binds_hold(&self.inputs) && binds_hold(&self.outputs)
    }
}

} // verus!
