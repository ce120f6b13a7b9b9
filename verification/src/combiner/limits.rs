//! Telling beforehand whether a combiner can be compiled within the
//! 32-bit coordinates and the machine's index range.

use vstd::prelude::*;
use vstd::string::*;
use crate::bind::{Bind, BindView};
use crate::combiner::compile::binds_can_compile;
use crate::combiner::flatten::{
    can_flatten, flat_units, lemma_flat_index, lemma_units_before_grows, lemma_units_of,
    placed_view, units_before, units_of, Placed,
};
use crate::combiner::{binds_view, Combiner, CombinerView};
use crate::positioner::{named_view, placed_at, pose_of, ManualPos, Named, Positioner};
use crate::scheme::{units_fit, Scheme, SchemeView, UnitView};
use crate::util::{Point, Rot};

verus! {

/// Where all the units of the flat list fit, those of each scheme do.
pub proof fn lemma_flat_fit_part(placed: Seq<Placed>, n: int, k: int)
    requires
        0 <= k < n,
        units_fit(flat_units(placed, n)),
    ensures
        units_fit(units_of(placed, k)),
{
    lemma_units_of(placed, k);
    crate::combiner::flatten::lemma_flat_len(placed, n);
    let flat = flat_units(placed, n);
    assert forall|u: int| 0 <= u < units_of(placed, k).len() implies (#[trigger] units_of(
        placed,
        k,
    )[u]).fits() by {
        lemma_flat_index(placed, n, k, u);
        lemma_units_before_grows(placed, 0, k);
        let at = units_before(placed, k) + u;
        assert(0 <= at < flat.len());
        assert(flat[at].fits());
    }
}

/// The first `k` schemes can be moved to their places, and their units fit
/// there.
#[verifier::opaque]
pub open spec fn prefix_fits(placed: Seq<Placed>, k: int) -> bool {
    &&& forall|j: int|
        0 <= j < k ==> (#[trigger] placed[j]).scheme.can_relocate(
            units_before(placed, j) as usize,
            placed[j].pos,
            placed[j].rot,
        )
    &&& units_fit(flat_units(placed, k))
}

/// No scheme at all can be moved and fits.
pub proof fn lemma_prefix_none(placed: Seq<Placed>)
    ensures
        prefix_fits(placed, 0),
{
    reveal(prefix_fits);
}

/// One more scheme that can be moved and fits.
pub proof fn lemma_prefix_step(placed: Seq<Placed>, k: int)
    requires
        0 <= k < placed.len(),
        prefix_fits(placed, k),
        placed[k].scheme.fits_at(units_before(placed, k) as usize, placed[k].pos, placed[k].rot),
    ensures
        prefix_fits(placed, k + 1),
{
    reveal(prefix_fits);
    lemma_units_of(placed, k);
    lemma_flat_fit_step(placed, k);
}

/// A scheme that cannot be moved or does not fit stands in the way of all
/// the schemes.
pub proof fn lemma_prefix_fails(placed: Seq<Placed>, k: int)
    requires
        0 <= k < placed.len(),
        !placed[k].scheme.fits_at(units_before(placed, k) as usize, placed[k].pos, placed[k].rot),
    ensures
        !(can_flatten(placed) && units_fit(flat_units(placed, placed.len() as int))),
{
    if can_flatten(placed) && units_fit(flat_units(placed, placed.len() as int)) {
        assert(placed[k].scheme.can_relocate(
            units_before(placed, k) as usize,
            placed[k].pos,
            placed[k].rot,
        ));
        lemma_units_of(placed, k);
        lemma_flat_fit_part(placed, placed.len() as int, k);
    }
}

/// All schemes can be moved and fit.
pub proof fn lemma_prefix_all(placed: Seq<Placed>)
    requires
        prefix_fits(placed, placed.len() as int),
    ensures
        can_flatten(placed),
        units_fit(flat_units(placed, placed.len() as int)),
{
    reveal(prefix_fits);
}

/// The places that were found are those of the schemes of the combiner.
#[verifier::opaque]
pub open spec fn found_places(view: CombinerView<ManualPos>, given: Seq<(Point, Rot)>) -> bool {
    &&& given.len() == view.schemes.len()
    &&& forall|j: int|
        0 <= j < given.len() ==> Some(#[trigger] given[j]) == view.positioner.placement(
            view.schemes,
            j,
        )
}

/// What `found_places` says of the scheme at place `k`.
pub proof fn lemma_found_place(view: CombinerView<ManualPos>, given: Seq<(Point, Rot)>, k: int)
    requires
        found_places(view, given),
        0 <= k < given.len(),
    ensures
        view.all_placed(),
        view.placed().len() == given.len(),
        view.placed()[k] == (Placed {
            name: view.schemes[k].0,
            pos: given[k].0,
            rot: given[k].1,
            scheme: view.schemes[k].1,
        }),
{
    reveal(found_places);
    assert forall|j: int| 0 <= j < view.schemes.len() implies view.positioner.placement(
        view.schemes,
        j,
    ) is Some by {
        assert(Some(given[j]) == view.positioner.placement(view.schemes, j));
    }
    assert(Some(given[k]) == view.positioner.placement(view.schemes, k));
}

/// Where the units of the first schemes fit and those of the next scheme
/// do, those of all of them do.
pub proof fn lemma_flat_fit_step(placed: Seq<Placed>, k: int)
    requires
        0 <= k,
        units_fit(flat_units(placed, k)),
        units_fit(units_of(placed, k)),
    ensures
        units_fit(flat_units(placed, k + 1)),
{
    let head = flat_units(placed, k);
    let last = units_of(placed, k);
    assert(flat_units(placed, k + 1) == head + last);
    assert forall|i: int| 0 <= i < (head + last).len() implies (#[trigger] (head + last)[i]).fits() by {
        if i < head.len() {
            assert(head[i].fits());
        } else {
            assert(last[i - head.len()].fits());
        }
    }
}

/// The placed schemes can be put together: their units can be counted,
/// every scheme can be moved to its place, and its units fit there.
pub open spec fn placed_fit(placed: Seq<Placed>) -> bool {
    &&& units_before(placed, placed.len() as int) <= usize::MAX
    &&& can_flatten(placed)
    &&& units_fit(flat_units(placed, placed.len() as int))
}

/// Tells whether the schemes that a positioner has placed can be put
/// together.
pub fn placed_can_be_compiled(placed: &Vec<(String, (Point, Rot, Scheme))>) -> (ok: bool)
    requires
        forall|i: int| 0 <= i < placed.len() ==> (#[trigger] placed[i]).1.2.wf(),
    ensures
        ok == placed_fit(placed_view(placed@)),
{
    let ghost all = placed_view(placed@);
    let n = placed.len();
    let mut start: usize = 0;
    let mut k: usize = 0;
    proof {
        lemma_prefix_none(all);
    }
    while k < n
        invariant
            k <= n,
            n == placed.len(),
            all == placed_view(placed@),
            all.len() == n,
            forall|i: int| 0 <= i < placed.len() ==> (#[trigger] placed[i]).1.2.wf(),
            start == units_before(all, k as int),
            prefix_fits(all, k as int),
        decreases n - k,
    {
        let scheme = &placed[k].1.2;
        proof {
            assert(placed[k as int].1.2.wf());
            assert(all[k as int].scheme == scheme@);
        }
        if !scheme.fits_at(start, placed[k].1.0, placed[k].1.1) {
            proof {
                lemma_prefix_fails(all, k as int);
            }
            return false;
        }
        proof {
            lemma_prefix_step(all, k as int);
        }
        if scheme.shapes.len() > usize::MAX - start {
            proof {
                lemma_units_before_grows(all, k + 1, n as int);
            }
            return false;
        }
        start = start + scheme.shapes.len();
        k += 1;
    }
    proof {
        lemma_prefix_all(all);
    }
    true
}

/// Tells whether the point map of every bind can be held in memory.
pub fn binds_can_be_compiled(binds: &Vec<Bind>) -> (ok: bool)
    ensures
        ok == binds_can_compile(binds_view(binds@)),
{
    let mut i: usize = 0;
    while i < binds.len()
        invariant
            i <= binds.len(),
            forall|j: int| 0 <= j < i ==> (#[trigger] binds_view(binds@)[j]).can_compile(),
        decreases binds.len() - i,
    {
        if !binds[i].can_be_compiled() {
            proof {
                assert(binds_view(binds@)[i as int] == binds@[i as int]@);
            }
            return false;
        }
        proof {
            assert(binds_view(binds@)[i as int] == binds@[i as int]@);
        }
        i += 1;
    }
    true
}

impl Combiner<ManualPos> {
    /// Tells whether nothing overflows while the combiner is compiled:
    /// whether `compile` can be called on a well-formed combiner. A
    /// combiner with a scheme that has no place can always be compiled:
    /// compiling fails at once.
    pub fn can_be_compiled(&self) -> (ok: bool)
        requires
            self.wf(),
        ensures
            ok == self@.can_compile(),
    {
        let ghost view = self@;
        let n = self.schemes.len();
        let mut given: Vec<(Point, Rot)> = Vec::new();
        let mut i: usize = 0;
        while i < n
            invariant
                i <= n,
                n == self.schemes.len(),
                view == self@,
                given.len() == i,
                forall|j: int|
                    0 <= j < i ==> Some(#[trigger] given@[j]) == view.positioner.placement(
                        view.schemes,
                        j,
                    ),
            decreases n - i,
        {
            proof {
                assert(view.schemes[i as int].0 == self.schemes@[i as int].0@);
            }
            match self.positioner.pose(&self.schemes[i].0) {
                Some((Some(pos), rot)) => {
                    given.push((pos, rot));
                },
                _ => {
                    proof {
                        assert(view.positioner.placement(view.schemes, i as int) is None);
                        assert(!view.all_placed());
                    }
                    return true;
                },
            }
            i += 1;
        }
        let ghost placed = view.placed();
        proof {
            reveal(found_places);
            assert(found_places(view, given@));
            if n > 0 {
                lemma_found_place(view, given@, 0);
            } else {
                assert(view.all_placed());
            }
            lemma_prefix_none(placed);
        }
        let mut start: usize = 0;
        let mut k: usize = 0;
        while k < n
            invariant
                k <= n,
                n == self.schemes.len(),
                n == given.len(),
                view == self@,
                self.wf(),
                placed == view.placed(),
                placed.len() == n,
                found_places(view, given@),
                start == units_before(placed, k as int),
                prefix_fits(placed, k as int),
            decreases n - k,
        {
            let scheme = &self.schemes[k].1;
            proof {
                assert(self.schemes@[k as int].1.wf());
                assert(view.schemes[k as int].1 == scheme@);
                lemma_found_place(view, given@, k as int);
            }
            if !scheme.fits_at(start, given[k].0, given[k].1) {
                proof {
                    lemma_prefix_fails(placed, k as int);
                }
                return false;
            }
            proof {
                lemma_prefix_step(placed, k as int);
            }
            if scheme.shapes.len() > usize::MAX - start {
                proof {
                    lemma_units_before_grows(placed, k + 1, n as int);
                }
                return false;
            }
            start = start + scheme.shapes.len();
            k += 1;
        }
        proof {
            lemma_prefix_all(placed);
        }
        binds_can_be_compiled(&self.inputs) && binds_can_be_compiled(&self.outputs)
    }
}

} // verus!
