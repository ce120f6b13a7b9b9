//! Positioners: what gives each scheme of a combiner its place.

use vstd::prelude::*;
use vstd::string::*;
use crate::scheme::{Scheme, SchemeView};
use crate::util::{opt_chars, Point, Rot};

verus! {

/// A scheme with its name, as a combiner holds it.
pub type Named = (Seq<char>, SchemeView);

/// The views of the named schemes of a combiner.
pub open spec fn named_view(schemes: Seq<(String, Scheme)>) -> Seq<Named> {
    Seq::new(schemes.len(), |i: int| (schemes[i].0@, schemes[i].1@))
}

/// Every scheme of the list is well-formed.
pub open spec fn schemes_wf(schemes: Seq<(String, Scheme)>) -> bool {
    forall|i: int| 0 <= i < schemes.len() ==> (#[trigger] schemes[i]).1.wf()
}

/// `Positioner` is an object, that gives each `Combiner`'s scheme a
/// position.
///
/// This is done using traits for customization possibilities.
pub trait Positioner: Sized {
    /// What the positioner reports when it cannot place a scheme.
    type Error;

    /// The place and the rotation that the positioner gives to the scheme
    /// at place `i` of `schemes`; `None` if it does not place that scheme.
    spec fn placement(&self, schemes: Seq<Named>, i: int) -> Option<(Point, Rot)>;

    /// `error` is what the positioner reports about `schemes`, some of
    /// which it does not place.
    spec fn reports(&self, schemes: Seq<Named>, error: Self::Error) -> bool;

    /// `self` is what `before` becomes when it is told that the scheme
    /// called `name` was added last.
    spec fn notified(&self, before: &Self, name: Seq<char>) -> bool;

    /// This function is called by `Combiner` and the name of the last
    /// added `Scheme` is passed. It changes no placement.
    fn set_last_scheme(&mut self, scheme_name: String)
        ensures
            final(self).notified(old(self), scheme_name@),
            forall|schemes: Seq<Named>, i: int| #[trigger]
                final(self).placement(schemes, i) == old(self).placement(schemes, i),
            forall|schemes: Seq<Named>, error: Self::Error| #[trigger]
                final(self).reports(schemes, error) == old(self).reports(schemes, error),
    ;

    /// Assigns physical positions and rotations to each of the schemes, in
    /// their order. Fails if one of them is not placed, and succeeds
    /// otherwise.
    fn arrange(self, schemes: Vec<(String, Scheme)>) -> (placed: Result<
        Vec<(String, (Point, Rot, Scheme))>,
        Self::Error,
    >)
        requires
            schemes_wf(schemes@),
        ensures
            placed is Ok <==> (forall|i: int|
                0 <= i < schemes.len() ==> self.placement(named_view(schemes@), i) is Some),
            placed matches Ok(list) ==> list.len() == schemes.len() && (forall|i: int|
                0 <= i < list.len() ==> (#[trigger] list[i]).0@ == schemes[i].0@ && list[i].1.2@
                    == schemes[i].1@ && list[i].1.2.wf() && list[i].1.1.valid() && Some(
                    (list[i].1.0, list[i].1.1),
                ) == self.placement(named_view(schemes@), i)),
            placed matches Err(error) ==> self.reports(named_view(schemes@), error),
    ;
}

/// Why [`ManualPos`] could not place a scheme. A failed arrangement holds
/// one of these for every scheme without a position.
#[derive(Debug)]
pub enum ManualPosError {
    /// The scheme was never mentioned to the positioner.
    SchemeIsNotPlaced { name: String },
    /// The scheme was rotated, but not placed.
    SchemeHasNoPosition { name: String },
}

/// [`Positioner`] with fully manual position management.
/// If any of the schemes is not positioned - error will be returned.
pub struct ManualPos {
    /// The schemes that were placed or rotated, each with its position, if
    /// it has one, and its rotation. No name occurs twice.
    pub poses: Vec<(String, (Option<Point>, Rot))>,
    pub last_scheme: Option<String>,
}

/// What [`ManualPos`] knows of a scheme.
pub type Pose = (Option<Point>, Rot);

/// The names and poses that a manual positioner holds.
pub open spec fn poses_view(poses: Seq<(String, Pose)>) -> Seq<(Seq<char>, Pose)> {
    Seq::new(poses.len(), |i: int| (poses[i].0@, poses[i].1))
}

/// The place of the first pose that is held under `name`.
pub open spec fn pose_position(poses: Seq<(Seq<char>, Pose)>, name: Seq<char>) -> Option<int>
    decreases poses.len(),
{
    if poses.len() == 0 {
        None
    } else if poses[0].0 == name {
        Some(0)
    } else {
        match pose_position(poses.drop_first(), name) {
            Some(i) => Some(i + 1),
            None => None,
        }
    }
}

/// The first `i` poses are not held under `name`, so the search goes on
/// behind them.
pub proof fn lemma_pose_position_scan(poses: Seq<(Seq<char>, Pose)>, name: Seq<char>, i: int)
    requires
        0 <= i <= poses.len(),
        forall|j: int| 0 <= j < i ==> (#[trigger] poses[j]).0 != name,
    ensures
        pose_position(poses, name) == match pose_position(poses.skip(i), name) {
            Some(k) => Some(k + i),
            None => None,
        },
    decreases i,
{
    if i == 0 {
        assert(poses.skip(0) =~= poses);
    } else {
        let rest = poses.drop_first();
        assert(poses[0].0 != name);
        assert forall|j: int| 0 <= j < i - 1 implies (#[trigger] rest[j]).0 != name by {
            assert(rest[j] == poses[j + 1]);
        }
        lemma_pose_position_scan(rest, name, i - 1);
        assert(rest.skip(i - 1) =~= poses.skip(i));
    }
}

/// A found position is a place of the list, and the pose there is held
/// under the name.
pub proof fn lemma_pose_position_range(poses: Seq<(Seq<char>, Pose)>, name: Seq<char>)
    ensures
        pose_position(poses, name) matches Some(i) ==> 0 <= i < poses.len() && poses[i].0 == name,
    decreases poses.len(),
{
    if poses.len() > 0 && poses[0].0 != name {
        lemma_pose_position_range(poses.drop_first(), name);
    }
}

/// The pose that is held under `name`.
pub open spec fn pose_of(poses: Seq<(Seq<char>, Pose)>, name: Seq<char>) -> Option<Pose> {
    match pose_position(poses, name) {
        Some(i) => Some(poses[i].1),
        None => None,
    }
}

/// The place and rotation that the poses give to the scheme called `name`.
pub open spec fn placed_at(poses: Seq<(Seq<char>, Pose)>, name: Seq<char>) -> Option<(Point, Rot)> {
    match pose_of(poses, name) {
        Some((Some(pos), rot)) => Some((pos, rot)),
        _ => None,
    }
}

/// The poses after the pose under `name` was set to `pose`: the pose takes
/// the place of the one held before, or comes last if there was none.
pub open spec fn with_pose(poses: Seq<(Seq<char>, Pose)>, name: Seq<char>, pose: Pose) -> Seq<
    (Seq<char>, Pose),
> {
    match pose_position(poses, name) {
        Some(i) => poses.update(i, (name, pose)),
        None => poses.push((name, pose)),
    }
}

/// The rotation that is held under `name`; no turn at all if nothing is
/// held.
pub open spec fn turn_of(poses: Seq<(Seq<char>, Pose)>, name: Seq<char>) -> Rot {
    match pose_of(poses, name) {
        Some(pose) => pose.1,
        None => Rot::of_angles(0, 0, 0),
    }
}

/// The position that is held under `name`, if any.
pub open spec fn place_of(poses: Seq<(Seq<char>, Pose)>, name: Seq<char>) -> Option<Point> {
    match pose_of(poses, name) {
        Some(pose) => pose.0,
        None => None,
    }
}

/// The poses after the scheme called `name` was placed at `at`: it keeps
/// its rotation.
pub open spec fn placed(poses: Seq<(Seq<char>, Pose)>, name: Seq<char>, at: Point) -> Seq<
    (Seq<char>, Pose),
> {
    with_pose(poses, name, (Some(at), turn_of(poses, name)))
}

/// The poses after the scheme called `name` was rotated by `by`: the
/// rotation is applied after the one it had, and it keeps its position.
pub open spec fn rotated(poses: Seq<(Seq<char>, Pose)>, name: Seq<char>, by: Rot) -> Seq<
    (Seq<char>, Pose),
> {
    with_pose(poses, name, (place_of(poses, name), by.after(turn_of(poses, name))))
}

/// The views of a list of names with places.
pub open spec fn places_view(pairs: Seq<(String, Point)>) -> Seq<(Seq<char>, Point)> {
    Seq::new(pairs.len(), |i: int| (pairs[i].0@, pairs[i].1))
}

/// The views of a list of names with rotations.
pub open spec fn turns_view(pairs: Seq<(String, Rot)>) -> Seq<(Seq<char>, Rot)> {
    Seq::new(pairs.len(), |i: int| (pairs[i].0@, pairs[i].1))
}

/// The poses after each scheme of the list was placed, one after the
/// other.
pub open spec fn placed_all(poses: Seq<(Seq<char>, Pose)>, pairs: Seq<(Seq<char>, Point)>) -> Seq<
    (Seq<char>, Pose),
>
    decreases pairs.len(),
{
    if pairs.len() == 0 {
        poses
    } else {
        placed(placed_all(poses, pairs.drop_last()), pairs.last().0, pairs.last().1)
    }
}

/// The poses after each scheme of the list was rotated, one after the
/// other.
pub open spec fn rotated_all(poses: Seq<(Seq<char>, Pose)>, pairs: Seq<(Seq<char>, Rot)>) -> Seq<
    (Seq<char>, Pose),
>
    decreases pairs.len(),
{
    if pairs.len() == 0 {
        poses
    } else {
        rotated(rotated_all(poses, pairs.drop_last()), pairs.last().0, pairs.last().1)
    }
}

/// What a scheme lacks, as a [`ManualPosError`] names it.
pub enum Lack {
    /// Nothing is held under the name.
    NotPlaced { name: Seq<char> },
    /// Only a rotation is held under the name.
    NoPosition { name: Seq<char> },
}

impl View for ManualPosError {
    type V = Lack;

    open spec fn view(&self) -> Lack {
        match *self {
            ManualPosError::SchemeIsNotPlaced { name } => Lack::NotPlaced { name: name@ },
            ManualPosError::SchemeHasNoPosition { name } => Lack::NoPosition { name: name@ },
        }
    }
}

/// The views of a list of errors.
pub open spec fn lacks_view(errors: Seq<ManualPosError>) -> Seq<Lack> {
    Seq::new(errors.len(), |i: int| errors[i]@)
}

/// What the scheme called `name` lacks: nothing if the poses give it a
/// position.
pub open spec fn lack_of(poses: Seq<(Seq<char>, Pose)>, name: Seq<char>) -> Option<Lack> {
    match pose_of(poses, name) {
        None => Some(Lack::NotPlaced { name }),
        Some((None, _)) => Some(Lack::NoPosition { name }),
        Some((Some(_), _)) => None,
    }
}

/// One entry for each scheme that the poses give no position to, in the
/// order of the schemes.
pub open spec fn lacks(poses: Seq<(Seq<char>, Pose)>, schemes: Seq<Named>) -> Seq<Lack>
    decreases schemes.len(),
{
    if schemes.len() == 0 {
        seq![]
    } else {
        let before = lacks(poses, schemes.drop_last());
        match lack_of(poses, schemes.last().0) {
            Some(lack) => before.push(lack),
            None => before,
        }
    }
}

/// Nothing is lacking exactly if every scheme has a position.
pub proof fn lemma_lacks_empty(poses: Seq<(Seq<char>, Pose)>, schemes: Seq<Named>)
    ensures
        lacks(poses, schemes).len() == 0 <==> (forall|i: int|
            0 <= i < schemes.len() ==> placed_at(poses, (#[trigger] schemes[i]).0) is Some),
        lacks(poses, schemes).len() <= schemes.len(),
    decreases schemes.len(),
{
    if schemes.len() > 0 {
        let front = schemes.drop_last();
        lemma_lacks_empty(poses, front);
        if lacks(poses, schemes).len() == 0 {
            assert forall|i: int| 0 <= i < schemes.len() implies placed_at(
                poses,
                (#[trigger] schemes[i]).0,
            ) is Some by {
                if i < front.len() {
                    assert(front[i] == schemes[i]);
                }
            }
        } else if lacks(poses, front).len() > 0 {
            let i = choose|i: int|
                0 <= i < front.len() && !(placed_at(poses, (#[trigger] front[i]).0) is Some);
            assert(front[i] == schemes[i]);
        } else {
            assert(placed_at(poses, schemes[schemes.len() - 1].0) is None);
        }
    }
}

impl ManualPos {
    /// What the positioner holds, by name.
    pub open spec fn view(&self) -> Seq<(Seq<char>, Pose)> {
        poses_view(self.poses@)
    }

    /// No name occurs twice, and every rotation is one of the 24.
    pub open spec fn wf(&self) -> bool {
        &&& forall|i: int, j: int|
            0 <= i < j < self.poses.len() ==> (#[trigger] self.view()[i]).0 != (
            #[trigger] self.view()[j]).0
        &&& forall|i: int| 0 <= i < self.poses.len() ==> (#[trigger] self.view()[i]).1.1.valid()
    }

    /// A positioner that has placed nothing.
    pub fn new() -> (pos: Self)
        ensures
            pos.wf(),
            pos.view() == Seq::<(Seq<char>, Pose)>::empty(),
            pos.last_scheme is None,
    {
        let pos = ManualPos { poses: Vec::new(), last_scheme: None };
        proof {
            assert(pos.view() =~= Seq::<(Seq<char>, Pose)>::empty());
        }
        pos
    }

    /// The place of the pose that is held under `name`.
    fn find(&self, name: &String) -> (index: Option<usize>)
        ensures
            match index {
                Some(i) => Some(i as int),
                None => None,
            } == pose_position(self.view(), name@),
            index matches Some(i) ==> i < self.poses.len(),
    {
        let ghost views = self.view();
        let mut i: usize = 0;
        while i < self.poses.len()
            invariant
                i <= self.poses.len(),
                views == self.view(),
                forall|j: int| 0 <= j < i ==> (#[trigger] views[j]).0 != name@,
            decreases self.poses.len() - i,
        {
            if self.poses[i].0 == *name {
                proof {
                    lemma_pose_position_scan(views, name@, i as int);
                    assert(views.skip(i as int)[0] == views[i as int]);
                }
                return Some(i);
            }
            i += 1;
        }
        proof {
            lemma_pose_position_scan(views, name@, i as int);
            assert(views.skip(i as int).len() == 0);
        }
        None
    }

    /// What the positioner holds of the scheme called `name`: its position,
    /// if it has one, and its rotation.
    pub fn pose(&self, name: &String) -> (pose: Option<Pose>)
        ensures
            pose == pose_of(self.view(), name@),
            pose matches Some(p) ==> p.1.valid(),
    {
        proof {
            lemma_pose_position_range(self.view(), name@);
        }
        match self.find(name) {
            Some(i) => {
                let rot = self.poses[i].1.1;
                rot.is_valid();
                proof {
                    assert(self.view()[i as int] == (self.poses@[i as int].0@, self.poses@[i as int].1));
                }
                Some((self.poses[i].1.0, rot))
            },
            None => None,
        }
    }


    /// Sets what is held under `name`.
    fn set(&mut self, name: String, pose: Pose)
        requires
            old(self).wf(),
            pose.1.valid(),
        ensures
            final(self).wf(),
            final(self).view() == with_pose(old(self).view(), name@, pose),
            final(self).last_scheme == old(self).last_scheme,
            pose_of(final(self).view(), name@) == Some(pose),
            forall|other: Seq<char>|
                other != name@ ==> pose_of(final(self).view(), other) == pose_of(
                    old(self).view(),
                    other,
                ),
    {
        let ghost before = self.view();
        proof {
            lemma_pose_position_range(before, name@);
        }
        match self.find(&name) {
            Some(i) => {
                self.poses.set(i, (name, pose));
                proof {
                    assert(self.view() =~= before.update(i as int, (name@, pose)));
                    lemma_updated_pose(before, name@, pose, i as int);
                }
            },
            None => {
                self.poses.push((name, pose));
                proof {
                    assert(self.view() =~= before.push((name@, pose)));
                    lemma_pushed_pose(before, name@, pose);
                    assert forall|i: int, j: int| 0 <= i < j < self.poses.len() implies (
                    #[trigger] self.view()[i]).0 != (#[trigger] self.view()[j]).0 by {
                        if j == before.len() {
                            assert(before[i] == self.view()[i]);
                            lemma_pose_position_scan(before, name@, 0);
                            lemma_absent(before, name@, i);
                        } else {
                            assert(before[i] == self.view()[i]);
                            assert(before[j] == self.view()[j]);
                        }
                    }
                }
            },
        }
        proof {
            assert forall|i: int| 0 <= i < self.poses.len() implies (
            #[trigger] self.view()[i]).1.1.valid() by {
                if i < before.len() && self.view()[i] != (name@, pose) {
                    assert(before[i] == self.view()[i]);
                }
            }
        }
    }

    /// Places scheme with equal name to the given position.
    pub fn place(&mut self, name: String, at: Point)
        requires
            old(self).wf(),
        ensures
            final(self).wf(),
            final(self).last_scheme == old(self).last_scheme,
            final(self).view() == placed(old(self).view(), name@, at),
            pose_of(final(self).view(), name@) == Some((Some(at), turn_of(old(self).view(), name@))),
            forall|other: Seq<char>|
                other != name@ ==> pose_of(final(self).view(), other) == pose_of(
                    old(self).view(),
                    other,
                ),
    {
        proof {
            lemma_pose_position_range(self.view(), name@);
        }
        let rot = match self.find(&name) {
            Some(i) => {
                proof {
                    assert(self.view()[i as int].1.1.valid());
                }
                self.poses[i].1.1
            },
            None => Rot::new(0, 0, 0),
        };
        self.set(name, (Some(at), rot));
    }

    /// Places multiple schemes to the given position.
    /// '`Pairs`' should be a list of pairs in format '`(name, position)`'.
    pub fn place_iter(&mut self, pairs: Vec<(String, Point)>)
        requires
            old(self).wf(),
        ensures
            final(self).wf(),
            final(self).last_scheme == old(self).last_scheme,
            final(self).view() == placed_all(old(self).view(), places_view(pairs@)),
    {
        let ghost first = self.view();
        let ghost all = places_view(pairs@);
        let mut i: usize = 0;
        proof {
            assert(all.take(0).len() == 0);
        }
        while i < pairs.len()
            invariant
                i <= pairs.len(),
                self.wf(),
                self.last_scheme == old(self).last_scheme,
                all == places_view(pairs@),
                self.view() == placed_all(first, all.take(i as int)),
            decreases pairs.len() - i,
        {
            proof {
                assert(all.take(i + 1).drop_last() =~= all.take(i as int));
                assert(all.take(i + 1).last() == (pairs@[i as int].0@, pairs@[i as int].1));
            }
            self.place(pairs[i].0.clone(), pairs[i].1);
            i += 1;
        }
        proof {
            assert(all.take(i as int) =~= all);
        }
    }

    /// Places last added scheme to the given position. There has to be
    /// one.
    pub fn place_last(&mut self, at: Point)
        requires
            old(self).wf(),
            old(self).last_scheme is Some,
        ensures
            final(self).wf(),
            final(self).last_scheme == old(self).last_scheme,
            final(self).view() == placed(old(self).view(), old(self).last_scheme->0@, at),
    {
        let name = match &self.last_scheme {
            Some(name) => name.clone(),
            None => String::new(),
        };
        self.place(name, at)
    }

    /// Rotates given scheme by given angle ([`Rot`]).
    pub fn rotate(&mut self, name: String, by: Rot)
        requires
            old(self).wf(),
        ensures
            final(self).wf(),
            final(self).last_scheme == old(self).last_scheme,
            final(self).view() == rotated(old(self).view(), name@, by),
            pose_of(final(self).view(), name@) == Some(
                (place_of(old(self).view(), name@), by.after(turn_of(old(self).view(), name@))),
            ),
            forall|other: Seq<char>|
                other != name@ ==> pose_of(final(self).view(), other) == pose_of(
                    old(self).view(),
                    other,
                ),
    {
        proof {
            lemma_pose_position_range(self.view(), name@);
        }
        let (pos, rot) = match self.find(&name) {
            Some(i) => {
                proof {
                    assert(self.view()[i as int].1.1.valid());
                }
                (self.poses[i].1.0, self.poses[i].1.1)
            },
            None => (None, Rot::new(0, 0, 0)),
        };
        let turned = by.apply_to_rot(rot);
        self.set(name, (pos, turned));
    }

    /// Applies self.rotate method to each pair of (name, rot) pairs.
    pub fn rotate_iter(&mut self, pairs: Vec<(String, Rot)>)
        requires
            old(self).wf(),
        ensures
            final(self).wf(),
            final(self).last_scheme == old(self).last_scheme,
            final(self).view() == rotated_all(old(self).view(), turns_view(pairs@)),
    {
        let ghost first = self.view();
        let ghost all = turns_view(pairs@);
        let mut i: usize = 0;
        proof {
            assert(all.take(0).len() == 0);
        }
        while i < pairs.len()
            invariant
                i <= pairs.len(),
                self.wf(),
                self.last_scheme == old(self).last_scheme,
                all == turns_view(pairs@),
                self.view() == rotated_all(first, all.take(i as int)),
            decreases pairs.len() - i,
        {
            proof {
                assert(all.take(i + 1).drop_last() =~= all.take(i as int));
                assert(all.take(i + 1).last() == (pairs@[i as int].0@, pairs@[i as int].1));
            }
            self.rotate(pairs[i].0.clone(), pairs[i].1);
            i += 1;
        }
        proof {
            assert(all.take(i as int) =~= all);
        }
    }

    /// Rotates last added scheme by given angle ([`Rot`]). There has to be
    /// one.
    pub fn rotate_last(&mut self, by: Rot)
        requires
            old(self).wf(),
            old(self).last_scheme is Some,
        ensures
            final(self).wf(),
            final(self).last_scheme == old(self).last_scheme,
            final(self).view() == rotated(old(self).view(), old(self).last_scheme->0@, by),
    {
        let name = match &self.last_scheme {
            Some(name) => name.clone(),
            None => String::new(),
        };
        self.rotate(name, by)
    }
}

/// A name that is not found is the name of no pose.
pub proof fn lemma_absent(poses: Seq<(Seq<char>, Pose)>, name: Seq<char>, i: int)
    requires
        pose_position(poses, name) is None,
        0 <= i < poses.len(),
    ensures
        poses[i].0 != name,
    decreases poses.len(),
{
    if i > 0 {
        lemma_absent(poses.drop_first(), name, i - 1);
    }
}

/// What is found after a new pose was added at the end.
pub proof fn lemma_pushed_pose(poses: Seq<(Seq<char>, Pose)>, name: Seq<char>, pose: Pose)
    requires
        pose_position(poses, name) is None,
    ensures
        pose_of(poses.push((name, pose)), name) == Some(pose),
        forall|other: Seq<char>|
            other != name ==> pose_of(poses.push((name, pose)), other) == pose_of(poses, other),
{
    let after = poses.push((name, pose));
    assert forall|j: int| 0 <= j < poses.len() implies (#[trigger] after[j]).0 != name by {
        lemma_absent(poses, name, j);
    }
    lemma_pose_position_scan(after, name, poses.len() as int);
    assert(after.skip(poses.len() as int)[0] == (name, pose));
    assert forall|other: Seq<char>| other != name implies pose_of(after, other) == pose_of(
        poses,
        other,
    ) by {
        lemma_push_other(poses, (name, pose), other);
    }
}

/// A pose added at the end under another name changes nothing of what is
/// found under `other`.
pub proof fn lemma_push_other(poses: Seq<(Seq<char>, Pose)>, added: (Seq<char>, Pose), other: Seq<char>)
    requires
        added.0 != other,
    ensures
        pose_position(poses.push(added), other) == pose_position(poses, other),
        pose_of(poses.push(added), other) == pose_of(poses, other),
    decreases poses.len(),
{
    let after = poses.push(added);
    if poses.len() == 0 {
        assert(after.drop_first() =~= Seq::empty());
    } else {
        assert(after.drop_first() =~= poses.drop_first().push(added));
        if poses[0].0 != other {
            lemma_push_other(poses.drop_first(), added, other);
        }
    }
    lemma_pose_position_range(poses, other);
}

/// What is found after the pose at place `i`, held under `name`, was
/// replaced.
pub proof fn lemma_updated_pose(poses: Seq<(Seq<char>, Pose)>, name: Seq<char>, pose: Pose, i: int)
    requires
        pose_position(poses, name) == Some(i),
        0 <= i < poses.len(),
    ensures
        pose_of(poses.update(i, (name, pose)), name) == Some(pose),
        forall|other: Seq<char>|
            other != name ==> pose_of(poses.update(i, (name, pose)), other) == pose_of(poses, other),
        forall|j: int| 0 <= j < poses.len() ==> (#[trigger] poses.update(i, (name, pose))[j]).0 == poses[j].0,
{
    let after = poses.update(i, (name, pose));
    lemma_pose_position_range(poses, name);
    assert forall|other: Seq<char>| pose_position(after, other) == pose_position(poses, other) by {
        lemma_same_names(poses, after, other);
    }
    assert forall|other: Seq<char>| other != name implies pose_of(after, other) == pose_of(
        poses,
        other,
    ) by {
        lemma_pose_position_range(poses, other);
    }
}

/// Lists with the same names, place by place, find every name at the same
/// place.
pub proof fn lemma_same_names(a: Seq<(Seq<char>, Pose)>, b: Seq<(Seq<char>, Pose)>, name: Seq<char>)
    requires
        a.len() == b.len(),
        forall|j: int| 0 <= j < a.len() ==> (#[trigger] a[j]).0 == b[j].0,
    ensures
        pose_position(a, name) == pose_position(b, name),
    decreases a.len(),
{
    if a.len() > 0 {
        assert(a[0].0 == b[0].0);
        let a0 = a.drop_first();
        let b0 = b.drop_first();
        assert forall|j: int| 0 <= j < a0.len() implies (#[trigger] a0[j]).0 == b0[j].0 by {
            assert(a0[j] == a[j + 1]);
        }
        lemma_same_names(a0, b0, name);
    }
}

impl Positioner for ManualPos {
    type Error = Vec<ManualPosError>;

    open spec fn placement(&self, schemes: Seq<Named>, i: int) -> Option<(Point, Rot)> {
        placed_at(self.view(), schemes[i].0)
    }

    open spec fn reports(&self, schemes: Seq<Named>, error: Vec<ManualPosError>) -> bool {
        lacks_view(error@) == lacks(self.view(), schemes)
    }

    open spec fn notified(&self, before: &ManualPos, name: Seq<char>) -> bool {
        self.poses == before.poses && opt_chars(self.last_scheme) == Some(name)
    }

    fn set_last_scheme(&mut self, scheme_name: String) {
        self.last_scheme = Some(scheme_name);
    }

    fn arrange(self, schemes: Vec<(String, Scheme)>) -> (placed: Result<
        Vec<(String, (Point, Rot, Scheme))>,
        Vec<ManualPosError>,
    >) {
        let ghost named = named_view(schemes@);
        let ghost poses = self.view();
        let n = schemes.len();
        // What each scheme is given, found before any scheme is moved.
        let mut given: Vec<(Point, Rot)> = Vec::new();
        let mut errors: Vec<ManualPosError> = Vec::new();
        let mut i: usize = 0;
        proof {
            assert(named.take(0) =~= Seq::<Named>::empty());
            assert(lacks_view(errors@) =~= lacks(poses, named.take(0)));
        }
        while i < n
            invariant
                i <= n,
                n == schemes.len(),
                named == named_view(schemes@),
                poses == self.view(),
                lacks_view(errors@) == lacks(poses, named.take(i as int)),
                errors.len() == 0 ==> given.len() == i,
                given.len() <= i,
                forall|j: int|
                    0 <= j < given.len() && j < i ==> Some(#[trigger] given[j]) == placed_at(
                        poses,
                        named[j].0,
                    ) && given[j].1.valid(),
            decreases n - i,
        {
            let ghost held = errors@;
            proof {
                lemma_pose_position_range(poses, named[i as int].0);
                assert(named[i as int].0 == schemes@[i as int].0@);
                assert(named.take(i + 1).drop_last() =~= named.take(i as int));
                assert(named.take(i + 1).last() == named[i as int]);
            }
            match self.find(&schemes[i].0) {
                None => {
                    errors.push(ManualPosError::SchemeIsNotPlaced { name: schemes[i].0.clone() });
                    proof {
                        assert(lacks_view(errors@) =~= lacks_view(held).push(
                            Lack::NotPlaced { name: named[i as int].0 },
                        ));
                    }
                },
                Some(at) => {
                    let rot = self.poses[at].1.1;
                    proof {
                        assert(poses[at as int] == (
                            self.poses@[at as int].0@,
                            self.poses@[at as int].1,
                        ));
                    }
                    match self.poses[at].1.0 {
                        None => {
                            errors.push(
                                ManualPosError::SchemeHasNoPosition { name: schemes[i].0.clone() },
                            );
                            proof {
                                assert(lacks_view(errors@) =~= lacks_view(held).push(
                                    Lack::NoPosition { name: named[i as int].0 },
                                ));
                            }
                        },
                        Some(pos) => {
                            rot.is_valid();
                            proof {
                                assert(placed_at(poses, named[i as int].0) == Some((pos, rot)));
                            }
                            if errors.len() == 0 {
                                given.push((pos, rot));
                            }
                        },
                    }
                },
            }
            i += 1;
        }
        proof {
            assert(named.take(n as int) =~= named);
            lemma_lacks_empty(poses, named);
            assert(lacks_view(errors@).len() == errors.len());
        }
        if errors.len() > 0 {
            proof {
                if forall|j: int| 0 <= j < schemes.len() ==> self.placement(named, j) is Some {
                    assert forall|j: int| 0 <= j < named.len() implies placed_at(
                        poses,
                        (#[trigger] named[j]).0,
                    ) is Some by {
                        assert(self.placement(named, j) is Some);
                    }
                }
            }
            return Err(errors);
        }
        proof {
            assert(schemes@.take(n as int) =~= schemes@);
        }
        let mut rest = schemes;
        let mut turned: Vec<(String, (Point, Rot, Scheme))> = Vec::new();
        let mut k: usize = n;
        while k > 0
            invariant
                k <= n,
                n == given.len(),
                n == schemes.len(),
                rest@ == schemes@.take(k as int),
                schemes_wf(schemes@),
                turned.len() == n - k,
                forall|j: int|
                    0 <= j < n - k ==> (#[trigger] turned[j]).0@ == schemes[n - 1 - j].0@ && turned[j].1.2@
                        == schemes[n - 1 - j].1@ && turned[j].1.2.wf() && (turned[j].1.0, turned[j].1.1)
                        == given[n - 1 - j],
            decreases k,
        {
            let last = rest.pop();
            k -= 1;
            match last {
                Some((name, scheme)) => {
                    proof {
                        assert(schemes@.take(k + 1).last() == schemes@[k as int]);
                        assert(schemes@[k as int].1.wf());
                        assert(schemes@.take(k + 1).drop_last() =~= schemes@.take(k as int));
                    }
                    turned.push((name, (given[k].0, given[k].1, scheme)));
                },
                None => {
                    proof {
                        assert(false);
                    }
                },
            }
        }
        let mut list: Vec<(String, (Point, Rot, Scheme))> = Vec::new();
        let mut m: usize = n;
        while m > 0
            invariant
                m <= n,
                turned.len() == m,
                list.len() == n - m,
                n == given.len(),
                n == schemes.len(),
                forall|j: int|
                    0 <= j < m ==> (#[trigger] turned[j]).0@ == schemes[n - 1 - j].0@ && turned[j].1.2@
                        == schemes[n - 1 - j].1@ && turned[j].1.2.wf() && (turned[j].1.0, turned[j].1.1)
                        == given[n - 1 - j],
                forall|j: int|
                    0 <= j < n - m ==> (#[trigger] list[j]).0@ == schemes[j].0@ && list[j].1.2@
                        == schemes[j].1@ && list[j].1.2.wf() && (list[j].1.0, list[j].1.1) == given[j],
            decreases m,
        {
            let ghost before = turned@;
            let last = turned.pop();
            m -= 1;
            match last {
                Some(item) => {
                    proof {
                        assert(item == before[m as int]);
                        assert forall|j: int| 0 <= j < m implies (#[trigger] turned[j]).0@
                            == schemes[n - 1 - j].0@ && turned[j].1.2@ == schemes[n - 1 - j].1@
                            && turned[j].1.2.wf() && (turned[j].1.0, turned[j].1.1) == given[n - 1
                            - j] by {
                            assert(turned[j] == before[j]);
                        }
                    }
                    list.push(item);
                },
                None => {
                    proof {
                        assert(false);
                    }
                },
            }
        }
        proof {
            assert forall|j: int| 0 <= j < list.len() implies (#[trigger] list[j]).1.1.valid()
                && Some((list[j].1.0, list[j].1.1)) == self.placement(named, j) by {
                assert(Some(given[j]) == placed_at(poses, named[j].0));
            }
        }
        Ok(list)
    }
}

} // verus!
