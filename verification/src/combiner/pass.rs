//! Passing slots of inner schemes on as slots of the scheme in the making,
//! and adding several schemes at once.

use vstd::prelude::*;
use vstd::string::*;
use crate::bind::{declares, segment, Bind, BindView, DeclaredSector, EntryView};
use crate::combiner::flatten::side_slots;
use crate::combiner::{
    bind_named, check_name_validity, lemma_named_position_range, named_position, tip_no_scheme,
    tip_no_slot, tip_text, Combiner, CombinerView, Error, SlotSide, TIP_CLOSE_BRACKET,
    TIP_CLOSE_QUOTE, TIP_INPUT_TAKEN, TIP_INPUT_TAKEN_IN, TIP_NAME, TIP_NO_SCHEME_HEAD,
    TIP_OUTPUT_TAKEN, TIP_OUTPUT_TAKEN_IN, TIP_SCHEME_NAME, TIP_SCHEME_NAME_IN, TIP_SCHEME_TAKEN,
    TIP_SCHEME_TAKEN_IN,
    TIP_NO_SCHEME_IN, TIP_NO_SCHEME_IN_TAIL, TIP_NO_SCHEME_TAIL, TIP_NO_SLOT_HEAD, TIP_NO_SLOT_IN,
    TIP_NO_SLOT_IN_TAIL, TIP_NO_SLOT_TAIL, TIP_SEPARATOR,
};
use crate::connection::{ConnStraight, Connection};
use crate::positioner::{named_view, schemes_wf, Named, Positioner};
use crate::scheme::{
    find_slot_sector, lemma_slot_position_range, slot_and_sector, slot_name, slot_position,
    slots_view, Scheme, SchemeView,
};
use crate::slot::{sector_fits, SectorView, Slot, SlotSector, SlotView};
use crate::util::{
    lemma_token_end, lemma_token_end_scan, opt_chars, reversed, split_first_token, split_token,
    token_end, Bounds, Point,
};

verus! {

/// What a pass leads to: the place of the scheme, the place of the slot
/// among the slots of its side, and the sector.
pub struct PassTarget {
    pub scheme: int,
    pub slot: int,
    pub sector: SectorView,
}

/// The sectors of a slot, but for the slot itself, as sectors that a bind
/// declares.
pub open spec fn inherited(slot: SlotView) -> Seq<DeclaredSector> {
    Seq::new(
        (slot.sectors.len() - 1) as nat,
        |i: int|
            DeclaredSector {
                name: slot.sectors[i + 1].0,
                pos: slot.sectors[i + 1].1.pos,
                bounds: slot.sectors[i + 1].1.bounds,
                kind: slot.sectors[i + 1].1.kind,
            },
    )
}

/// The sector is the whole of its slot.
pub open spec fn covers(sector: SectorView, slot: SlotView) -> bool {
    sector.pos == (Point { x: 0, y: 0, z: 0 }) && sector.bounds == slot.bounds
}

impl<P: Positioner> CombinerView<P> {
    /// The name of the scheme that a pass names.
    pub open spec fn pass_scheme(path: Seq<char>) -> Seq<char> {
        split_token(path).0
    }

    /// The path of the slot, and maybe the sector, that a pass names inside
    /// its scheme.
    pub open spec fn pass_slot(path: Seq<char>) -> Seq<char> {
        segment(split_token(path).1)
    }

    /// What the pass of the slot at `path` leads to, if it leads anywhere.
    pub open spec fn pass_target(self, path: Seq<char>, side: SlotSide) -> Option<PassTarget> {
        match named_position(self.schemes, Self::pass_scheme(path)) {
            None => None,
            Some(i) => match slot_and_sector(
                side_slots(self.schemes[i].1, side),
                Self::pass_slot(path),
            ) {
                None => None,
                Some((s, sector)) => Some(PassTarget { scheme: i, slot: s, sector }),
            },
        }
    }

    /// The bind that passes the slot at `path` on under the name `name`:
    /// it has the size of what it passes on, the given kind or else that of
    /// the slot, is connected point by point to what it passes on, and,
    /// where it passes on a whole slot, declares the sectors of that slot.
    pub open spec fn pass_bind(
        self,
        name: Seq<char>,
        path: Seq<char>,
        new_kind: Option<Seq<char>>,
        side: SlotSide,
    ) -> BindView {
        let target = self.pass_target(path, side)->0;
        let slot = side_slots(self.schemes[target.scheme].1, side)[target.slot];
        BindView {
            name,
            kind: match new_kind {
                Some(kind) => kind,
                None => slot.kind,
            },
            size: target.sector.bounds,
            sectors: if covers(target.sector, slot) {
                inherited(slot)
            } else {
                Seq::empty()
            },
            maps: seq![
                EntryView {
                    corner: Point { x: 0, y: 0, z: 0 },
                    size: target.sector.bounds,
                    target: path,
                    conn: Connection::Straight(ConnStraight {  }),
                },
            ],
        }
    }

    /// The tip of the error about a pass that leads nowhere.
    pub open spec fn pass_tip(self, path: Seq<char>) -> Seq<char> {
        if named_position(self.schemes, Self::pass_scheme(path)) is None {
            tip_no_scheme(Self::pass_scheme(path), self.debug_name)
        } else {
            tip_no_slot(Self::pass_scheme(path), Self::pass_slot(path), self.debug_name)
        }
    }
}

/// Writes the tip about a scheme that does not exist.
fn write_no_scheme(scheme: &String, debug_name: &Option<String>) -> (tip: String)
    ensures
        tip@ == tip_no_scheme(scheme@, opt_chars(*debug_name)),
{
    let mut tip = TIP_NO_SCHEME_HEAD.to_owned();
    tip.append(scheme.as_str());
    match debug_name {
        None => {
            tip.append(TIP_NO_SCHEME_TAIL);
        },
        Some(name) => {
            tip.append(TIP_NO_SCHEME_IN);
            tip.append(name.as_str());
            tip.append(TIP_NO_SCHEME_IN_TAIL);
        },
    }
    tip
}

/// Writes the tip about a slot that does not exist.
fn write_no_slot(scheme: &String, slot: &String, debug_name: &Option<String>) -> (tip: String)
    ensures
        tip@ == tip_no_slot(scheme@, slot@, opt_chars(*debug_name)),
{
    let mut tip = TIP_NO_SLOT_HEAD.to_owned();
    tip.append(scheme.as_str());
    tip.append(TIP_SEPARATOR);
    tip.append(slot.as_str());
    match debug_name {
        None => {
            tip.append(TIP_NO_SLOT_TAIL);
        },
        Some(name) => {
            tip.append(TIP_NO_SLOT_IN);
            tip.append(name.as_str());
            tip.append(TIP_NO_SLOT_IN_TAIL);
        },
    }
    tip
}

/// Declares the sectors of `slot`, but for the slot itself, as sectors of
/// `bind`, which has the size of the slot.
fn inherit_sectors(bind: &mut Bind, slot: &Slot)
    requires
        slot.wf(),
        old(bind)@.wf(),
        old(bind)@.sectors.len() == 0,
        old(bind)@.size == slot@.bounds,
    ensures
        final(bind)@.wf(),
        final(bind)@ == (BindView { sectors: inherited(slot@), ..old(bind)@ }),
{
    let ghost first = bind@;
    let ghost all = inherited(slot@);
    let n = slot.sectors.len();
    let mut i: usize = 1;
    proof {
        assert(bind@.sectors =~= all.take(0));
    }
    while i < n
        invariant
            1 <= i <= n,
            n == slot.sectors.len(),
            slot.wf(),
            all == inherited(slot@),
            bind@.wf(),
            bind@ == (BindView { sectors: all.take(i - 1), ..first }),
            first.size == slot@.bounds,
        decreases n - i,
    {
        let ghost before = bind@;
        let item = &slot.sectors[i];
        proof {
            let name = slot@.sectors[i as int].0;
            assert(slot@.sectors[i as int] == (item.0@, item.1@));
            assert(slot@.sectors[0].0 != slot@.sectors[i as int].0);
            if name.len() == 0 {
                assert(name =~= Seq::<char>::empty());
            }
            assert(name.len() > 0);
            assert(sector_fits(item.1.pos, item.1.bounds, slot@.bounds));
            assert(!declares(before.sectors, name)) by {
                if declares(before.sectors, name) {
                    let j = choose|j: int|
                        0 <= j < before.sectors.len() && (#[trigger] before.sectors[j]).name == name;
                    assert(before.sectors[j] == all[j]);
                    assert(slot@.sectors[j + 1].0 != slot@.sectors[i as int].0);
                }
            }
        }
        let done = bind.add_sector(item.0.clone(), item.1.pos, item.1.bounds, item.1.kind.clone());
        proof {
            assert(done is Ok);
            assert(bind@.sectors =~= all.take(i as int));
        }
        i += 1;
    }
    proof {
        assert(all.take(n - 1) =~= all);
    }
}

impl<P: Positioner> Combiner<P> {
    /// Makes the bind that passes a slot of an inner scheme on. The target
    /// is looked up at once: without it the bind cannot be made.
    pub fn parse_pass_data(
        &self,
        name: String,
        path: String,
        new_kind: Option<String>,
        side: SlotSide,
    ) -> (made: Result<Bind, Error>)
        requires
            self.wf(),
        ensures
            made is Ok <==> self@.pass_target(path@, side) is Some,
            made matches Ok(bind) ==> bind@.wf() && bind@ == self@.pass_bind(
                name@,
                path@,
                opt_chars(new_kind),
                side,
            ),
            made matches Err(e) ==> e matches Error::PassHasInvalidTarget { pass_name, pass_side, tip }
                && pass_name@ == name@ && pass_side == side && tip@ == self@.pass_tip(path@),
    {
        let (scheme_name, slot_name) = split_first_token(path.clone());
        let slot_name = match slot_name {
            None => String::new(),
            Some(name) => name,
        };
        proof {
            lemma_named_position_range(self@.schemes, scheme_name@);
        }
        let at = match self.find_scheme(&scheme_name) {
            None => {
                return Err(
                    Error::PassHasInvalidTarget {
                        pass_name: name,
                        pass_side: side,
                        tip: write_no_scheme(&scheme_name, &self.debug_name),
                    },
                );
            },
            Some(at) => at,
        };
        let scheme = &self.schemes[at].1;
        proof {
            assert(self@.schemes[at as int] == (self.schemes@[at as int].0@, scheme@));
            assert(scheme.wf());
        }
        let slot = match side {
            SlotSide::Input => scheme.input(slot_name.clone()),
            SlotSide::Output => scheme.output(slot_name.clone()),
        };
        let (slot, sector) = match slot {
            None => {
                return Err(
                    Error::PassHasInvalidTarget {
                        pass_name: name,
                        pass_side: side,
                        tip: write_no_slot(&scheme_name, &slot_name, &self.debug_name),
                    },
                );
            },
            Some(values) => values,
        };
        proof {
            let slots = side_slots(scheme@, side);
            let found = slot_and_sector(slots, slot_name@)->0;
            assert(slot@ == slots[found.0]);
            assert(slot.wf()) by {
                match side {
                    SlotSide::Input => {
                        assert(scheme.inputs@[found.0].wf());
                    },
                    SlotSide::Output => {
                        assert(scheme.outputs@[found.0].wf());
                    },
                }
            }
        }
        let kind = match new_kind {
            Some(new_kind) => new_kind,
            None => slot.kind.clone(),
        };
        let mut bind = Bind::new(name, kind, sector.bounds);
        if sector.pos.x == 0 && sector.pos.y == 0 && sector.pos.z == 0 && sector.bounds.x
            == slot.bounds.x && sector.bounds.y == slot.bounds.y && sector.bounds.z
            == slot.bounds.z {
            inherit_sectors(&mut bind, slot);
        }
        bind.connect_full(path);
        proof {
            assert(bind@.maps =~= self@.pass_bind(name@, path@, opt_chars(new_kind), side).maps);
        }
        Ok(bind)
    }

    /// Copies input from inner scheme, but name and kind might be
    /// replaced: a new input slot called `name` is made that leads to the
    /// slot at `path`. A refused call changes nothing.
    pub fn pass_input(&mut self, name: String, path: String, new_kind: Option<String>) -> (done:
        Result<(), Error>)
        requires
            old(self).wf(),
        ensures
            final(self).wf(),
            final(self).schemes == old(self).schemes,
            done is Ok <==> (!name@.contains('/') && old(self)@.pass_target(path@, SlotSide::Input)
                is Some && !bind_named(old(self)@.inputs, name@)),
            done is Ok ==> final(self)@ == (CombinerView {
                inputs: old(self)@.inputs.push(
                    old(self)@.pass_bind(name@, path@, opt_chars(new_kind), SlotSide::Input),
                ),
                ..old(self)@
            }),
            done is Err ==> final(self)@ == old(self)@,
            done matches Err(e) ==> match e {
                Error::InvalidName { invalid_name, tip } => name@.contains('/') && invalid_name@
                    == name@ && tip@ == TIP_NAME@,
                Error::PassHasInvalidTarget { pass_name, pass_side, tip } => !name@.contains('/')
                    && old(self)@.pass_target(path@, SlotSide::Input) is None && pass_name@
                    == name@ && pass_side == SlotSide::Input && tip@ == old(self)@.pass_tip(path@),
                Error::NameWasAlreadyTaken { taken_name, tip } => !name@.contains('/') && old(self)@.pass_target(path@, SlotSide::Input) is Some && taken_name@ == name@,
                _ => false,
            },
    {
        match check_name_validity(&name) {
            Err(e) => {
                return Err(e);
            },
            Ok(()) => {},
        }
        let bind = match self.parse_pass_data(name, path, new_kind, SlotSide::Input) {
            Err(e) => {
                return Err(e);
            },
            Ok(bind) => bind,
        };
        self.bind_input(bind)
    }

    /// Copies output from inner scheme, but name and kind might be
    /// replaced: a new output slot called `name` is made that leads to
    /// the slot at `path`. A refused call changes nothing.
    pub fn pass_output(&mut self, name: String, path: String, new_kind: Option<String>) -> (done:
        Result<(), Error>)
        requires
            old(self).wf(),
        ensures
            final(self).wf(),
            final(self).schemes == old(self).schemes,
            done is Ok <==> (!name@.contains('/') && old(self)@.pass_target(path@, SlotSide::Output)
                is Some && !bind_named(old(self)@.outputs, name@)),
            done is Ok ==> final(self)@ == (CombinerView {
                outputs: old(self)@.outputs.push(
                    old(self)@.pass_bind(name@, path@, opt_chars(new_kind), SlotSide::Output),
                ),
                ..old(self)@
            }),
            done is Err ==> final(self)@ == old(self)@,
            done matches Err(e) ==> match e {
                Error::InvalidName { invalid_name, tip } => name@.contains('/') && invalid_name@
                    == name@ && tip@ == TIP_NAME@,
                Error::PassHasInvalidTarget { pass_name, pass_side, tip } => !name@.contains('/')
                    && old(self)@.pass_target(path@, SlotSide::Output) is None && pass_name@
                    == name@ && pass_side == SlotSide::Output && tip@ == old(self)@.pass_tip(path@),
                Error::NameWasAlreadyTaken { taken_name, tip } => !name@.contains('/') && old(self)@.pass_target(path@, SlotSide::Output) is Some && taken_name@ == name@,
                _ => false,
            },
    {
        match check_name_validity(&name) {
            Err(e) => {
                return Err(e);
            },
            Ok(()) => {},
        }
        let bind = match self.parse_pass_data(name, path, new_kind, SlotSide::Output) {
            Err(e) => {
                return Err(e);
            },
            Ok(bind) => bind,
        };
        self.bind_output(bind)
    }
}

/// The schemes after each scheme of `more` was added whose name holds no
/// path separator and was not taken yet.
pub open spec fn added_all(schemes: Seq<Named>, more: Seq<Named>) -> Seq<Named>
    decreases more.len(),
{
    if more.len() == 0 {
        schemes
    } else {
        let before = added_all(schemes, more.drop_last());
        if more.last().0.contains('/') || named_position(before, more.last().0) is Some {
            before
        } else {
            before.push(more.last())
        }
    }
}

/// Why a scheme is not added.
pub enum Refusal {
    /// Its name holds the path separator.
    InvalidName,
    /// Its name is that of a scheme that was added before.
    TakenName,
}

/// What stands against adding a scheme called `name`, if anything.
pub open spec fn refusal(schemes: Seq<Named>, name: Seq<char>) -> Option<Refusal> {
    if name.contains('/') {
        Some(Refusal::InvalidName)
    } else if named_position(schemes, name) is Some {
        Some(Refusal::TakenName)
    } else {
        None
    }
}

/// The schemes of `more` that are refused when they are added one after
/// the other: the name of each, and why it is refused.
pub open spec fn refusals(schemes: Seq<Named>, more: Seq<Named>) -> Seq<(Seq<char>, Refusal)>
    decreases more.len(),
{
    if more.len() == 0 {
        Seq::empty()
    } else {
        let before = refusals(schemes, more.drop_last());
        match refusal(added_all(schemes, more.drop_last()), more.last().0) {
            Some(why) => before.push((more.last().0, why)),
            None => before,
        }
    }
}

/// `error` is what `add` returns for a scheme called `name` that is
/// refused for the reason `why`.
pub open spec fn tells(error: Error, name: Seq<char>, why: Refusal, debug_name: Option<Seq<char>>) -> bool {
    match why {
        Refusal::InvalidName => error matches Error::InvalidName { invalid_name, tip }
            && invalid_name@ == name && tip@ == tip_text(
            TIP_SCHEME_NAME@,
            TIP_SCHEME_NAME_IN@,
            TIP_CLOSE_BRACKET@,
            debug_name,
        ),
        Refusal::TakenName => error matches Error::NameWasAlreadyTaken { taken_name, tip }
            && taken_name@ == name && tip@ == tip_text(
            TIP_SCHEME_TAKEN@,
            TIP_SCHEME_TAKEN_IN@,
            TIP_CLOSE_QUOTE@,
            debug_name,
        ),
    }
}

/// Each error is what `add` returns for the refused scheme at its place.
pub open spec fn tell_all(
    errors: Seq<Error>,
    refused: Seq<(Seq<char>, Refusal)>,
    debug_name: Option<Seq<char>>,
) -> bool {
    &&& errors.len() == refused.len()
    &&& forall|k: int|
        0 <= k < errors.len() ==> tells(#[trigger] errors[k], refused[k].0, refused[k].1, debug_name)
}

/// The same scheme under each of the names.
pub open spec fn under_names(names: Seq<String>, scheme: SchemeView) -> Seq<Named> {
    Seq::new(names.len(), |i: int| (names[i]@, scheme))
}

impl<P: Positioner> Combiner<P> {
    /// Adds all the (name, scheme) pairs passed to the combiner, one after
    /// the other. A pair that is refused is left out, and the others are
    /// added all the same; the errors of the refused pairs are returned.
    pub fn add_iter(&mut self, pairs: Vec<(String, Scheme)>) -> (done: Result<(), Vec<Error>>)
        requires
            old(self).wf(),
            schemes_wf(pairs@),
        ensures
            final(self).wf(),
            final(self)@.schemes == added_all(old(self)@.schemes, named_view(pairs@)),
            final(self)@.connections == old(self)@.connections,
            final(self)@.inputs == old(self)@.inputs,
            final(self)@.outputs == old(self)@.outputs,
            final(self)@.conns_overflow_allowed == old(self)@.conns_overflow_allowed,
            final(self)@.debug_name == old(self)@.debug_name,
            forall|schemes: Seq<Named>, i: int| #[trigger]
                final(self).positioner.placement(schemes, i) == old(self).positioner.placement(
                    schemes,
                    i,
                ),
            done is Ok <==> refusals(old(self)@.schemes, named_view(pairs@)).len() == 0,
            done matches Err(errors) ==> tell_all(
                errors@,
                refusals(old(self)@.schemes, named_view(pairs@)),
                old(self)@.debug_name,
            ),
    {
        let ghost first = self@;
        let ghost list = pairs@;
        let ghost all = named_view(pairs@);
        let n = pairs.len();
        let mut rest = reversed(pairs);
        let mut errors: Vec<Error> = Vec::new();
        let mut i: usize = 0;
        proof {
            assert(all.take(0).len() == 0);
        }
        while i < n
            invariant
                i <= n,
                n == list.len(),
                all == named_view(list),
                schemes_wf(list),
                rest.len() == n - i,
                forall|j: int| 0 <= j < n - i ==> #[trigger] rest@[j] == list[n - 1 - j],
                self.wf(),
                self@.schemes == added_all(first.schemes, all.take(i as int)),
                self@.connections == first.connections,
                self@.inputs == first.inputs,
                self@.outputs == first.outputs,
                self@.conns_overflow_allowed == first.conns_overflow_allowed,
                self@.debug_name == first.debug_name,
                forall|schemes: Seq<Named>, k: int| #[trigger]
                    self.positioner.placement(schemes, k) == old(self).positioner.placement(
                        schemes,
                        k,
                    ),
                tell_all(errors@, refusals(first.schemes, all.take(i as int)), first.debug_name),
            decreases n - i,
        {
            let ghost seen = all.take(i + 1);
            let ghost rest_before = rest@;
            proof {
                assert(seen.drop_last() =~= all.take(i as int));
                assert(seen.last() == (list[i as int].0@, list[i as int].1@));
            }
            match rest.pop() {
                Some((name, scheme)) => {
                    proof {
                        assert((name, scheme) == rest_before[n - i - 1]);
                        assert((name, scheme) == list[i as int]);
                        assert(list[i as int].1.wf());
                        assert forall|j: int| 0 <= j < n - i - 1 implies #[trigger] rest@[j]
                            == list[n - 1 - j] by {
                            assert(rest@[j] == rest_before[j]);
                        }
                    }
                    let ghost told = errors@;
                    let ghost before = refusals(first.schemes, all.take(i as int));
                    match self.add(name, scheme) {
                        Ok(()) => {},
                        Err(e) => {
                            errors.push(e);
                            proof {
                                let after = refusals(first.schemes, seen);
                                assert(after.len() == before.len() + 1);
                                assert forall|k: int| 0 <= k < errors.len() implies tells(
                                    #[trigger] errors@[k],
                                    after[k].0,
                                    after[k].1,
                                    first.debug_name,
                                ) by {
                                    if k < told.len() {
                                        assert(errors@[k] == told[k]);
                                        assert(after[k] == before[k]);
                                    }
                                }
                            }
                        },
                    }
                },
                None => {
                    proof {
                        assert(false);
                    }
                },
            }
            i += 1;
        }
        proof {
            assert(all.take(i as int) =~= all);
        }
        if errors.len() > 0 {
            Err(errors)
        } else {
            Ok(())
        }
    }

    /// Adds multiple copies of the same scheme but with different names.
    /// A name that is refused is left out, and the others are used all the
    /// same; the errors of the refused names are returned.
    pub fn add_mul(&mut self, names: Vec<String>, scheme: Scheme) -> (done: Result<(), Vec<Error>>)
        requires
            old(self).wf(),
            scheme.wf(),
        ensures
            final(self).wf(),
            final(self)@.schemes == added_all(old(self)@.schemes, under_names(names@, scheme@)),
            final(self)@.connections == old(self)@.connections,
            final(self)@.inputs == old(self)@.inputs,
            final(self)@.outputs == old(self)@.outputs,
            final(self)@.conns_overflow_allowed == old(self)@.conns_overflow_allowed,
            final(self)@.debug_name == old(self)@.debug_name,
            forall|schemes: Seq<Named>, i: int| #[trigger]
                final(self).positioner.placement(schemes, i) == old(self).positioner.placement(
                    schemes,
                    i,
                ),
            done is Ok <==> refusals(old(self)@.schemes, under_names(names@, scheme@)).len() == 0,
            done matches Err(errors) ==> tell_all(
                errors@,
                refusals(old(self)@.schemes, under_names(names@, scheme@)),
                old(self)@.debug_name,
            ),
    {
        let mut pairs: Vec<(String, Scheme)> = Vec::new();
        let mut i: usize = 0;
        while i < names.len()
            invariant
                i <= names.len(),
                scheme.wf(),
                pairs.len() == i,
                schemes_wf(pairs@),
                forall|j: int|
                    0 <= j < i ==> (#[trigger] pairs@[j]).0@ == names@[j]@ && pairs@[j].1@ == scheme@,
            decreases names.len() - i,
        {
            let ghost before = pairs@;
            pairs.push((names[i].clone(), scheme.clone()));
            proof {
                assert forall|j: int| 0 <= j < i + 1 implies (#[trigger] pairs@[j]).1.wf() by {
                    if j < i {
                        assert(pairs@[j] == before[j]);
                        assert(before[j].1.wf());
                    }
                }
            }
            i += 1;
        }
        proof {
            assert(named_view(pairs@) =~= under_names(names@, scheme@));
        }
        self.add_iter(pairs)
    }
}


/// The path of a slot of a scheme.
pub open spec fn path_of(scheme: Seq<char>, slot: Seq<char>) -> Seq<char> {
    scheme + TIP_SEPARATOR@ + slot
}

/// `made` holds what the name function returned for the name of each of
/// the slots.
pub open spec fn pass_names_made<F: Fn(&String) -> String>(
    names: F,
    made: Seq<String>,
    slots: Seq<Slot>,
) -> bool {
    &&& made.len() == slots.len()
    &&& forall|k: int|
        0 <= k < made.len() ==> call_ensures(names, (&slots[k].name,), #[trigger] made[k])
}

impl<P: Positioner> CombinerView<P> {
    /// The binds that pass each of the first `k` slots of the scheme called
    /// `scheme` on, under the names given.
    pub open spec fn passes(
        self,
        scheme: Seq<char>,
        slots: Seq<SlotView>,
        names: Seq<String>,
        side: SlotSide,
        k: int,
    ) -> Seq<BindView> {
        Seq::new(
            k as nat,
            |i: int| self.pass_bind(names[i]@, path_of(scheme, slots[i].name), None, side),
        )
    }

    /// The pass of the slot number `i` of the scheme called `scheme` is
    /// accepted, after the binds `before` and the passes of the slots
    /// before it: its name holds no separator, its path leads to the slot,
    /// and no bind of its side has its name yet.
    pub open spec fn pass_accepted(
        self,
        scheme: Seq<char>,
        slots: Seq<SlotView>,
        names: Seq<String>,
        side: SlotSide,
        before: Seq<BindView>,
        i: int,
    ) -> bool {
        &&& !names[i]@.contains('/')
        &&& self.pass_target(path_of(scheme, slots[i].name), side) is Some
        &&& !bind_named(before + self.passes(scheme, slots, names, side, i), names[i]@)
    }

    /// The passes of the first `k` slots of the scheme called `scheme` are
    /// accepted one after the other, after the binds `before`.
    pub open spec fn passes_accepted(
        self,
        scheme: Seq<char>,
        slots: Seq<SlotView>,
        names: Seq<String>,
        side: SlotSide,
        before: Seq<BindView>,
        k: int,
    ) -> bool {
        forall|i: int|
            0 <= i < k ==> #[trigger] self.pass_accepted(scheme, slots, names, side, before, i)
    }

    /// What is passed on, and whether it is accepted, depends on the
    /// schemes of the combiner alone.
    pub proof fn lemma_passes_of_schemes(
        self,
        other: Self,
        scheme: Seq<char>,
        slots: Seq<SlotView>,
        names: Seq<String>,
        side: SlotSide,
        before: Seq<BindView>,
        k: int,
    )
        requires
            self.schemes == other.schemes,
            0 <= k,
        ensures
            self.passes(scheme, slots, names, side, k) == other.passes(scheme, slots, names, side, k),
            forall|i: int|
                0 <= i <= k ==> self.pass_accepted(scheme, slots, names, side, before, i)
                    == other.pass_accepted(scheme, slots, names, side, before, i),
            self.passes_accepted(scheme, slots, names, side, before, k) == other.passes_accepted(
                scheme,
                slots,
                names,
                side,
                before,
                k,
            ),
    {
        assert forall|i: int| 0 <= i <= k implies self.passes(scheme, slots, names, side, i)
            =~= other.passes(scheme, slots, names, side, i) by {}
        assert forall|i: int| 0 <= i <= k implies self.pass_accepted(
            scheme,
            slots,
            names,
            side,
            before,
            i,
        ) == other.pass_accepted(scheme, slots, names, side, before, i) by {
            assert(self.passes(scheme, slots, names, side, i) == other.passes(
                scheme,
                slots,
                names,
                side,
                i,
            ));
        }
    }
}

/// A slot whose name is among the names of the slots is found.
pub proof fn lemma_slot_found(slots: Seq<SlotView>, name: Seq<char>, k: int)
    requires
        0 <= k < slots.len(),
        slots[k].name == slot_name(name),
    ensures
        slot_position(slots, name) is Some,
    decreases slots.len(),
{
    if slots[0].name != slot_name(name) {
        let rest = slots.drop_first();
        assert(rest[k - 1] == slots[k]);
        lemma_slot_found(rest, name, k - 1);
    }
}

/// A path of the form `scheme/slot` without further separator leads to
/// the slot: the pass of a slot of a scheme of the combiner is never
/// refused for its target, if the names of the scheme and of the slot hold
/// no separator and the slot has a name.
pub proof fn lemma_pass_resolves<P: Positioner>(
    view: CombinerView<P>,
    scheme: Seq<char>,
    side: SlotSide,
    k: int,
)
    requires
        view.has_scheme(scheme),
        !scheme.contains('/'),
        ({
            let slots = side_slots(view.schemes[named_position(view.schemes, scheme)->0].1, side);
            &&& 0 <= k < slots.len()
            &&& slots[k].name.len() > 0
            &&& !slots[k].name.contains('/')
            &&& forall|j: int| 0 <= j < slots.len() ==> (#[trigger] slots[j]).wf()
        }),
    ensures
        ({
            let slots = side_slots(view.schemes[named_position(view.schemes, scheme)->0].1, side);
            view.pass_target(path_of(scheme, slots[k].name), side) is Some
        }),
{
    let i = named_position(view.schemes, scheme)->0;
    let slots = side_slots(view.schemes[i].1, side);
    let name = slots[k].name;
    let path = path_of(scheme, name);
    let n = scheme.len() as int;
    reveal_strlit("/");
    assert(TIP_SEPARATOR@ =~= seq!['/']);
    assert(path.len() == n + 1 + name.len());
    assert(path[n] == '/');
    assert forall|j: int| 0 <= j < n implies path[j] != '/' by {
        assert(path[j] == scheme[j]);
        assert(scheme.contains(scheme[j]));
    }
    lemma_token_end_scan(path, n);
    assert(path.skip(n).first() == '/');
    assert(token_end(path.skip(n)) == 0);
    assert(path.take(n) =~= scheme);
    assert(path.skip(n + 1) =~= name);
    assert(split_token(path) == (scheme, Some(name)));
    // The slot path has one segment.
    lemma_token_end(name);
    if token_end(name) < name.len() {
        assert(name.contains(name[token_end(name)]));
    }
    assert(split_token(name) == (name, None::<Seq<char>>));
    lemma_slot_found(slots, name, k);
    lemma_slot_position_range(slots, name);
    let at = slot_position(slots, name)->0;
    assert(slots[at].wf());
    assert(slots[at].sectors[0].0 == Seq::<char>::empty());
    assert(slots[at].sector(Seq::<char>::empty()) is Some);
}

impl<P: Positioner> Combiner<P> {
    /// Adds a scheme and passes all of its slots on: each input slot of
    /// the scheme becomes an input slot of the scheme in the making, under
    /// the name that `inputs_names` returns for its own name, and each
    /// output slot an output slot, under the name that `outputs_names`
    /// returns. Stops at the first call that is refused; what was done
    /// before stays done. Succeeds exactly if the scheme is added and
    /// every pass is accepted, the inputs first and then the outputs.
    pub fn add_pass_all<I: Fn(&String) -> String, O: Fn(&String) -> String>(
        &mut self,
        name: String,
        scheme: Scheme,
        inputs_names: I,
        outputs_names: O,
    ) -> (done: Result<(), Error>)
        requires
            old(self).wf(),
            scheme.wf(),
            forall|text: String| call_requires(inputs_names, (&text,)),
            forall|text: String| call_requires(outputs_names, (&text,)),
        ensures
            final(self).wf(),
            (name@.contains('/') || old(self)@.has_scheme(name@)) ==> done is Err && final(self)@
                == old(self)@,
            !(name@.contains('/') || old(self)@.has_scheme(name@)) ==> final(self)@.schemes == old(self)@.schemes.push((name@, scheme@)) && old(self)@.inputs.is_prefix_of(final(self)@.inputs)
                && old(self)@.outputs.is_prefix_of(final(self)@.outputs) && final(self)@.connections == old(self)@.connections,
            exists|ins: Seq<String>, outs: Seq<String>|
                {
                    &&& #[trigger] pass_names_made(inputs_names, ins, scheme.inputs@)
                    &&& #[trigger] pass_names_made(outputs_names, outs, scheme.outputs@)
                    &&& done is Ok <==> {
                        &&& !(name@.contains('/') || old(self)@.has_scheme(name@))
                        &&& final(self)@.passes_accepted(
                            name@,
                            scheme@.inputs,
                            ins,
                            SlotSide::Input,
                            old(self)@.inputs,
                            ins.len() as int,
                        )
                        &&& final(self)@.passes_accepted(
                            name@,
                            scheme@.outputs,
                            outs,
                            SlotSide::Output,
                            old(self)@.outputs,
                            outs.len() as int,
                        )
                    }
                    &&& done is Ok ==> final(self)@.inputs == old(self)@.inputs + final(self)@.passes(
                        name@,
                        scheme@.inputs,
                        ins,
                        SlotSide::Input,
                        ins.len() as int,
                    ) && final(self)@.outputs == old(self)@.outputs + final(self)@.passes(
                        name@,
                        scheme@.outputs,
                        outs,
                        SlotSide::Output,
                        outs.len() as int,
                    )
                },
    {
        let ghost first = self@;
        let ghost scheme_view = scheme@;
        let ghost slots_in = scheme@.inputs;
        let ghost slots_out = scheme@.outputs;
        let ghost in_slots = scheme.inputs@;
        let ghost out_slots = scheme.outputs@;
        // bind name, target name
        let mut inputs: Vec<(String, String)> = Vec::new();
        let ghost mut ins: Seq<String> = Seq::empty();
        let mut i: usize = 0;
        while i < scheme.inputs.len()
            invariant
                i <= scheme.inputs.len(),
                in_slots == scheme.inputs@,
                forall|text: String| call_requires(inputs_names, (&text,)),
                inputs.len() == i,
                ins.len() == i,
                forall|k: int|
                    0 <= k < i ==> call_ensures(inputs_names, (&in_slots[k].name,), #[trigger] ins[k])
                        && inputs@[k].0 == ins[k] && inputs@[k].1@ == in_slots[k].name@,
            decreases scheme.inputs.len() - i,
        {
            let slot = &scheme.inputs[i];
            let bind_name = inputs_names(&slot.name);
            proof {
                ins = ins.push(bind_name);
            }
            inputs.push((bind_name, slot.name.clone()));
            i += 1;
        }
        let mut outputs: Vec<(String, String)> = Vec::new();
        let ghost mut outs: Seq<String> = Seq::empty();
        let mut j: usize = 0;
        while j < scheme.outputs.len()
            invariant
                j <= scheme.outputs.len(),
                out_slots == scheme.outputs@,
                forall|text: String| call_requires(outputs_names, (&text,)),
                outputs.len() == j,
                outs.len() == j,
                forall|k: int|
                    0 <= k < j ==> call_ensures(outputs_names, (&out_slots[k].name,), #[trigger] outs[k])
                        && outputs@[k].0 == outs[k] && outputs@[k].1@ == out_slots[k].name@,
            decreases scheme.outputs.len() - j,
        {
            let slot = &scheme.outputs[j];
            let bind_name = outputs_names(&slot.name);
            proof {
                outs = outs.push(bind_name);
            }
            outputs.push((bind_name, slot.name.clone()));
            j += 1;
        }
        proof {
            assert(pass_names_made(inputs_names, ins, in_slots));
            assert(pass_names_made(outputs_names, outs, out_slots));
        }
        match self.add(name.clone(), scheme) {
            Err(e) => {
                return Err(e);
            },
            Ok(()) => {},
        }
        let ghost added = self@;
        let mut a: usize = 0;
        proof {
            assert(self@.inputs =~= first.inputs + added.passes(
                name@,
                slots_in,
                ins,
                SlotSide::Input,
                0,
            ));
        }
        while a < inputs.len()
            invariant
                a <= inputs.len(),
                inputs.len() == ins.len(),
                ins.len() == in_slots.len(),
                slots_in.len() == in_slots.len(),
                forall|k: int| 0 <= k < in_slots.len() ==> slots_in[k].name == (#[trigger] in_slots[k]).name@,
                forall|k: int|
                    0 <= k < inputs.len() ==> (#[trigger] inputs@[k]).0 == ins[k] && inputs@[k].1@
                        == in_slots[k].name@,
                self.wf(),
                first == old(self)@,
                scheme_view == scheme@,
                slots_in == scheme_view.inputs,
                in_slots == scheme.inputs@,
                out_slots == scheme.outputs@,
                pass_names_made(inputs_names, ins, in_slots),
                pass_names_made(outputs_names, outs, out_slots),
                added.passes_accepted(name@, slots_in, ins, SlotSide::Input, first.inputs, a as int),
                !(name@.contains('/') || first.has_scheme(name@)),
                added.schemes == first.schemes.push((name@, scheme_view)),
                added.connections == first.connections,
                added.outputs == first.outputs,
                self@ == (CombinerView {
                    inputs: first.inputs + added.passes(
                        name@,
                        slots_in,
                        ins,
                        SlotSide::Input,
                        a as int,
                    ),
                    ..added
                }),
            decreases inputs.len() - a,
        {
            let ghost before = self@;
            let mut path = name.clone();
            path.append(TIP_SEPARATOR);
            path.append(inputs[a].1.as_str());
            proof {
                assert(path@ == path_of(name@, slots_in[a as int].name));
                assert(inputs@[a as int].0 == ins[a as int]);
            }
            proof {
                before.lemma_passes_of_schemes(
                    added,
                    name@,
                    slots_in,
                    ins,
                    SlotSide::Input,
                    first.inputs,
                    a as int,
                );
            }
            match self.pass_input(inputs[a].0.clone(), path, None) {
                Err(e) => {
                    proof {
                        assert(self@ == before);
                        assert(!before.pass_accepted(
                            name@,
                            slots_in,
                            ins,
                            SlotSide::Input,
                            first.inputs,
                            a as int,
                        ));
                        assert(first.inputs.is_prefix_of(self@.inputs));
                        assert(first.outputs.is_prefix_of(self@.outputs));
                        assert(self@.schemes == first.schemes.push((name@, scheme_view)));
                        assert(self@.connections == first.connections);
                    }
                    return Err(e);
                },
                Ok(()) => {},
            }
            proof {
                assert(before.pass_bind(
                    ins[a as int]@,
                    path_of(name@, slots_in[a as int].name),
                    None,
                    SlotSide::Input,
                ) == added.pass_bind(
                    ins[a as int]@,
                    path_of(name@, slots_in[a as int].name),
                    None,
                    SlotSide::Input,
                ));
                assert(self@.inputs =~= first.inputs + added.passes(
                    name@,
                    slots_in,
                    ins,
                    SlotSide::Input,
                    a + 1,
                ));
                assert(added.pass_accepted(
                    name@,
                    slots_in,
                    ins,
                    SlotSide::Input,
                    first.inputs,
                    a as int,
                ));
            }
            a += 1;
        }
        let ghost with_inputs = self@;
        let mut b: usize = 0;
        proof {
            assert(self@.outputs =~= first.outputs + added.passes(
                name@,
                slots_out,
                outs,
                SlotSide::Output,
                0,
            ));
            assert(first.inputs.is_prefix_of(self@.inputs));
        }
        while b < outputs.len()
            invariant
                b <= outputs.len(),
                outputs.len() == outs.len(),
                outs.len() == out_slots.len(),
                slots_out.len() == out_slots.len(),
                forall|k: int|
                    0 <= k < out_slots.len() ==> slots_out[k].name == (#[trigger] out_slots[k]).name@,
                forall|k: int|
                    0 <= k < outputs.len() ==> (#[trigger] outputs@[k]).0 == outs[k] && outputs@[k].1@
                        == out_slots[k].name@,
                self.wf(),
                first == old(self)@,
                scheme_view == scheme@,
                slots_in == scheme_view.inputs,
                slots_out == scheme_view.outputs,
                in_slots == scheme.inputs@,
                out_slots == scheme.outputs@,
                pass_names_made(inputs_names, ins, in_slots),
                pass_names_made(outputs_names, outs, out_slots),
                added.passes_accepted(
                    name@,
                    slots_in,
                    ins,
                    SlotSide::Input,
                    first.inputs,
                    ins.len() as int,
                ),
                added.passes_accepted(name@, slots_out, outs, SlotSide::Output, first.outputs, b as int),
                with_inputs.inputs == first.inputs + added.passes(
                    name@,
                    slots_in,
                    ins,
                    SlotSide::Input,
                    ins.len() as int,
                ),
                !(name@.contains('/') || first.has_scheme(name@)),
                added.schemes == first.schemes.push((name@, scheme_view)),
                with_inputs.connections == first.connections,
                first.inputs.is_prefix_of(with_inputs.inputs),
                with_inputs.outputs == first.outputs,
                with_inputs.schemes == added.schemes,
                self@ == (CombinerView {
                    outputs: first.outputs + added.passes(
                        name@,
                        slots_out,
                        outs,
                        SlotSide::Output,
                        b as int,
                    ),
                    ..with_inputs
                }),
            decreases outputs.len() - b,
        {
            let ghost before = self@;
            let mut path = name.clone();
            path.append(TIP_SEPARATOR);
            path.append(outputs[b].1.as_str());
            proof {
                assert(path@ == path_of(name@, slots_out[b as int].name));
                assert(outputs@[b as int].0 == outs[b as int]);
            }
            proof {
                before.lemma_passes_of_schemes(
                    added,
                    name@,
                    slots_out,
                    outs,
                    SlotSide::Output,
                    first.outputs,
                    b as int,
                );
            }
            match self.pass_output(outputs[b].0.clone(), path, None) {
                Err(e) => {
                    proof {
                        assert(self@ == before);
                        assert(!before.pass_accepted(
                            name@,
                            slots_out,
                            outs,
                            SlotSide::Output,
                            first.outputs,
                            b as int,
                        ));
                        assert(first.outputs.is_prefix_of(self@.outputs));
                        assert(first.inputs.is_prefix_of(self@.inputs));
                        assert(self@.schemes == first.schemes.push((name@, scheme_view)));
                        assert(self@.connections == first.connections);
                    }
                    return Err(e);
                },
                Ok(()) => {},
            }
            proof {
                assert(before.pass_bind(
                    outs[b as int]@,
                    path_of(name@, slots_out[b as int].name),
                    None,
                    SlotSide::Output,
                ) == added.pass_bind(
                    outs[b as int]@,
                    path_of(name@, slots_out[b as int].name),
                    None,
                    SlotSide::Output,
                ));
                assert(self@.outputs =~= first.outputs + added.passes(
                    name@,
                    slots_out,
                    outs,
                    SlotSide::Output,
                    b + 1,
                ));
                assert(added.pass_accepted(
                    name@,
                    slots_out,
                    outs,
                    SlotSide::Output,
                    first.outputs,
                    b as int,
                ));
            }
            b += 1;
        }
        proof {
            self@.lemma_passes_of_schemes(
                added,
                name@,
                slots_in,
                ins,
                SlotSide::Input,
                first.inputs,
                ins.len() as int,
            );
            self@.lemma_passes_of_schemes(
                added,
                name@,
                slots_out,
                outs,
                SlotSide::Output,
                first.outputs,
                outs.len() as int,
            );
            assert(first.outputs.is_prefix_of(self@.outputs));
            assert(pass_names_made(inputs_names, ins, in_slots));
            assert(pass_names_made(outputs_names, outs, out_slots));
            assert(self@.passes(name@, slots_in, ins, SlotSide::Input, ins.len() as int)
                =~= added.passes(name@, slots_in, ins, SlotSide::Input, ins.len() as int));
            assert(self@.passes(name@, slots_out, outs, SlotSide::Output, outs.len() as int)
                =~= added.passes(name@, slots_out, outs, SlotSide::Output, outs.len() as int));
        }
        Ok(())
    }
}

} // verus!
