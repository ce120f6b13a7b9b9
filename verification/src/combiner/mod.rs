//! The combiner: the builder that puts named schemes together, connects
//! them, and compiles the whole into one scheme.

use vstd::prelude::*;
use vstd::string::*;
use std::sync::Arc;
use crate::bind::{share, Bind, BindView, DeclaredSector, EntryView, InvalidConn};
use crate::connection::{ConnDim, ConnStraight, Connection};
use crate::positioner::{named_view, schemes_wf, ManualPos, Named, Positioner};
use crate::scheme::{find_slot_sector, slot_and_sector, Scheme};
use crate::slot::{Slot, SlotSector};
use crate::util::{
    has_separator, opt_chars, split_first_token, split_token, Bounds, Point, MAX_CONNECTIONS,
};

pub mod compile;
pub mod flatten;
pub mod laws;
pub mod limits;
pub mod pass;
pub mod requests;
pub mod validity;
pub mod wiring;

verus! {

pub const TIP_SCHEME_NAME: &'static str = "Scheme name cannot contain '/' (slash) symbol";

pub const TIP_SCHEME_NAME_IN: &'static str = "Scheme name cannot contain '/' (slash) symbol ('";

pub const TIP_SCHEME_TAKEN: &'static str = "Scheme with such name was already added";

pub const TIP_SCHEME_TAKEN_IN: &'static str = "Scheme with such name was already added to '";

pub const TIP_BIND_NAME: &'static str = "Bind name cannot contain '/' (slash) symbol";

pub const TIP_BIND_NAME_IN: &'static str = "Bind name cannot contain '/' (slash) symbol ('";

pub const TIP_INPUT_TAKEN: &'static str = "Input bind with such name was already added";

pub const TIP_INPUT_TAKEN_IN: &'static str = "Input bind with such name was already added to '";

pub const TIP_OUTPUT_TAKEN: &'static str = "Output bind with such name was already added";

pub const TIP_OUTPUT_TAKEN_IN: &'static str = "Output bind with such name was already added to ('";

pub const TIP_NAME: &'static str = "Name cannot contain '/' (slash) symbol.";

pub const TIP_CLOSE_QUOTE: &'static str = "'";

pub const TIP_CLOSE_BRACKET: &'static str = "')";

pub const TIP_NO_SCHEME_HEAD: &'static str = "Scheme '";

pub const TIP_NO_SCHEME_TAIL: &'static str = "' was not found.";

pub const TIP_NO_SCHEME_IN: &'static str = "' was not found in '";

pub const TIP_NO_SCHEME_IN_TAIL: &'static str = "'.";

pub const TIP_NO_SLOT_HEAD: &'static str = "Slot ";

pub const TIP_SEPARATOR: &'static str = "/";

pub const TIP_NO_SLOT_TAIL: &'static str = " was not found (Scheme exists, but not the slot).";

pub const TIP_NO_SLOT_IN: &'static str = " was not found in '";

pub const TIP_NO_SLOT_IN_TAIL: &'static str = "' (Scheme exists, but not the slot).";

/// The side of a scheme that a slot is on.
#[derive(Debug, Clone, Copy, PartialEq, Eq, Structural)]
pub enum SlotSide {
    Input,
    Output,
}

/// Why a call on a combiner was refused.
#[derive(Debug)]
pub enum Error {
    InvalidName { invalid_name: String, tip: String },
    NameWasAlreadyTaken { taken_name: String, tip: String },
    PassHasInvalidTarget { pass_name: String, pass_side: SlotSide, tip: String },
    NoSuchScheme { name: String },
}

/// Why a combiner could not be compiled.
#[derive(Debug)]
pub enum CompileError<P> {
    /// The positioner did not place every scheme.
    PositionerError(P),
    /// A unit would have more connections than the game allows. The paths
    /// name the slots of the inner schemes that lead to such a unit.
    ConnectionsOverflow { affected_inputs: Vec<String>, affected_outputs: Vec<String>, tip: String },
}

/// Container for single connection with all of its parameters.
pub struct ConnCase {
    pub from: String,
    pub to: String,
    pub connection: Arc<Connection>,
}

/// What a connection request holds.
pub struct CaseView {
    pub from: Seq<char>,
    pub to: Seq<char>,
    pub conn: Connection,
}

impl View for ConnCase {
    type V = CaseView;

    open spec fn view(&self) -> CaseView {
        CaseView { from: self.from@, to: self.to@, conn: *self.connection }
    }
}

impl Clone for ConnCase {
    fn clone(&self) -> (copy: Self)
        ensures
            copy@ == self@,
    {
        ConnCase {
            from: self.from.clone(),
            to: self.to.clone(),
            connection: share(&self.connection),
        }
    }
}

/// Container for all invalid actions performed on the Combiner.
pub struct InvalidActs {
    /// The connection requests one of whose ends does not exist.
    pub connections: Vec<ConnCase>,
    /// The mappings of input binds whose target does not exist, each with
    /// the name of its bind.
    pub inp_bind_conns: Vec<(String, InvalidConn)>,
    /// The mappings of output binds whose target does not exist, each with
    /// the name of its bind.
    pub out_bind_conns: Vec<(String, InvalidConn)>,
}

impl InvalidActs {
    pub fn new() -> (acts: Self)
        ensures
            acts.connections@.len() == 0,
            acts.inp_bind_conns@.len() == 0,
            acts.out_bind_conns@.len() == 0,
    {
        InvalidActs {
            connections: Vec::new(),
            inp_bind_conns: Vec::new(),
            out_bind_conns: Vec::new(),
        }
    }
}

/// The text of a tip: `plain` where the combiner has no name, and the name
/// between `head` and `tail` where it has one.
pub open spec fn tip_text(
    plain: Seq<char>,
    head: Seq<char>,
    tail: Seq<char>,
    debug_name: Option<Seq<char>>,
) -> Seq<char> {
    match debug_name {
        None => plain,
        Some(name) => head + name + tail,
    }
}

/// Writes a tip.
pub fn make_tip(
    plain: &'static str,
    head: &'static str,
    tail: &'static str,
    debug_name: &Option<String>,
) -> (tip: String)
    ensures
        tip@ == tip_text(plain@, head@, tail@, opt_chars(*debug_name)),
{
    match debug_name {
        None => plain.to_owned(),
        Some(name) => {
            let mut tip = head.to_owned();
            tip.append(name.as_str());
            tip.append(tail);
            tip
        },
    }
}

/// The tip about a scheme that a pass names and that does not exist.
pub open spec fn tip_no_scheme(scheme: Seq<char>, debug_name: Option<Seq<char>>) -> Seq<char> {
    match debug_name {
        None => TIP_NO_SCHEME_HEAD@ + scheme + TIP_NO_SCHEME_TAIL@,
        Some(name) => TIP_NO_SCHEME_HEAD@ + scheme + TIP_NO_SCHEME_IN@ + name
            + TIP_NO_SCHEME_IN_TAIL@,
    }
}

/// The tip about a slot that a pass names and that does not exist.
pub open spec fn tip_no_slot(scheme: Seq<char>, slot: Seq<char>, debug_name: Option<Seq<char>>) -> Seq<
    char,
> {
    match debug_name {
        None => TIP_NO_SLOT_HEAD@ + scheme + TIP_SEPARATOR@ + slot + TIP_NO_SLOT_TAIL@,
        Some(name) => TIP_NO_SLOT_HEAD@ + scheme + TIP_SEPARATOR@ + slot + TIP_NO_SLOT_IN@ + name
            + TIP_NO_SLOT_IN_TAIL@,
    }
}

/// The place of the first scheme called `name`.
pub open spec fn named_position(schemes: Seq<Named>, name: Seq<char>) -> Option<int>
    decreases schemes.len(),
{
    if schemes.len() == 0 {
        None
    } else if schemes[0].0 == name {
        Some(0)
    } else {
        match named_position(schemes.drop_first(), name) {
            Some(i) => Some(i + 1),
            None => None,
        }
    }
}

/// The first `i` schemes are not called `name`, so the search goes on
/// behind them.
pub proof fn lemma_named_position_scan(schemes: Seq<Named>, name: Seq<char>, i: int)
    requires
        0 <= i <= schemes.len(),
        forall|j: int| 0 <= j < i ==> (#[trigger] schemes[j]).0 != name,
    ensures
        named_position(schemes, name) == match named_position(schemes.skip(i), name) {
            Some(k) => Some(k + i),
            None => None,
        },
    decreases i,
{
    if i == 0 {
        assert(schemes.skip(0) =~= schemes);
    } else {
        let rest = schemes.drop_first();
        assert(schemes[0].0 != name);
        assert forall|j: int| 0 <= j < i - 1 implies (#[trigger] rest[j]).0 != name by {
            assert(rest[j] == schemes[j + 1]);
        }
        lemma_named_position_scan(rest, name, i - 1);
        assert(rest.skip(i - 1) =~= schemes.skip(i));
    }
}

/// A found position is a place of the list, the scheme there has the name,
/// and no scheme before it has.
pub proof fn lemma_named_position_range(schemes: Seq<Named>, name: Seq<char>)
    ensures
        named_position(schemes, name) matches Some(i) ==> 0 <= i < schemes.len() && schemes[i].0
            == name,
        named_position(schemes, name) is None ==> forall|j: int|
            0 <= j < schemes.len() ==> (#[trigger] schemes[j]).0 != name,
    decreases schemes.len(),
{
    if schemes.len() > 0 && schemes[0].0 != name {
        let rest = schemes.drop_first();
        lemma_named_position_range(rest, name);
        if named_position(schemes, name) is None {
            assert forall|j: int| 0 <= j < schemes.len() implies (#[trigger] schemes[j]).0
                != name by {
                if j > 0 {
                    assert(rest[j - 1] == schemes[j]);
                }
            }
        }
    }
}

/// The views of a list of binds.
pub open spec fn binds_view(binds: Seq<Bind>) -> Seq<BindView> {
    Seq::new(binds.len(), |i: int| binds[i]@)
}

/// The views of a list of connection requests.
pub open spec fn cases_view(cases: Seq<ConnCase>) -> Seq<CaseView> {
    Seq::new(cases.len(), |i: int| cases[i]@)
}

/// A bind of the list has the name `name`.
pub open spec fn bind_named(binds: Seq<BindView>, name: Seq<char>) -> bool {
    exists|i: int| 0 <= i < binds.len() && (#[trigger] binds[i]).name == name
}

/// The binds are well-formed, have names of their own, and no name holds
/// the path separator.
pub open spec fn binds_wf(binds: Seq<BindView>) -> bool {
    &&& forall|i: int| 0 <= i < binds.len() ==> (#[trigger] binds[i]).wf() && !binds[i].name.contains('/')
    &&& forall|i: int, j: int|
        0 <= i < j < binds.len() ==> (#[trigger] binds[i]).name != (#[trigger] binds[j]).name
}

/// The [`Scheme`] builder.
/// Can contain schemes, interconnect them and combine/compile into
/// new bigger scheme.
///
/// Schemes are added under names of their own. Slots are named by paths of
/// the form `scheme[/slot[/sector]]`: where the slot is left out, the
/// default slot is meant, and where the sector is left out, the whole slot.
/// Outputs are connected to inputs, and only this way.
///
/// The positioner gives every scheme its place; compiling fails if it
/// leaves a scheme without one.
pub struct Combiner<P: Positioner> {
    /// The schemes, each with its name, in the order in which they were
    /// added.
    pub schemes: Vec<(String, Scheme)>,
    pub last_scheme: Option<String>,
    pub connections: Vec<ConnCase>,
    pub positioner: P,
    pub inputs: Vec<Bind>,
    pub outputs: Vec<Bind>,
    pub conns_overflow_allowed: bool,
    pub debug_name: Option<String>,
}

/// What a combiner holds.
pub struct CombinerView<P> {
    pub schemes: Seq<Named>,
    pub last_scheme: Option<Seq<char>>,
    pub connections: Seq<CaseView>,
    pub positioner: P,
    pub inputs: Seq<BindView>,
    pub outputs: Seq<BindView>,
    pub conns_overflow_allowed: bool,
    pub debug_name: Option<Seq<char>>,
}

impl<P: Positioner> View for Combiner<P> {
    type V = CombinerView<P>;

    open spec fn view(&self) -> CombinerView<P> {
        CombinerView {
            schemes: named_view(self.schemes@),
            last_scheme: opt_chars(self.last_scheme),
            connections: cases_view(self.connections@),
            positioner: self.positioner,
            inputs: binds_view(self.inputs@),
            outputs: binds_view(self.outputs@),
            conns_overflow_allowed: self.conns_overflow_allowed,
            debug_name: opt_chars(self.debug_name),
        }
    }
}

impl<P: Positioner> CombinerView<P> {
    /// The schemes have names of their own without path separator, and the
    /// binds of each side are well-formed.
    pub open spec fn wf(self) -> bool {
        &&& forall|i: int|
            0 <= i < self.schemes.len() ==> !(#[trigger] self.schemes[i]).0.contains('/')
        &&& forall|i: int, j: int|
            0 <= i < j < self.schemes.len() ==> (#[trigger] self.schemes[i]).0 != (
            #[trigger] self.schemes[j]).0
        &&& binds_wf(self.inputs)
        &&& binds_wf(self.outputs)
    }

    /// A scheme called `name` was added.
    pub open spec fn has_scheme(self, name: Seq<char>) -> bool {
        named_position(self.schemes, name) is Some
    }
}

/// Checks that a name holds no path separator.
pub fn check_name_validity(name: &String) -> (valid: Result<(), Error>)
    ensures
        valid is Ok <==> !name@.contains('/'),
        valid matches Err(e) ==> e matches Error::InvalidName { invalid_name, tip } && invalid_name@
            == name@ && tip@ == TIP_NAME@,
{
    if has_separator(name) {
        return Err(
            Error::InvalidName { invalid_name: name.clone(), tip: TIP_NAME.to_owned() },
        );
    }
    Ok(())
}

impl Combiner<ManualPos> {
    /// Default Combiner - with positioner of ManualPos.
    pub fn pos_manual() -> (combiner: Self)
        ensures
            combiner.wf(),
            combiner.positioner.wf(),
            combiner@.schemes.len() == 0,
            combiner@.connections.len() == 0,
            combiner@.inputs.len() == 0,
            combiner@.outputs.len() == 0,
            !combiner@.conns_overflow_allowed,
            combiner@.debug_name is None,
            combiner@.last_scheme is None,
            combiner.positioner.view().len() == 0,
    {
        Combiner::new(ManualPos::new())
    }
}

impl<P: Positioner> Combiner<P> {
    /// The schemes are well-formed, and what the combiner holds is.
    pub open spec fn wf(&self) -> bool {
        &&& schemes_wf(self.schemes@)
        &&& self@.wf()
    }

    /// Creates new Combiner with custom positioner.
    pub fn new(positioner: P) -> (combiner: Self)
        ensures
            combiner.wf(),
            combiner.positioner == positioner,
            combiner@.schemes.len() == 0,
            combiner@.connections.len() == 0,
            combiner@.inputs.len() == 0,
            combiner@.outputs.len() == 0,
            !combiner@.conns_overflow_allowed,
            combiner@.debug_name is None,
            combiner@.last_scheme is None,
    {
        Combiner {
            schemes: Vec::new(),
            last_scheme: None,
            connections: Vec::new(),
            positioner,
            inputs: Vec::new(),
            outputs: Vec::new(),
            conns_overflow_allowed: false,
            debug_name: None,
        }
    }

    /// Gives the combiner a name, which the tips of its errors mention.
    pub fn set_debug_name(&mut self, name: String)
        ensures
            final(self)@ == (CombinerView { debug_name: Some(name@), ..old(self)@ }),
            final(self).schemes == old(self).schemes,
    {
        self.debug_name = Some(name);
    }

    /// Returns mutable reference to positioner.
    pub fn pos(&mut self) -> (positioner: &mut P)
        ensures
            *positioner == old(self).positioner,
            final(self)@ == (CombinerView { positioner: *final(positioner), ..old(self)@ }),
            final(self).schemes == old(self).schemes,
    {
        &mut self.positioner
    }

    /// The place of the scheme called `name`.
    pub fn find_scheme(&self, name: &String) -> (index: Option<usize>)
        ensures
            match index {
                Some(i) => Some(i as int),
                None => None,
            } == named_position(self@.schemes, name@),
            index matches Some(i) ==> i < self.schemes.len() && self.schemes[i as int].0@ == name@,
    {
        let ghost views = self@.schemes;
        let mut i: usize = 0;
        while i < self.schemes.len()
            invariant
                i <= self.schemes.len(),
                views == self@.schemes,
                forall|j: int| 0 <= j < i ==> (#[trigger] views[j]).0 != name@,
            decreases self.schemes.len() - i,
        {
            if self.schemes[i].0 == *name {
                proof {
                    lemma_named_position_scan(views, name@, i as int);
                    assert(views.skip(i as int)[0] == views[i as int]);
                }
                return Some(i);
            }
            i += 1;
        }
        proof {
            lemma_named_position_scan(views, name@, i as int);
            assert(views.skip(i as int).len() == 0);
        }
        None
    }

    /// The scheme that was added last, if it is still there.
    pub fn last_scheme(&self) -> (scheme: Option<&Scheme>)
        ensures
            match self@.last_scheme {
                None => scheme is None,
                Some(name) => match named_position(self@.schemes, name) {
                    None => scheme is None,
                    Some(i) => scheme matches Some(s) && 0 <= i < self.schemes.len() && *s
                        == self.schemes[i].1,
                },
            },
    {
        match &self.last_scheme {
            None => None,
            Some(name) => match self.find_scheme(name) {
                Some(i) => Some(&self.schemes[i].1),
                None => None,
            },
        }
    }

    /// The scheme that was added last, to be changed in place. The
    /// combiner stays well-formed as long as the scheme does.
    pub fn last_scheme_mut(&mut self) -> (scheme: Option<&mut Scheme>)
        ensures
            match old(self)@.last_scheme {
                None => scheme is None,
                Some(name) => match named_position(old(self)@.schemes, name) {
                    None => scheme is None,
                    Some(i) => scheme matches Some(s) && 0 <= i < old(self).schemes.len() && *s
                        == old(self).schemes[i].1 && final(self).schemes@ == old(
                        self,
                    ).schemes@.update(i, (old(self).schemes[i].0, *final(s))),
                },
            },
            scheme is None ==> final(self).schemes == old(self).schemes,
            final(self).last_scheme == old(self).last_scheme,
            final(self).connections == old(self).connections,
            final(self).positioner == old(self).positioner,
            final(self).inputs == old(self).inputs,
            final(self).outputs == old(self).outputs,
            final(self).conns_overflow_allowed == old(self).conns_overflow_allowed,
            final(self).debug_name == old(self).debug_name,
    {
        let found = match &self.last_scheme {
            None => None,
            Some(name) => self.find_scheme(name),
        };
        match found {
            Some(i) => Some(&mut self.schemes[i].1),
            None => None,
        }
    }

    /// Lets units have more connections than the game allows.
    pub fn allow_conns_overflow(&mut self)
        ensures
            final(self)@ == (CombinerView { conns_overflow_allowed: true, ..old(self)@ }),
            final(self).schemes == old(self).schemes,
    {
        self.conns_overflow_allowed = true;
    }

    /// Marks every unit of the scheme called `name` as kept by force, or
    /// as not kept.
    fn force(&mut self, name: String, forced: bool) -> (done: Result<(), Error>)
        requires
            old(self).wf(),
        ensures
            final(self).wf(),
            done is Ok <==> old(self)@.has_scheme(name@),
            done matches Err(e) ==> e matches Error::NoSuchScheme { name: n } && n@ == name@
                && final(self)@ == old(self)@,
            done is Ok ==> {
                let i = named_position(old(self)@.schemes, name@)->0;
                &&& 0 <= i < old(self)@.schemes.len()
                &&& final(self)@ == (CombinerView {
                    schemes: old(self)@.schemes.update(
                        i,
                        (name@, old(self)@.schemes[i].1.forced(forced)),
                    ),
                    ..old(self)@
                })
            },
    {
        let ghost before = self@;
        proof {
            lemma_named_position_range(before.schemes, name@);
        }
        match self.find_scheme(&name) {
            Some(i) => {
                proof {
                    assert(self.schemes@[i as int].1.wf());
                    assert(before.schemes[i as int] == (
                        self.schemes@[i as int].0@,
                        self.schemes@[i as int].1@,
                    ));
                }
                if forced {
                    self.schemes[i].1.set_forcibly_used();
                } else {
                    self.schemes[i].1.unset_forcibly_used();
                }
                proof {
                    assert(self@.schemes =~= before.schemes.update(
                        i as int,
                        (name@, before.schemes[i as int].1.forced(forced)),
                    ));
                    assert forall|a: int| 0 <= a < self@.schemes.len() implies !(
                    #[trigger] self@.schemes[a]).0.contains('/') by {
                        assert(before.schemes[a].0 == self@.schemes[a].0);
                    }
                    assert forall|a: int, b: int| 0 <= a < b < self@.schemes.len() implies (
                    #[trigger] self@.schemes[a]).0 != (#[trigger] self@.schemes[b]).0 by {
                        assert(before.schemes[a].0 == self@.schemes[a].0);
                        assert(before.schemes[b].0 == self@.schemes[b].0);
                    }
                }
                Ok(())
            },
            None => Err(Error::NoSuchScheme { name }),
        }
    }

    /// Marks every unit of the scheme called `name` as kept by force.
    pub fn set_forcibly_used(&mut self, name: String) -> (done: Result<(), Error>)
        requires
            old(self).wf(),
        ensures
            final(self).wf(),
            done is Ok <==> old(self)@.has_scheme(name@),
            done matches Err(e) ==> e matches Error::NoSuchScheme { name: n } && n@ == name@
                && final(self)@ == old(self)@,
            done is Ok ==> {
                let i = named_position(old(self)@.schemes, name@)->0;
                &&& 0 <= i < old(self)@.schemes.len()
                &&& final(self)@ == (CombinerView {
                    schemes: old(self)@.schemes.update(
                        i,
                        (name@, old(self)@.schemes[i].1.forced(true)),
                    ),
                    ..old(self)@
                })
            },
    {
        self.force(name, true)
    }

    /// Marks every unit of the scheme called `name` as not kept by force.
    pub fn unset_forcibly_used(&mut self, name: String) -> (done: Result<(), Error>)
        requires
            old(self).wf(),
        ensures
            final(self).wf(),
            done is Ok <==> old(self)@.has_scheme(name@),
            done matches Err(e) ==> e matches Error::NoSuchScheme { name: n } && n@ == name@
                && final(self)@ == old(self)@,
            done is Ok ==> {
                let i = named_position(old(self)@.schemes, name@)->0;
                &&& 0 <= i < old(self)@.schemes.len()
                &&& final(self)@ == (CombinerView {
                    schemes: old(self)@.schemes.update(
                        i,
                        (name@, old(self)@.schemes[i].1.forced(false)),
                    ),
                    ..old(self)@
                })
            },
    {
        self.force(name, false)
    }

    /// Adds scheme with its unique name to the combiner. The name may not
    /// hold the path separator. A refused call changes nothing.
    pub fn add(&mut self, name: String, scheme: Scheme) -> (done: Result<(), Error>)
        requires
            old(self).wf(),
            scheme.wf(),
        ensures
            final(self).wf(),
            done is Ok <==> (!name@.contains('/') && !old(self)@.has_scheme(name@)),
            done is Ok ==> final(self)@.schemes == old(self)@.schemes.push((name@, scheme@))
                && final(self)@.last_scheme == Some(name@) && final(self)@.connections == old(
                self,
            )@.connections && final(self)@.inputs == old(self)@.inputs && final(self)@.outputs
                == old(self)@.outputs && final(self)@.conns_overflow_allowed == old(
                self,
            )@.conns_overflow_allowed && final(self)@.debug_name == old(self)@.debug_name && final(self).positioner.notified(&old(self).positioner, name@) && (
            forall|schemes: Seq<Named>, i: int| #[trigger]
                final(self).positioner.placement(schemes, i) == old(self).positioner.placement(
                    schemes,
                    i,
                )) && (forall|schemes: Seq<Named>, error: P::Error| #[trigger]
                final(self).positioner.reports(schemes, error) == old(self).positioner.reports(
                    schemes,
                    error,
                )),
            done is Err ==> final(self)@ == old(self)@ && final(self).schemes == old(self).schemes,
            done matches Err(e) ==> match e {
                Error::InvalidName { invalid_name, tip } => name@.contains('/') && invalid_name@
                    == name@ && tip@ == tip_text(
                    TIP_SCHEME_NAME@,
                    TIP_SCHEME_NAME_IN@,
                    TIP_CLOSE_BRACKET@,
                    old(self)@.debug_name,
                ),
                Error::NameWasAlreadyTaken { taken_name, tip } => !name@.contains('/')
                    && taken_name@ == name@ && tip@ == tip_text(
                    TIP_SCHEME_TAKEN@,
                    TIP_SCHEME_TAKEN_IN@,
                    TIP_CLOSE_QUOTE@,
                    old(self)@.debug_name,
                ),
                _ => false,
            },
    {
        if has_separator(&name) {
            return Err(
                Error::InvalidName {
                    tip: make_tip(
                        TIP_SCHEME_NAME,
                        TIP_SCHEME_NAME_IN,
                        TIP_CLOSE_BRACKET,
                        &self.debug_name,
                    ),
                    invalid_name: name,
                },
            );
        }
        let ghost before = self@;
        proof {
            lemma_named_position_range(before.schemes, name@);
        }
        if self.find_scheme(&name).is_none() {
            self.schemes.push((name.clone(), scheme));
            self.last_scheme = Some(name.clone());
            self.positioner.set_last_scheme(name);
            proof {
                assert(self@.schemes =~= before.schemes.push((name@, scheme@)));
                assert forall|a: int| 0 <= a < self@.schemes.len() implies !(
                #[trigger] self@.schemes[a]).0.contains('/') by {
                    if a < before.schemes.len() {
                        assert(before.schemes[a] == self@.schemes[a]);
                    }
                }
                assert forall|a: int, b: int| 0 <= a < b < self@.schemes.len() implies (
                #[trigger] self@.schemes[a]).0 != (#[trigger] self@.schemes[b]).0 by {
                    assert(before.schemes[a] == self@.schemes[a]);
                    if b < before.schemes.len() {
                        assert(before.schemes[b] == self@.schemes[b]);
                    }
                }
            }
            Ok(())
        } else {
            Err(
                Error::NameWasAlreadyTaken {
                    tip: make_tip(
                        TIP_SCHEME_TAKEN,
                        TIP_SCHEME_TAKEN_IN,
                        TIP_CLOSE_QUOTE,
                        &self.debug_name,
                    ),
                    taken_name: name,
                },
            )
        }
    }

    /// Connects two slots with given connection (`conn` arg).
    /// 'custom' - is for 'custom connection'. Nothing is checked before the
    /// combiner is compiled.
    pub fn custom(&mut self, from: String, to: String, conn: Connection)
        ensures
            final(self)@ == (CombinerView {
                connections: old(self)@.connections.push(CaseView { from: from@, to: to@, conn }),
                ..old(self)@
            }),
            final(self).schemes == old(self).schemes,
    {
        self.custom_shared(from, to, Arc::new(conn))
    }

    /// Connects two slots with a connection that other requests have too.
    fn custom_shared(&mut self, from: String, to: String, conn: Arc<Connection>)
        ensures
            final(self)@ == (CombinerView {
                connections: old(self)@.connections.push(
                    CaseView { from: from@, to: to@, conn: *conn },
                ),
                ..old(self)@
            }),
            final(self).schemes == old(self).schemes,
    {
        let ghost before = self@;
        self.connections.push(ConnCase { from, to, connection: conn });
        proof {
            assert(self@.connections =~= before.connections.push(
                CaseView { from: from@, to: to@, conn: *conn },
            ));
        }
    }

    /// Connects two slots with straight connection ([`ConnStraight`]).
    /// 'Straight' means, that each point of output slot connects to the
    /// same point of input slot.
    pub fn connect(&mut self, from: String, to: String)
        ensures
            final(self)@ == (CombinerView {
                connections: old(self)@.connections.push(
                    CaseView {
                        from: from@,
                        to: to@,
                        conn: Connection::Straight(ConnStraight {  }),
                    },
                ),
                ..old(self)@
            }),
            final(self).schemes == old(self).schemes,
    {
        self.custom(from, to, ConnStraight::new())
    }

    /// Connects two slots with dimensional connection ([`ConnDim`]): the
    /// slots are flattened along the given axes.
    pub fn dim(&mut self, from: String, to: String, adapt_axes: (bool, bool, bool))
        ensures
            final(self)@ == (CombinerView {
                connections: old(self)@.connections.push(
                    CaseView {
                        from: from@,
                        to: to@,
                        conn: Connection::Dim(
                            ConnDim {
                                adapt_x: adapt_axes.0,
                                adapt_y: adapt_axes.1,
                                adapt_z: adapt_axes.2,
                            },
                        ),
                    },
                ),
                ..old(self)@
            }),
            final(self).schemes == old(self).schemes,
    {
        self.custom(from, to, ConnDim::new(adapt_axes))
    }

    /// Just like 'custom', but for multiple targets. ***Each*** slot
    /// on the left will be connected to ***each*** slot on the right
    /// (with given connection (`conn` arg)).
    pub fn custom_iter(&mut self, from: Vec<String>, to: Vec<String>, conn: Connection)
        ensures
            final(self)@ == (CombinerView {
                connections: old(self)@.connections + each_to_each(
                    strings_view(from@),
                    strings_view(to@),
                    conn,
                ),
                ..old(self)@
            }),
            final(self).schemes == old(self).schemes,
    {
        let ghost before = self@;
        let ghost froms = strings_view(from@);
        let ghost tos = strings_view(to@);
        let shared = Arc::new(conn);
        let mut i: usize = 0;
        proof {
            assert(froms.take(0).len() == 0);
            assert(self@.connections =~= before.connections + each_to_each(froms.take(0), tos, conn));
        }
        while i < from.len()
            invariant
                i <= from.len(),
                froms == strings_view(from@),
                tos == strings_view(to@),
                *shared == conn,
                self.schemes == old(self).schemes,
                self@ == (CombinerView {
                    connections: before.connections + each_to_each(froms.take(i as int), tos, conn),
                    ..before
                }),
            decreases from.len() - i,
        {
            let ghost rows = self@.connections;
            let ghost seen = froms.take(i + 1);
            proof {
                assert(seen.drop_last() =~= froms.take(i as int));
                assert(seen.last() == from@[i as int]@);
                assert(tos.take(0).len() == 0);
                assert(rows =~= rows + one_to_each(from@[i as int]@, tos.take(0), conn));
            }
            let mut j: usize = 0;
            while j < to.len()
                invariant
                    j <= to.len(),
                    i < from.len(),
                    tos == strings_view(to@),
                    *shared == conn,
                    self.schemes == old(self).schemes,
                    self@ == (CombinerView {
                        connections: rows + one_to_each(from@[i as int]@, tos.take(j as int), conn),
                        ..before
                    }),
                decreases to.len() - j,
            {
                let ghost row = self@.connections;
                self.custom_shared(from[i].clone(), to[j].clone(), share(&shared));
                j += 1;
                proof {
                    assert(tos.take(j as int).drop_last() =~= tos.take(j - 1));
                    assert(tos.take(j as int).last() == to@[j - 1]@);
                    assert(self@.connections =~= rows + one_to_each(
                        from@[i as int]@,
                        tos.take(j as int),
                        conn,
                    ));
                }
            }
            proof {
                assert(tos.take(j as int) =~= tos);
                assert(self@.connections =~= before.connections + each_to_each(seen, tos, conn));
            }
            i += 1;
        }
        proof {
            assert(froms.take(i as int) =~= froms);
        }
    }

    /// Just like 'connect', but for multiple targets. ***Each*** slot
    /// on the left will be connected to ***each*** slot on the right
    /// with straight connection ([`ConnStraight`]).
    pub fn connect_iter(&mut self, from: Vec<String>, to: Vec<String>)
        ensures
            final(self)@ == (CombinerView {
                connections: old(self)@.connections + each_to_each(
                    strings_view(from@),
                    strings_view(to@),
                    Connection::Straight(ConnStraight {  }),
                ),
                ..old(self)@
            }),
            final(self).schemes == old(self).schemes,
    {
        self.custom_iter(from, to, ConnStraight::new())
    }

    /// Just like 'dim', but for multiple targets. ***Each*** slot
    /// on the left will be connected to ***each*** slot on the right
    /// with dimensional connection ([`ConnDim`]).
    pub fn dim_iter(&mut self, from: Vec<String>, to: Vec<String>, adapt_axes: (bool, bool, bool))
        ensures
            final(self)@ == (CombinerView {
                connections: old(self)@.connections + each_to_each(
                    strings_view(from@),
                    strings_view(to@),
                    Connection::Dim(
                        ConnDim {
                            adapt_x: adapt_axes.0,
                            adapt_y: adapt_axes.1,
                            adapt_z: adapt_axes.2,
                        },
                    ),
                ),
                ..old(self)@
            }),
            final(self).schemes == old(self).schemes,
    {
        self.custom_iter(from, to, ConnDim::new(adapt_axes))
    }

    /// Tells whether a bind of the list is called `name`.
    fn bind_exists(binds: &Vec<Bind>, name: &String) -> (yes: bool)
        ensures
            yes == bind_named(binds_view(binds@), name@),
    {
        let mut i: usize = 0;
        while i < binds.len()
            invariant
                i <= binds.len(),
                forall|j: int| 0 <= j < i ==> (#[trigger] binds_view(binds@)[j]).name != name@,
            decreases binds.len() - i,
        {
            if binds[i].name == *name {
                proof {
                    assert(binds_view(binds@)[i as int].name == name@);
                }
                return true;
            }
            i += 1;
        }
        false
    }

    /// Adds input bind to all binds list. Bind name must be unique among
    /// the input binds and may not hold the path separator. A refused call
    /// changes nothing.
    pub fn bind_input(&mut self, bind: Bind) -> (done: Result<(), Error>)
        requires
            old(self).wf(),
            bind@.wf(),
        ensures
            final(self).wf(),
            final(self).schemes == old(self).schemes,
            done is Ok <==> (!bind@.name.contains('/') && !bind_named(old(self)@.inputs, bind@.name)),
            done is Ok ==> final(self)@ == (CombinerView {
                inputs: old(self)@.inputs.push(bind@),
                ..old(self)@
            }),
            done is Err ==> final(self)@ == old(self)@,
            done matches Err(e) ==> match e {
                Error::InvalidName { invalid_name, tip } => bind@.name.contains('/')
                    && invalid_name@ == bind@.name && tip@ == tip_text(
                    TIP_BIND_NAME@,
                    TIP_BIND_NAME_IN@,
                    TIP_CLOSE_BRACKET@,
                    old(self)@.debug_name,
                ),
                Error::NameWasAlreadyTaken { taken_name, tip } => !bind@.name.contains('/')
                    && taken_name@ == bind@.name && tip@ == tip_text(
                    TIP_INPUT_TAKEN@,
                    TIP_INPUT_TAKEN_IN@,
                    TIP_CLOSE_QUOTE@,
                    old(self)@.debug_name,
                ),
                _ => false,
            },
    {
        if has_separator(&bind.name) {
            return Err(
                Error::InvalidName {
                    invalid_name: bind.name.clone(),
                    tip: make_tip(
                        TIP_BIND_NAME,
                        TIP_BIND_NAME_IN,
                        TIP_CLOSE_BRACKET,
                        &self.debug_name,
                    ),
                },
            );
        }
        if Self::bind_exists(&self.inputs, &bind.name) {
            return Err(
                Error::NameWasAlreadyTaken {
                    taken_name: bind.name.clone(),
                    tip: make_tip(
                        TIP_INPUT_TAKEN,
                        TIP_INPUT_TAKEN_IN,
                        TIP_CLOSE_QUOTE,
                        &self.debug_name,
                    ),
                },
            );
        }
        let ghost before = self@;
        self.inputs.push(bind);
        proof {
            assert(self@.inputs =~= before.inputs.push(bind@));
            lemma_binds_pushed(before.inputs, bind@);
        }
        Ok(())
    }

    /// Adds output bind to all binds list. Bind name must be unique among
    /// the output binds and may not hold the path separator. A refused call
    /// changes nothing.
    pub fn bind_output(&mut self, bind: Bind) -> (done: Result<(), Error>)
        requires
            old(self).wf(),
            bind@.wf(),
        ensures
            final(self).wf(),
            final(self).schemes == old(self).schemes,
            done is Ok <==> (!bind@.name.contains('/') && !bind_named(old(self)@.outputs, bind@.name)),
            done is Ok ==> final(self)@ == (CombinerView {
                outputs: old(self)@.outputs.push(bind@),
                ..old(self)@
            }),
            done is Err ==> final(self)@ == old(self)@,
            done matches Err(e) ==> match e {
                Error::InvalidName { invalid_name, tip } => bind@.name.contains('/')
                    && invalid_name@ == bind@.name && tip@ == tip_text(
                    TIP_BIND_NAME@,
                    TIP_BIND_NAME_IN@,
                    TIP_CLOSE_BRACKET@,
                    old(self)@.debug_name,
                ),
                Error::NameWasAlreadyTaken { taken_name, tip } => !bind@.name.contains('/')
                    && taken_name@ == bind@.name && tip@ == tip_text(
                    TIP_OUTPUT_TAKEN@,
                    TIP_OUTPUT_TAKEN_IN@,
                    TIP_CLOSE_BRACKET@,
                    old(self)@.debug_name,
                ),
                _ => false,
            },
    {
        if has_separator(&bind.name) {
            return Err(
                Error::InvalidName {
                    invalid_name: bind.name.clone(),
                    tip: make_tip(
                        TIP_BIND_NAME,
                        TIP_BIND_NAME_IN,
                        TIP_CLOSE_BRACKET,
                        &self.debug_name,
                    ),
                },
            );
        }
        if Self::bind_exists(&self.outputs, &bind.name) {
            return Err(
                Error::NameWasAlreadyTaken {
                    taken_name: bind.name.clone(),
                    tip: make_tip(
                        TIP_OUTPUT_TAKEN,
                        TIP_OUTPUT_TAKEN_IN,
                        TIP_CLOSE_BRACKET,
                        &self.debug_name,
                    ),
                },
            );
        }
        let ghost before = self@;
        self.outputs.push(bind);
        proof {
            assert(self@.outputs =~= before.outputs.push(bind@));
            lemma_binds_pushed(before.outputs, bind@);
        }
        Ok(())
    }
}

/// A bind with a new name keeps a list of binds well-formed.
pub proof fn lemma_binds_pushed(binds: Seq<BindView>, bind: BindView)
    requires
        binds_wf(binds),
        bind.wf(),
        !bind.name.contains('/'),
        !bind_named(binds, bind.name),
    ensures
        binds_wf(binds.push(bind)),
{
    let after = binds.push(bind);
    assert forall|i: int| 0 <= i < after.len() implies (#[trigger] after[i]).wf() && !after[i].name.contains(
        '/',
    ) by {
        if i < binds.len() {
            assert(after[i] == binds[i]);
        }
    }
    assert forall|i: int, j: int| 0 <= i < j < after.len() implies (#[trigger] after[i]).name != (
    #[trigger] after[j]).name by {
        assert(after[i] == binds[i]);
        if j < binds.len() {
            assert(after[j] == binds[j]);
        }
    }
}

/// The views of a list of strings.
pub open spec fn strings_view(list: Seq<String>) -> Seq<Seq<char>> {
    Seq::new(list.len(), |i: int| list[i]@)
}

/// A request from `from` to each path of `to`, in order.
pub open spec fn one_to_each(from: Seq<char>, to: Seq<Seq<char>>, conn: Connection) -> Seq<CaseView>
    decreases to.len(),
{
    if to.len() == 0 {
        Seq::empty()
    } else {
        one_to_each(from, to.drop_last(), conn).push(CaseView { from, to: to.last(), conn })
    }
}

/// A request from each path of `from` to each path of `to`.
pub open spec fn each_to_each(from: Seq<Seq<char>>, to: Seq<Seq<char>>, conn: Connection) -> Seq<
    CaseView,
>
    decreases from.len(),
{
    if from.len() == 0 {
        Seq::empty()
    } else {
        each_to_each(from.drop_last(), to, conn) + one_to_each(from.last(), to, conn)
    }
}

} // verus!
