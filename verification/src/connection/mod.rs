//! Connection strategies: rules that map the points of one box to the
//! points of another.
//!
//! A strategy is a pure function of the two box sizes. It proposes pairs of
//! points; whoever applies the strategy decides which of the proposed pairs
//! fall on real points of the slots it connects.

use vstd::prelude::*;
use std::sync::Arc;
use crate::util::{in_bounds, is_point_in_bounds, Bounds, Point};

pub mod grid;
pub mod order;

use grid::{box_points, grid_points, points_of, push_grid, side, side_of, Span};
use order::{same_items, sort_dedup, sorted_set, strictly_sorted, Pair};

verus! {

/// A rule that sends a point of the start box to a point of the end box, or
/// nowhere.
pub trait PointMap {
    /// Where the rule sends `point`.
    spec fn image(&self, point: Point, start: Bounds, end: Bounds) -> Option<Point>;

    /// Where the rule sends `point`.
    fn apply(&self, point: Point, start: Bounds, end: Bounds) -> (target: Option<Point>)
        ensures
            target == self.image(point, start, end),
    ;
}

/// A rule that keeps or drops a pair of points.
pub trait PairFilter {
    /// The rule keeps the pair.
    spec fn keeps(&self, start: Point, end: Point) -> bool;

    /// Tells whether the rule keeps the pair.
    fn test(&self, start: &Point, end: &Point) -> (keep: bool)
        ensures
            keep == self.keeps(*start, *end),
    ;
}

/// The function can be called on every input and returns one result for
/// each: what a point map made of a function needs.
pub open spec fn is_point_fn<F: Fn(Point, Bounds, Bounds) -> Option<Point>>(f: F) -> bool {
    &&& forall|p: Point, s: Bounds, e: Bounds| #[trigger] call_requires(f, (p, s, e))
    &&& forall|p: Point, s: Bounds, e: Bounds, a: Option<Point>, b: Option<Point>|
        call_ensures(f, (p, s, e), a) && call_ensures(f, (p, s, e), b) ==> a == b
}

/// The function can be called on every pair and returns one answer for
/// each: what a pair filter made of a function needs.
pub open spec fn is_pair_fn<F: Fn(&Point, &Point) -> bool>(f: F) -> bool {
    &&& forall|a: Point, b: Point| #[trigger] call_requires(f, (&a, &b))
    &&& forall|a: Point, b: Point, x: bool, y: bool|
        call_ensures(f, (&a, &b), x) && call_ensures(f, (&a, &b), y) ==> x == y
}

/// A point map made of a function.
pub struct FnMap<F: Fn(Point, Bounds, Bounds) -> Option<Point>> {
    function: Arc<F>,
}

impl<F: Fn(Point, Bounds, Bounds) -> Option<Point>> FnMap<F> {
    #[verifier::type_invariant]
    spec fn inv(self) -> bool {
        is_point_fn(*self.function)
    }

    /// The function that the map calls.
    pub closed spec fn function(&self) -> F {
        *self.function
    }

    /// A point map that sends each point where `function` sends it.
    pub fn new(function: F) -> (map: Self)
        requires
            is_point_fn(function),
        ensures
            map.function() == function,
    {
        FnMap { function: Arc::new(function) }
    }

    /// A point map that sends each point where the shared `function` sends
    /// it.
    pub fn from_arc(function: Arc<F>) -> (map: Self)
        requires
            is_point_fn(*function),
        ensures
            map.function() == *function,
    {
        FnMap { function }
    }
}

impl<F: Fn(Point, Bounds, Bounds) -> Option<Point>> PointMap for FnMap<F> {
    open spec fn image(&self, point: Point, start: Bounds, end: Bounds) -> Option<Point> {
        choose|target: Option<Point>| call_ensures(self.function(), (point, start, end), target)
    }

    fn apply(&self, point: Point, start: Bounds, end: Bounds) -> (target: Option<Point>) {
        proof {
            use_type_invariant(self);
        }
        (self.function)(point, start, end)
    }
}

/// A pair filter made of a function.
pub struct FnFilter<F: Fn(&Point, &Point) -> bool> {
    function: Arc<F>,
}

impl<F: Fn(&Point, &Point) -> bool> FnFilter<F> {
    #[verifier::type_invariant]
    spec fn inv(self) -> bool {
        is_pair_fn(*self.function)
    }

    /// The function that the filter calls.
    pub closed spec fn function(&self) -> F {
        *self.function
    }

    /// A filter that keeps the pairs for which `function` returns true.
    pub fn new(function: F) -> (filter: Self)
        requires
            is_pair_fn(function),
        ensures
            filter.function() == function,
    {
        FnFilter { function: Arc::new(function) }
    }

    /// A filter that keeps the pairs for which the shared `function`
    /// returns true.
    pub fn from_arc(function: Arc<F>) -> (filter: Self)
        requires
            is_pair_fn(*function),
        ensures
            filter.function() == *function,
    {
        FnFilter { function }
    }
}

impl<F: Fn(&Point, &Point) -> bool> PairFilter for FnFilter<F> {
    open spec fn keeps(&self, start: Point, end: Point) -> bool {
        choose|keep: bool| call_ensures(self.function(), (&start, &end), keep)
    }

    fn test(&self, start: &Point, end: &Point) -> (keep: bool) {
        proof {
            use_type_invariant(self);
        }
        (self.function)(start, end)
    }
}

/// Creates simple one-to-one points matching connection
/// between two slots. If slots' sizes differs it chooses smallest ones.
#[derive(Debug, Clone, Copy)]
pub struct ConnStraight {}

/// Connection that "ignores" specified dimensions of end `Slot`.
/// All `Slot`'s points that are laid on ignored/adapted axis will be
/// treated as the equal points and so, all of them will have the same
/// output/input vectors.
///
/// If both slots are not flat at ignored axis, then EACH point on ignored
/// axis on one slot will be connected to EACH point on another slot on that
/// axis.
#[derive(Debug, Clone, Copy)]
pub struct ConnDim {
    pub adapt_x: bool,
    pub adapt_y: bool,
    pub adapt_z: bool,
}

/// Maps each point of start `Slot` to points of end `Slot` via given
/// function.
pub struct ConnMap {
    pub function: Box<dyn PointMap>,
}

/// Filters point-to-point connections of other `Connection`.
pub struct ConnFilter {
    pub connection: Box<Connection>,
    pub function: Box<dyn PairFilter>,
}

/// Joints other `Connection`s into a chain with a possibility
/// of changing `Slot` bounds in between. Behaves just as normal
/// `Connection`.
pub struct ConnJoint {
    pub connections: Vec<(Option<Bounds>, Connection)>,
}

/// `Connection` is an object that describes connection between two slots.
/// `Connection` creates a list of point-to-point connections between
/// two slots, based on their sizes.
pub enum Connection {
    Straight(ConnStraight),
    Dim(ConnDim),
    Mapped(ConnMap),
    Filtered(ConnFilter),
    Joint(ConnJoint),
}

/// The box that fits into both `a` and `b`.
pub open spec fn common_box(a: Bounds, b: Bounds) -> Bounds {
    Bounds {
        x: if a.x < b.x {
            a.x
        } else {
            b.x
        },
        y: if a.y < b.y {
            a.y
        } else {
            b.y
        },
        z: if a.z < b.z {
            a.z
        } else {
            b.z
        },
    }
}

/// Each point of `points`, in order, paired with each of its targets, in
/// order.
pub open spec fn fan_out(points: Seq<Point>, targets: spec_fn(Point) -> Seq<Point>) -> Seq<Pair>
    decreases points.len(),
{
    if points.len() == 0 {
        Seq::empty()
    } else {
        fan_out(points.drop_last(), targets) + aimed(points.last(), targets(points.last()))
    }
}

/// `from`, paired with each of `targets`.
pub open spec fn aimed(from: Point, targets: Seq<Point>) -> Seq<Pair> {
    Seq::new(targets.len(), |i: int| (from, targets[i]))
}

/// The pairs of `pairs` that `filter` keeps, in order.
pub open spec fn kept(pairs: Seq<Pair>, keeps: spec_fn(Pair) -> bool) -> Seq<Pair>
    decreases pairs.len(),
{
    if pairs.len() == 0 {
        Seq::empty()
    } else {
        let rest = kept(pairs.drop_last(), keeps);
        if keeps(pairs.last()) {
            rest.push(pairs.last())
        } else {
            rest
        }
    }
}

/// The ways on from the pair `from`: for each pair of `next` that starts
/// where `from` ends and ends inside `bounds`, the start of `from` paired
/// with the end of that pair.
pub open spec fn follow(from: Pair, next: Seq<Pair>, bounds: Bounds) -> Seq<Pair>
    decreases next.len(),
{
    if next.len() == 0 {
        Seq::empty()
    } else {
        let rest = follow(from, next.drop_last(), bounds);
        if next.last().0 == from.1 && in_bounds(next.last().1, bounds) {
            rest.push((from.0, next.last().1))
        } else {
            rest
        }
    }
}

/// The pairs of `prev`, each continued through the pairs of `next`.
pub open spec fn linked(prev: Seq<Pair>, next: Seq<Pair>, bounds: Bounds) -> Seq<Pair>
    decreases prev.len(),
{
    if prev.len() == 0 {
        Seq::empty()
    } else {
        linked(prev.drop_last(), next, bounds) + follow(prev.last(), next, bounds)
    }
}

/// Where a chain step starts: at its own bounds if it declares any, else
/// where the step before it ended.
pub open spec fn step_start(declared: Option<Bounds>, from: Bounds) -> Bounds {
    match declared {
        Some(bounds) => bounds,
        None => from,
    }
}

impl ConnStraight {
    /// The straight connection.
    pub fn new() -> (conn: Connection)
        ensures
            conn == Connection::Straight(ConnStraight {  }),
    {
        Connection::Straight(ConnStraight {  })
    }

    /// Each point of the box common to `start` and `end`, paired with
    /// itself.
    pub open spec fn pairs(&self, start: Bounds, end: Bounds) -> Seq<Pair> {
        let points = box_points(common_box(start, end));
        Seq::new(points.len(), |i: int| (points[i], points[i]))
    }

    /// The point-to-point connections between boxes of the given sizes.
    pub fn connect(&self, start: Bounds, end: Bounds) -> (pairs: Vec<Pair>)
        ensures
            pairs@ == self.pairs(start, end),
    {
        let size = Bounds {
            x: if start.x < end.x {
                start.x
            } else {
                end.x
            },
            y: if start.y < end.y {
                start.y
            } else {
                end.y
            },
            z: if start.z < end.z {
                start.z
            } else {
                end.z
            },
        };
        let points = points_of(size);
        let mut pairs: Vec<Pair> = Vec::new();
        let mut i: usize = 0;
        while i < points.len()
            invariant
                i <= points.len(),
                pairs.len() == i,
                forall|j: int| 0 <= j < i ==> pairs@[j] == (points@[j], points@[j]),
            decreases points.len() - i,
        {
            pairs.push((points[i], points[i]));
            i += 1;
        }
        proof {
            assert(pairs@ =~= self.pairs(start, end));
        }
        pairs
    }

    /// This connection, followed by `other`.
    pub fn chain(self, virtual_slot: Option<Bounds>, other: Connection) -> (conn: Connection)
        ensures
            conn is Joint,
            conn->Joint_0.connections@ == Connection::Straight(self).chained_steps(virtual_slot, other),
    {
        Connection::Straight(self).chain(virtual_slot, other)
    }
}

impl ConnDim {
    /// The connection that adapts the axes whose flag is set.
    pub fn new(adapt_axes: (bool, bool, bool)) -> (conn: Connection)
        ensures
            conn == Connection::Dim(
                ConnDim { adapt_x: adapt_axes.0, adapt_y: adapt_axes.1, adapt_z: adapt_axes.2 },
            ),
    {
        Connection::Dim(
            ConnDim { adapt_x: adapt_axes.0, adapt_y: adapt_axes.1, adapt_z: adapt_axes.2 },
        )
    }

    /// The coordinates that a start coordinate `at` connects to along one
    /// axis: all of the end box's on an adapted axis, its own otherwise.
    pub open spec fn range(adapt: bool, at: int, end: u32) -> Span {
        if adapt {
            Span { lo: 0, hi: side(end) }
        } else {
            Span { lo: at, hi: at + 1 }
        }
    }

    /// The points that the start point `from` connects to.
    pub open spec fn targets(&self, from: Point, end: Bounds) -> Seq<Point> {
        grid_points(
            Self::range(self.adapt_x, from.x as int, end.x),
            Self::range(self.adapt_y, from.y as int, end.y),
            Self::range(self.adapt_z, from.z as int, end.z),
        )
    }

    /// Each point of the start box, paired with each of its targets.
    pub open spec fn pairs(&self, start: Bounds, end: Bounds) -> Seq<Pair> {
        fan_out(box_points(start), |from: Point| self.targets(from, end))
    }

    /// The point-to-point connections between boxes of the given sizes.
    pub fn connect(&self, start: Bounds, end: Bounds) -> (pairs: Vec<Pair>)
        ensures
            pairs@ == self.pairs(start, end),
    {
        let points = points_of(start);
        let ghost targets = |from: Point| self.targets(from, end);
        let mut pairs: Vec<Pair> = Vec::new();
        let mut i: usize = 0;
        while i < points.len()
            invariant
                i <= points.len(),
                points@ == box_points(start),
                targets == (|from: Point| self.targets(from, end)),
                pairs@ == fan_out(points@.take(i as int), targets),
            decreases points.len() - i,
        {
            let from = points[i];
            let mut ends: Vec<Point> = Vec::new();
            let (x0, x1) = if self.adapt_x {
                (0, side_of(end.x))
            } else {
                (from.x as i64, from.x as i64 + 1)
            };
            let (y0, y1) = if self.adapt_y {
                (0, side_of(end.y))
            } else {
                (from.y as i64, from.y as i64 + 1)
            };
            let (z0, z1) = if self.adapt_z {
                (0, side_of(end.z))
            } else {
                (from.z as i64, from.z as i64 + 1)
            };
            push_grid(&mut ends, x0, x1, y0, y1, z0, z1);
            proof {
                assert(ends@ =~= self.targets(from, end));
            }
            let ghost done = pairs@;
            let mut j: usize = 0;
            while j < ends.len()
                invariant
                    j <= ends.len(),
                    pairs@ == done + aimed(from, ends@.take(j as int)),
                decreases ends.len() - j,
            {
                pairs.push((from, ends[j]));
                j += 1;
                proof {
                    assert(pairs@ =~= done + aimed(from, ends@.take(j as int)));
                }
            }
            proof {
                assert(ends@.take(j as int) =~= ends@);
                assert(points@.take(i + 1).drop_last() =~= points@.take(i as int));
                assert(points@.take(i + 1).last() == from);
            }
            i += 1;
        }
        proof {
            assert(points@.take(i as int) =~= points@);
        }
        pairs
    }

    /// This connection, followed by `other`.
    pub fn chain(self, virtual_slot: Option<Bounds>, other: Connection) -> (conn: Connection)
        ensures
            conn is Joint,
            conn->Joint_0.connections@ == Connection::Dim(self).chained_steps(virtual_slot, other),
    {
        Connection::Dim(self).chain(virtual_slot, other)
    }
}

impl ConnMap {
    /// The connection that sends each point of the start box where
    /// `function` sends it.
    pub fn new<F: Fn(Point, Bounds, Bounds) -> Option<Point> + 'static>(function: F) -> (conn:
        Connection)
        requires
            is_point_fn(function),
        ensures
            conn is Mapped,
            forall|p: Point, s: Bounds, e: Bounds, target: Option<Point>|
                call_ensures(function, (p, s, e), target) ==> conn->Mapped_0.function.image(p, s, e)
                    == target,
    {
        Connection::Mapped(ConnMap { function: Box::new(FnMap::new(function)) })
    }

    /// The connection that sends each point of the start box where the
    /// shared `function` sends it.
    pub fn from_arc<F: Fn(Point, Bounds, Bounds) -> Option<Point> + 'static>(
        function: Arc<F>,
    ) -> (conn: Connection)
        requires
            is_point_fn(*function),
        ensures
            conn is Mapped,
            forall|p: Point, s: Bounds, e: Bounds, target: Option<Point>|
                call_ensures(*function, (p, s, e), target) ==> conn->Mapped_0.function.image(
                    p,
                    s,
                    e,
                ) == target,
    {
        Connection::Mapped(ConnMap { function: Box::new(FnMap::from_arc(function)) })
    }

    /// The connection that sends each point of the start box where `map`
    /// sends it.
    pub fn with(map: Box<dyn PointMap>) -> (conn: Connection)
        ensures
            conn == Connection::Mapped(ConnMap { function: map }),
    {
        Connection::Mapped(ConnMap { function: map })
    }

    /// The targets of one point: its image, if it has one.
    pub open spec fn targets(&self, from: Point, start: Bounds, end: Bounds) -> Seq<Point> {
        match self.function.image(from, start, end) {
            Some(target) => seq![target],
            None => seq![],
        }
    }

    /// Each point of the start box that has an image, paired with it.
    pub open spec fn pairs(&self, start: Bounds, end: Bounds) -> Seq<Pair> {
        fan_out(box_points(start), |from: Point| self.targets(from, start, end))
    }

    /// The point-to-point connections between boxes of the given sizes.
    pub fn connect(&self, start: Bounds, end: Bounds) -> (pairs: Vec<Pair>)
        ensures
            pairs@ == self.pairs(start, end),
    {
        let points = points_of(start);
        let ghost targets = |from: Point| self.targets(from, start, end);
        let mut pairs: Vec<Pair> = Vec::new();
        let mut i: usize = 0;
        while i < points.len()
            invariant
                i <= points.len(),
                points@ == box_points(start),
                targets == (|from: Point| self.targets(from, start, end)),
                pairs@ == fan_out(points@.take(i as int), targets),
            decreases points.len() - i,
        {
            let from = points[i];
            let ghost done = pairs@;
            match self.function.apply(from, start, end) {
                Some(target) => {
                    pairs.push((from, target));
                    proof {
                        assert(pairs@ =~= done + aimed(from, seq![target]));
                    }
                },
                None => {
                    proof {
                        assert(pairs@ =~= done + aimed(from, seq![]));
                    }
                },
            }
            proof {
                assert(points@.take(i + 1).drop_last() =~= points@.take(i as int));
                assert(points@.take(i + 1).last() == from);
            }
            i += 1;
        }
        proof {
            assert(points@.take(i as int) =~= points@);
        }
        pairs
    }

    /// This connection, followed by `other`.
    pub fn chain(self, virtual_slot: Option<Bounds>, other: Connection) -> (conn: Connection)
        ensures
            conn is Joint,
            conn->Joint_0.connections@ == Connection::Mapped(self).chained_steps(virtual_slot, other),
    {
        Connection::Mapped(self).chain(virtual_slot, other)
    }
}

impl ConnFilter {
    /// The connection that proposes the pairs of `connection` for which
    /// `function` returns true.
    pub fn new<F: Fn(&Point, &Point) -> bool + 'static>(connection: Connection, function: F) -> (conn:
        Connection)
        requires
            is_pair_fn(function),
        ensures
            conn is Filtered,
            *conn->Filtered_0.connection == connection,
            forall|a: Point, b: Point, keep: bool|
                call_ensures(function, (&a, &b), keep) ==> conn->Filtered_0.function.keeps(a, b)
                    == keep,
    {
        Connection::Filtered(
            ConnFilter {
                connection: Box::new(connection),
                function: Box::new(FnFilter::new(function)),
            },
        )
    }

    /// The connection that proposes the pairs of `connection` for which the
    /// shared `function` returns true.
    pub fn from_arc<F: Fn(&Point, &Point) -> bool + 'static>(
        connection: Connection,
        function: Arc<F>,
    ) -> (conn: Connection)
        requires
            is_pair_fn(*function),
        ensures
            conn is Filtered,
            *conn->Filtered_0.connection == connection,
            forall|a: Point, b: Point, keep: bool|
                call_ensures(*function, (&a, &b), keep) ==> conn->Filtered_0.function.keeps(a, b)
                    == keep,
    {
        Connection::Filtered(
            ConnFilter {
                connection: Box::new(connection),
                function: Box::new(FnFilter::from_arc(function)),
            },
        )
    }

    /// The connection that proposes the pairs of `connection` that `filter`
    /// keeps.
    pub fn with(connection: Connection, filter: Box<dyn PairFilter>) -> (conn: Connection)
        ensures
            conn == Connection::Filtered(
                ConnFilter { connection: Box::new(connection), function: filter },
            ),
    {
        Connection::Filtered(ConnFilter { connection: Box::new(connection), function: filter })
    }

    /// The pairs of the inner connection that the filter keeps.
    pub open spec fn pairs(&self, start: Bounds, end: Bounds) -> Seq<Pair>
        decreases self,
    {
        kept(self.connection.pairs(start, end), self.keeps())
    }

    /// The pairs that the filter keeps.
    pub open spec fn keeps(&self) -> spec_fn(Pair) -> bool {
        |pair: Pair| self.function.keeps(pair.0, pair.1)
    }

    /// The pairs of `pairs` that the filter keeps.
    pub fn retain(&self, pairs: Vec<Pair>) -> (rest: Vec<Pair>)
        ensures
            rest@ == kept(pairs@, self.keeps()),
    {
        let mut rest: Vec<Pair> = Vec::new();
        let mut i: usize = 0;
        proof {
            assert(pairs@.take(0).len() == 0);
            assert(rest@ =~= kept(pairs@.take(0), self.keeps()));
        }
        while i < pairs.len()
            invariant
                i <= pairs.len(),
                rest@ == kept(pairs@.take(i as int), self.keeps()),
            decreases pairs.len() - i,
        {
            let ghost seen = pairs@.take(i + 1);
            proof {
                assert(seen.drop_last() =~= pairs@.take(i as int));
                assert(seen.last() == pairs@[i as int]);
                assert(seen.len() > 0);
            }
            if self.function.test(&pairs[i].0, &pairs[i].1) {
                rest.push(pairs[i]);
            }
            proof {
                assert(rest@ == kept(seen, self.keeps()));
            }
            i += 1;
        }
        proof {
            assert(pairs@.take(i as int) =~= pairs@);
        }
        rest
    }

    /// The point-to-point connections between boxes of the given sizes.
    pub fn connect(&self, start: Bounds, end: Bounds) -> (pairs: Vec<Pair>)
        ensures
            pairs@ == self.pairs(start, end),
        decreases self,
    {
        let all = self.connection.connect(start, end);
        self.retain(all)
    }

    /// This connection, followed by `other`.
    pub fn chain(self, virtual_slot: Option<Bounds>, other: Connection) -> (conn: Connection)
        ensures
            conn is Joint,
            conn->Joint_0.connections@ == Connection::Filtered(self).chained_steps(virtual_slot, other),
    {
        Connection::Filtered(self).chain(virtual_slot, other)
    }
}

/// The pairs that run through all of `steps`: `prev` continued through
/// each step in turn. A step works between the bounds it starts at and the
/// bounds the next step starts at, the last one up to `end`; only what lands
/// inside the bounds a step ends at goes on.
pub open spec fn chained_pairs(
    steps: Seq<(Option<Bounds>, Connection)>,
    prev: Seq<Pair>,
    from: Bounds,
    end: Bounds,
) -> Seq<Pair>
    decreases steps, 0int,
{
    if steps.len() == 0 {
        prev
    } else {
        let at = step_start(steps[0].0, from);
        let to = if steps.len() > 1 {
            step_start(steps[1].0, at)
        } else {
            end
        };
        chained_pairs(steps.drop_first(), linked(prev, steps[0].1.pairs(at, to), to), to, end)
    }
}

impl ConnJoint {
    /// A chain of the one connection `connection`.
    pub fn new(connection: Connection) -> (conn: Connection)
        ensures
            conn is Joint,
            conn->Joint_0.connections@ == seq![(None::<Bounds>, connection)],
    {
        let mut connections: Vec<(Option<Bounds>, Connection)> = Vec::new();
        connections.push((None, connection));
        proof {
            assert(connections@ =~= seq![(None::<Bounds>, connection)]);
        }
        Connection::Joint(ConnJoint { connections })
    }

    /// The pairs that run through the whole chain, in the order in which
    /// the steps give them: every point of the start box is continued
    /// through each step in turn.
    pub open spec fn chained(&self, start: Bounds, end: Bounds) -> Seq<Pair>
        decreases self, 1int,
    {
        chained_pairs(self.connections@, (ConnStraight {  }).pairs(start, start), start, end)
    }

    /// The pairs that run through the whole chain, in rising order and each
    /// of them once.
    pub open spec fn pairs(&self, start: Bounds, end: Bounds) -> Seq<Pair>
        decreases self, 2int,
    {
        sorted_set(self.chained(start, end))
    }

    /// The pairs of `prev`, each continued through the pairs of `next` that
    /// end inside `bounds`.
    pub fn link(prev: &Vec<Pair>, next: &Vec<Pair>, bounds: Bounds) -> (out: Vec<Pair>)
        ensures
            out@ == linked(prev@, next@, bounds),
    {
        let mut out: Vec<Pair> = Vec::new();
        let mut i: usize = 0;
        while i < prev.len()
            invariant
                i <= prev.len(),
                out@ == linked(prev@.take(i as int), next@, bounds),
            decreases prev.len() - i,
        {
            let ghost done = out@;
            let from = prev[i];
            let mut j: usize = 0;
            while j < next.len()
                invariant
                    j <= next.len(),
                    out@ == done + follow(from, next@.take(j as int), bounds),
                decreases next.len() - j,
            {
                proof {
                    assert(next@.take(j + 1).drop_last() =~= next@.take(j as int));
                }
                let step = next[j];
                if from.1.x == step.0.x && from.1.y == step.0.y && from.1.z == step.0.z
                    && is_point_in_bounds(step.1, bounds) {
                    out.push((from.0, step.1));
                }
                j += 1;
                proof {
                    assert(out@ =~= done + follow(from, next@.take(j as int), bounds));
                }
            }
            proof {
                assert(next@.take(j as int) =~= next@);
                assert(prev@.take(i + 1).drop_last() =~= prev@.take(i as int));
            }
            i += 1;
        }
        proof {
            assert(prev@.take(i as int) =~= prev@);
        }
        out
    }

    /// The point-to-point connections between boxes of the given sizes:
    /// the pairs that run through the whole chain, in rising order and each
    /// of them once.
    pub fn connect(&self, start: Bounds, end: Bounds) -> (pairs: Vec<Pair>)
        ensures
            pairs@ == self.pairs(start, end),
            strictly_sorted(pairs@),
            same_items(pairs@, self.chained(start, end)),
        decreases self,
    {
        let straight = ConnStraight {  };
        let mut prev = straight.connect(start, start);
        let mut from = start;
        let ghost first = prev@;
        let n = self.connections.len();
        let mut i: usize = 0;
        proof {
            assert(self.connections@.skip(0) =~= self.connections@);
        }
        while i < n
            invariant
                i <= n,
                n == self.connections.len(),
                chained_pairs(self.connections@, first, start, end) == chained_pairs(
                    self.connections@.skip(i as int),
                    prev@,
                    from,
                    end,
                ),
            decreases n - i,
        {
            let ghost rest = self.connections@.skip(i as int);
            let at = match self.connections[i].0 {
                Some(bounds) => bounds,
                None => from,
            };
            let to = if i + 1 < n {
                match self.connections[i + 1].0 {
                    Some(bounds) => bounds,
                    None => at,
                }
            } else {
                end
            };
            proof {
                assert(rest[0] == self.connections@[i as int]);
                if i + 1 < n {
                    assert(rest[1] == self.connections@[i + 1]);
                }
                assert(rest.drop_first() =~= self.connections@.skip(i + 1));
            }
            let vectors = self.connections[i].1.connect(at, to);
            prev = Self::link(&prev, &vectors, to);
            from = to;
            i += 1;
        }
        proof {
            assert(self.connections@.skip(i as int) =~= Seq::empty());
        }
        sort_dedup(prev)
    }

    /// This chain, with `other` added as its last step. The step starts at
    /// `virtual_slot`, if one is given.
    pub fn chain(self, virtual_slot: Option<Bounds>, other: Connection) -> (conn: Connection)
        ensures
            conn is Joint,
            conn->Joint_0.connections@ == Connection::Joint(self).chained_steps(virtual_slot, other),
    {
        Connection::Joint(self).chain(virtual_slot, other)
    }
}

impl Connection {
    /// The pairs of points that the connection proposes between a start box
    /// and an end box of the given sizes.
    pub open spec fn pairs(&self, start: Bounds, end: Bounds) -> Seq<Pair>
        decreases self,
    {
        match self {
            Connection::Straight(c) => c.pairs(start, end),
            Connection::Dim(c) => c.pairs(start, end),
            Connection::Mapped(c) => c.pairs(start, end),
            Connection::Filtered(c) => c.pairs(start, end),
            Connection::Joint(c) => c.pairs(start, end),
        }
    }

    /// The point-to-point connections between boxes of the given sizes.
    /// Those of a chain come in rising order, each of them once.
    pub fn connect(&self, start: Bounds, end: Bounds) -> (pairs: Vec<Pair>)
        ensures
            pairs@ == self.pairs(start, end),
            self matches Connection::Joint(joint) ==> strictly_sorted(pairs@) && same_items(
                pairs@,
                joint.chained(start, end),
            ),
        decreases self,
    {
        match self {
            Connection::Straight(c) => c.connect(start, end),
            Connection::Dim(c) => c.connect(start, end),
            Connection::Mapped(c) => c.connect(start, end),
            Connection::Filtered(c) => c.connect(start, end),
            Connection::Joint(c) => c.connect(start, end),
        }
    }

    /// The steps of the chain that `chain` builds.
    pub open spec fn chained_steps(self, virtual_slot: Option<Bounds>, other: Connection) -> Seq<
        (Option<Bounds>, Connection),
    > {
        match self {
            Connection::Joint(joint) => joint.connections@.push((virtual_slot, other)),
            _ => seq![(None::<Bounds>, self), (virtual_slot, other)],
        }
    }

    /// This connection, followed by `other`: the pairs of the chain lead
    /// from the start box through `self` and then through `other` to the end
    /// box. Between the two, points live in a box of size `virtual_slot`
    /// or, if none is given, of the size that `self` started at.
    pub fn chain(self, virtual_slot: Option<Bounds>, other: Connection) -> (conn: Connection)
        ensures
            conn is Joint,
            conn->Joint_0.connections@ == self.chained_steps(virtual_slot, other),
    {
        match self {
            Connection::Joint(joint) => {
                let mut connections = joint.connections;
                connections.push((virtual_slot, other));
                Connection::Joint(ConnJoint { connections })
            },
            single => {
                let mut connections: Vec<(Option<Bounds>, Connection)> = Vec::new();
                connections.push((None, single));
                connections.push((virtual_slot, other));
                proof {
                    assert(connections@ =~= seq![(None::<Bounds>, single), (virtual_slot, other)]);
                }
                Connection::Joint(ConnJoint { connections })
            },
        }
    }
}


/// A pair is among the pairs of a fan-out exactly if its start is one of
/// the points and its end one of the targets of its start.
pub proof fn lemma_fan_out_contains(
    points: Seq<Point>,
    targets: spec_fn(Point) -> Seq<Point>,
    pair: Pair,
)
    ensures
        fan_out(points, targets).contains(pair) <==> (points.contains(pair.0) && targets(
            pair.0,
        ).contains(pair.1)),
    decreases points.len(),
{
    if points.len() > 0 {
        let head = points.drop_last();
        let last = points.last();
        lemma_fan_out_contains(head, targets, pair);
        let ends = targets(last);
        let tail = aimed(last, ends);
        grid::lemma_concat_contains(fan_out(head, targets), tail, pair);
        if tail.contains(pair) {
            let i = choose|i: int| 0 <= i < tail.len() && tail[i] == pair;
            assert(ends[i] == pair.1);
        }
        if pair.0 == last && ends.contains(pair.1) {
            let i = choose|i: int| 0 <= i < ends.len() && ends[i] == pair.1;
            assert(tail[i] == pair);
        }
        if points.contains(pair.0) {
            let i = choose|i: int| 0 <= i < points.len() && points[i] == pair.0;
            if i < head.len() {
                assert(head[i] == pair.0);
            }
        }
        if head.contains(pair.0) {
            let i = choose|i: int| 0 <= i < head.len() && head[i] == pair.0;
            assert(points[i] == pair.0);
        }
        assert(points[points.len() - 1] == last);
    }
}

/// The straight connection proposes exactly the pairs of a point with
/// itself, for the points that lie in both boxes.
pub proof fn lemma_straight_pairs(start: Bounds, end: Bounds, pair: Pair)
    ensures
        (ConnStraight {  }).pairs(start, end).contains(pair) <==> (pair.0 == pair.1 && in_bounds(
            pair.0,
            start,
        ) && in_bounds(pair.0, end)),
{
    let size = common_box(start, end);
    let points = box_points(size);
    let pairs = (ConnStraight {  }).pairs(start, end);
    grid::lemma_box_contains(size, pair.0);
    if pairs.contains(pair) {
        let i = choose|i: int| 0 <= i < pairs.len() && pairs[i] == pair;
        assert(points[i] == pair.0);
        assert(points.contains(pair.0));
    }
    if pair.0 == pair.1 && in_bounds(pair.0, start) && in_bounds(pair.0, end) {
        let i = choose|i: int| 0 <= i < points.len() && points[i] == pair.0;
        assert(pairs[i] == pair);
    }
}

/// The coordinate `to` is one that the coordinate `from` is connected to
/// along an axis: any coordinate of the end box on an adapted axis, and
/// `from` itself otherwise.
pub open spec fn dim_reaches(adapt: bool, from: int, to: int, end: u32) -> bool {
    if adapt {
        0 <= to < side(end)
    } else {
        to == from
    }
}

/// The dimensional connection proposes exactly the pairs whose start lies
/// in the start box and whose end has, on each adapted axis, any
/// coordinate of the end box, and on each other axis the coordinate of the
/// start.
pub proof fn lemma_dim_pairs(dim: ConnDim, start: Bounds, end: Bounds, pair: Pair)
    ensures
        dim.pairs(start, end).contains(pair) <==> (in_bounds(pair.0, start) && dim_reaches(
            dim.adapt_x,
            pair.0.x as int,
            pair.1.x as int,
            end.x,
        ) && dim_reaches(dim.adapt_y, pair.0.y as int, pair.1.y as int, end.y) && dim_reaches(
            dim.adapt_z,
            pair.0.z as int,
            pair.1.z as int,
            end.z,
        )),
{
    let targets = |from: Point| dim.targets(from, end);
    lemma_fan_out_contains(box_points(start), targets, pair);
    grid::lemma_box_contains(start, pair.0);
    if in_bounds(pair.0, start) {
        grid::lemma_grid_contains(
            ConnDim::range(dim.adapt_x, pair.0.x as int, end.x),
            ConnDim::range(dim.adapt_y, pair.0.y as int, end.y),
            ConnDim::range(dim.adapt_z, pair.0.z as int, end.z),
            pair.1,
        );
    }
}

} // verus!
