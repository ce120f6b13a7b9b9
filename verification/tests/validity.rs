use sm_logic::bind::{Bind, SlotsOf};
use sm_logic::combiner::validity::names_hold;
use sm_logic::combiner::{Combiner, CompileError, Error};
use sm_logic::positioner::{ManualPos, ManualPosError, Positioner};
use sm_logic::scheme::validity::{all_wired, box_has, slots_hold};
use sm_logic::scheme::Scheme;
use sm_logic::shape::vanilla::{Gate, GateMode};
use sm_logic::shape::Shape;
use sm_logic::slot::{Slot, SlotSector};
use sm_logic::util::{Bounds, Map3D, Point, Rot};

fn p(x: i32, y: i32, z: i32) -> Point {
    Point::new(x, y, z)
}

fn b(x: u32, y: u32, z: u32) -> Bounds {
    Bounds::new(x, y, z)
}

fn s(text: &str) -> String {
    text.to_string()
}

fn gate_to(conns: &[usize]) -> Shape {
    let mut gate = Gate::new(GateMode::OR);
    gate.extend_conn(&conns.to_vec());
    gate
}

fn unit(x: i32, conns: &[usize]) -> (Point, Rot, Shape) {
    (p(x, 0, 0), Rot::new(0, 0, 0), gate_to(conns))
}

fn slot_of(name: &str, points: Vec<Vec<usize>>) -> Slot {
    let width = points.len();
    Slot::new(s(name), s("binary"), b(width as u32, 1, 1), Map3D::from_raw((width, 1, 1), points))
}

#[test]
fn boxes_are_counted_without_overflow() {
    assert!(box_has(2, 3, 4, 24));
    assert!(!box_has(2, 3, 4, 23));
    assert!(box_has(0, usize::MAX, usize::MAX, 0));
    assert!(box_has(usize::MAX, 1, 1, usize::MAX));
    assert!(!box_has(usize::MAX, usize::MAX, usize::MAX, usize::MAX));
    assert!(!box_has(usize::MAX, 2, 1, usize::MAX));
    assert!(!box_has(1, 1, 1, 0));
}

#[test]
fn a_slot_made_by_hand_is_told_from_a_sound_one() {
    let mut slot = slot_of("bits", vec![vec![0], vec![1, 2]]);
    assert!(slot.is_wf());
    slot.bind_sector(s("low"), SlotSector { pos: p(0, 0, 0), bounds: b(1, 1, 1), kind: s("bit") })
        .unwrap();
    assert!(slot.is_wf());
    assert!(slot.is_within(3));
    assert!(!slot.is_within(2));

    // The point map has another size than the slot.
    let mut wide = slot.clone();
    wide.bounds = b(3, 1, 1);
    assert!(!wide.is_wf());
    // The raw vector has another length than the point map.
    let mut short = slot.clone();
    short.shape_map.data.pop();
    assert!(!short.is_wf());
    // A sector outside the slot.
    let mut outside = slot.clone();
    outside.sectors.push((s("far"), SlotSector { pos: p(1, 0, 0), bounds: b(2, 1, 1), kind: s("bit") }));
    assert!(!outside.is_wf());
    // Two sectors of one name.
    let mut twice = slot.clone();
    twice.sectors.push((s("low"), SlotSector { pos: p(1, 0, 0), bounds: b(1, 1, 1), kind: s("bit") }));
    assert!(!twice.is_wf());
    // The first sector is not the slot itself.
    let mut headless = slot.clone();
    headless.sectors.remove(0);
    assert!(!headless.is_wf());
    let mut renamed = slot.clone();
    renamed.sectors[0].0 = s("all");
    assert!(!renamed.is_wf());
    let mut other_kind = slot.clone();
    other_kind.kind = s("decimal");
    assert!(!other_kind.is_wf());
    // No sector at all.
    let mut bare = slot.clone();
    bare.sectors.clear();
    assert!(!bare.is_wf());
}

#[test]
fn units_and_slots_are_tested_before_a_scheme_is_made() {
    let shapes = vec![unit(0, &[1]), unit(1, &[0, 1])];
    assert!(all_wired(&shapes));
    assert!(!all_wired(&vec![unit(0, &[1])]));
    assert!(all_wired(&vec![]));
    let inputs = vec![slot_of("a", vec![vec![0, 1]])];
    let outputs = vec![slot_of("q", vec![vec![2]])];
    assert!(slots_hold(&inputs, 2));
    assert!(!slots_hold(&outputs, 2));
    assert!(slots_hold(&outputs, 3));
    assert!(Scheme::can_be_created(&shapes, &inputs, &vec![]));
    assert!(!Scheme::can_be_created(&shapes, &inputs, &outputs));
    assert!(!Scheme::can_be_created(&vec![unit(i32::MAX, &[])], &vec![], &vec![]));
    assert!(!Scheme::can_be_created(&vec![unit(0, &[7])], &vec![], &vec![]));

    let mut scheme = Scheme::create(shapes, inputs, vec![]);
    assert!(scheme.is_wf());
    assert_eq!(scheme.bounds(), b(2, 1, 1));
    // Set by hand, the size is no longer that of the units.
    scheme.bounds = b(5, 1, 1);
    assert!(!scheme.is_wf());
    scheme.bounds = b(2, 1, 1);
    assert!(scheme.is_wf());
    scheme.shapes[0].2.push_conn(2);
    assert!(!scheme.is_wf());
}

fn gate_at(at: Point) -> Scheme {
    Scheme::create(vec![(at, Rot::new(0, 0, 0), Gate::new(GateMode::OR))], vec![], vec![])
}

#[test]
fn compiling_tells_when_something_overflows() {
    let mut combiner: Combiner<ManualPos> = Combiner::pos_manual();
    combiner.add(s("gate"), gate_at(p(0, 0, 0))).unwrap();
    combiner.pos().place(s("gate"), p(i32::MAX, 0, 0));
    assert!(!combiner.can_be_compiled());
    assert!(combiner.try_compile().is_none());

    let mut combiner: Combiner<ManualPos> = Combiner::pos_manual();
    combiner.add(s("gate"), gate_at(p(0, 0, 0))).unwrap();
    combiner.pos().place(s("gate"), p(i32::MAX - 1, 0, 0));
    let (scheme, acts) = combiner.try_compile().unwrap().unwrap();
    assert_eq!(scheme.shapes_count(), 1);
    assert_eq!(scheme.shapes()[0].0, p(i32::MAX - 1, 0, 0));
    assert!(acts.connections.is_empty());

    let mut combiner: Combiner<ManualPos> = Combiner::pos_manual();
    combiner.add(s("gate"), gate_at(p(0, 0, 0))).unwrap();
    combiner.pos().place_last(p(0, 0, 0));
    combiner.bind_input(Bind::new(s("huge"), s("k"), b(u32::MAX, u32::MAX, u32::MAX))).unwrap();
    assert!(combiner.try_compile().is_none());

    // A scheme without a place is no overflow: compiling fails as ever.
    let mut combiner: Combiner<ManualPos> = Combiner::pos_manual();
    combiner.add(s("lost"), gate_at(p(0, 0, 0))).unwrap();
    match combiner.try_compile() {
        Some(Err(CompileError::PositionerError(errors))) => match errors.as_slice() {
            [ManualPosError::SchemeIsNotPlaced { name }] => assert_eq!(name, "lost"),
            _ => panic!("one scheme was not placed"),
        },
        _ => panic!("the scheme was not placed"),
    }
}

#[test]
fn the_compiled_scheme_has_the_units_of_all_schemes() {
    let mut combiner: Combiner<ManualPos> = Combiner::pos_manual();
    let pair = Scheme::create(vec![unit(0, &[1]), unit(1, &[])], vec![], vec![]);
    combiner.add(s("one"), pair.clone()).unwrap();
    combiner.pos().place_last(p(0, 0, 0));
    combiner.add(s("two"), GateMode::OR.into_shape().into_scheme()).unwrap();
    combiner.pos().place_last(p(0, 1, 0));
    combiner.add(s("three"), pair).unwrap();
    combiner.pos().place_last(p(0, 2, 0));
    combiner.connect(s("two"), s("two"));
    let (scheme, _) = combiner.compile().unwrap();
    assert_eq!(scheme.shapes_count(), 5);
    let conns: Vec<Vec<usize>> =
        scheme.shapes().iter().map(|unit| unit.2.connections().clone()).collect();
    assert_eq!(conns, vec![vec![1], vec![], vec![2], vec![4], vec![]]);
    assert!(scheme.is_wf());
}

#[test]
fn the_manual_positioner_lists_what_it_lacks_in_order() {
    let mut pos = ManualPos::new();
    pos.place(s("b"), p(1, 2, 3));
    pos.rotate(s("c"), Rot::new(1, 0, 0));
    pos.rotate(s("b"), Rot::new(0, 0, 1));
    let schemes = vec![
        (s("a"), gate_at(p(0, 0, 0))),
        (s("b"), gate_at(p(0, 0, 0))),
        (s("c"), gate_at(p(0, 0, 0))),
    ];
    let errors = pos.arrange(schemes).err().unwrap();
    assert_eq!(errors.len(), 2);
    assert!(matches!(&errors[0], ManualPosError::SchemeIsNotPlaced { name } if name == "a"));
    assert!(matches!(&errors[1], ManualPosError::SchemeHasNoPosition { name } if name == "c"));

    let mut pos = ManualPos::new();
    pos.place(s("b"), p(1, 2, 3));
    pos.rotate(s("b"), Rot::new(0, 0, 1));
    pos.place(s("a"), p(0, 0, 0));
    let placed =
        pos.arrange(vec![(s("a"), gate_at(p(0, 0, 0))), (s("b"), gate_at(p(0, 0, 0)))]).ok().unwrap();
    assert_eq!(placed.len(), 2);
    assert_eq!((placed[0].0.as_str(), placed[0].1 .0, placed[0].1 .1), ("a", p(0, 0, 0), Rot::new(0, 0, 0)));
    assert_eq!((placed[1].0.as_str(), placed[1].1 .0, placed[1].1 .1), ("b", p(1, 2, 3), Rot::new(0, 0, 1)));
}

#[test]
fn passing_all_slots_fails_at_the_first_name_that_is_refused() {
    let section = || {
        let mut gate = GateMode::OR.into_shape().into_scheme();
        let second = slot_of("more", vec![vec![0]]);
        gate.inputs.push(second);
        gate
    };
    // A name with a separator is refused: the scheme and the passes before it stay.
    let mut combiner = Combiner::pos_manual();
    let done = combiner.add_pass_all(
        s("gate"),
        section(),
        |name: &String| if name == "more" { s("a/b") } else { name.clone() },
        |name: &String| name.clone(),
    );
    assert!(matches!(done, Err(Error::InvalidName { .. })));
    assert_eq!(combiner.schemes.len(), 1);
    assert_eq!(combiner.inputs.len(), 1);
    assert_eq!(combiner.outputs.len(), 0);
    // Two slots under one name: the second is refused.
    let mut combiner = Combiner::pos_manual();
    let done = combiner.add_pass_all(
        s("gate"),
        section(),
        |_: &String| s("same"),
        |name: &String| name.clone(),
    );
    assert!(matches!(done, Err(Error::NameWasAlreadyTaken { .. })));
    assert_eq!(combiner.inputs.len(), 1);
    // A name that a bind has already.
    let mut combiner = Combiner::pos_manual();
    combiner.bind_output(Bind::new(s("out"), s("k"), b(1, 1, 1))).unwrap();
    let done = combiner.add_pass_all(
        s("gate"),
        section(),
        |name: &String| format!("in{}", name),
        |_: &String| s("out"),
    );
    assert!(matches!(done, Err(Error::NameWasAlreadyTaken { .. })));
    assert_eq!(combiner.inputs.len(), 2);
    assert_eq!(combiner.outputs.len(), 1);
    // New names without separator: everything is passed on.
    let mut combiner = Combiner::pos_manual();
    combiner
        .add_pass_all(
            s("gate"),
            section(),
            |name: &String| format!("in{}", name),
            |name: &String| format!("out{}", name),
        )
        .unwrap();
    assert_eq!(combiner.inputs.len(), 2);
    assert_eq!(combiner.outputs.len(), 1);
    assert_eq!(combiner.inputs[1].name(), "inmore");
}

#[test]
fn a_bind_made_by_hand_is_told_from_a_sound_one() {
    let mut bind = Bind::new(s("data"), s("binary"), b(4, 1, 1));
    assert!(bind.is_wf());
    bind.add_sector(s("low"), p(0, 0, 0), b(2, 1, 1), s("binary")).unwrap();
    bind.add_sector(s("high"), p(2, 0, 0), b(2, 1, 1), s("binary")).unwrap();
    assert!(bind.is_wf());
    let mut twice = bind.clone();
    twice.sectors.push((s("low"), p(1, 0, 0), b(1, 1, 1), s("bit")));
    assert!(!twice.is_wf());
    let mut nameless = bind.clone();
    nameless.sectors.push((String::new(), p(1, 0, 0), b(1, 1, 1), s("bit")));
    assert!(!nameless.is_wf());
    let mut outside = bind.clone();
    outside.sectors.push((s("far"), p(3, 0, 0), b(2, 1, 1), s("bit")));
    assert!(!outside.is_wf());
    let mut small = bind.clone();
    small.size = b(3, 1, 1);
    assert!(!small.is_wf());
}

#[test]
fn a_combiner_made_by_hand_is_told_from_a_sound_one() {
    let mut combiner: Combiner<ManualPos> = Combiner::pos_manual();
    assert!(combiner.is_wf());
    combiner.add(s("a"), gate_at(p(0, 0, 0))).unwrap();
    combiner.add(s("b"), gate_at(p(0, 0, 0))).unwrap();
    combiner.bind_input(Bind::new(s("in"), s("k"), b(1, 1, 1))).unwrap();
    combiner.bind_output(Bind::new(s("in"), s("k"), b(1, 1, 1))).unwrap();
    assert!(combiner.is_wf());

    combiner.schemes.push((s("a"), gate_at(p(0, 0, 0))));
    assert!(!combiner.is_wf());
    combiner.schemes.pop();
    combiner.schemes.push((s("a/b"), gate_at(p(0, 0, 0))));
    assert!(!combiner.is_wf());
    combiner.schemes.pop();
    let mut broken = gate_at(p(0, 0, 0));
    broken.bounds = b(9, 9, 9);
    combiner.schemes.push((s("c"), broken));
    assert!(!combiner.is_wf());
    combiner.schemes.pop();
    assert!(combiner.is_wf());

    combiner.inputs.push(Bind::new(s("in"), s("k"), b(1, 1, 1)));
    assert!(!combiner.is_wf());
    combiner.inputs.pop();
    combiner.outputs.push(Bind::new(s("x/y"), s("k"), b(1, 1, 1)));
    assert!(!combiner.is_wf());
    combiner.outputs.pop();
    let mut bad = Bind::new(s("bad"), s("k"), b(1, 1, 1));
    bad.sectors.push((s("far"), p(5, 0, 0), b(1, 1, 1), s("k")));
    combiner.outputs.push(bad);
    assert!(!combiner.is_wf());
}

#[test]
fn positioners_maps_and_namespaces_are_tested_too() {
    let mut pos = ManualPos::new();
    assert!(pos.is_wf());
    pos.place(s("a"), p(0, 0, 0));
    pos.rotate(s("b"), Rot::new(0, 0, 1));
    assert!(pos.is_wf());
    pos.poses.push((s("a"), (None, Rot::new(0, 0, 0))));
    assert!(!pos.is_wf());

    let mut map: Map3D<u8> = Map3D::filled((2, 3, 4), 0);
    assert!(map.is_wf());
    map.data.pop();
    assert!(!map.is_wf());

    let sound = SlotsOf { scheme: s("a"), start_shape: 5, slots: vec![slot_of("q", vec![vec![0, 1]])] };
    assert!(names_hold(&vec![sound]));
    assert!(names_hold(&vec![]));
    let mut slot = slot_of("q", vec![vec![0, 1]]);
    slot.bounds = b(2, 1, 1);
    assert!(!names_hold(&vec![SlotsOf { scheme: s("a"), start_shape: 0, slots: vec![slot] }]));
    let far = SlotsOf { scheme: s("a"), start_shape: usize::MAX, slots: vec![slot_of("q", vec![vec![1]])] };
    assert!(!names_hold(&vec![far]));
    let edge = SlotsOf { scheme: s("a"), start_shape: usize::MAX - 2, slots: vec![slot_of("q", vec![vec![1]])] };
    assert!(names_hold(&vec![edge]));
}
