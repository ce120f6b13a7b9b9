use sm_logic::bind::{Bind, InvalidConn};
use sm_logic::combiner::{Combiner, CompileError, Error, SlotSide};
use sm_logic::connection::ConnDim;
use sm_logic::positioner::{ManualPos, ManualPosError};
use sm_logic::scheme::Scheme;
use sm_logic::shape::vanilla::{BlockBody, BlockType, GateMode, Timer};
use sm_logic::util::{Bounds, Facing, Point, Rot};

fn p(x: i32, y: i32, z: i32) -> Point {
    Point::new(x, y, z)
}

fn b(x: u32, y: u32, z: u32) -> Bounds {
    Bounds::new(x, y, z)
}

fn s(text: &str) -> String {
    text.to_string()
}

fn gate(mode: GateMode) -> Scheme {
    mode.into_shape().into_scheme()
}

fn strings(list: &[&str]) -> Vec<String> {
    list.iter().map(|text| text.to_string()).collect()
}

/// A one-bit full adder: inputs `a`, `b` and `_` (carry in), outputs `res`
/// and `_` (carry out). Eight gates.
fn adder_section() -> Scheme {
    let mut c = Combiner::pos_manual();
    c.add_mul(strings(&["a", "b", "c"]), gate(GateMode::OR)).unwrap();
    c.add_mul(strings(&["and_1", "and_2", "and_3"]), gate(GateMode::AND)).unwrap();
    c.add(s("res"), gate(GateMode::XOR)).unwrap();
    c.add(s("cout"), gate(GateMode::OR)).unwrap();
    c.pos().place_iter(vec![
        (s("a"), p(0, 0, 0)),
        (s("b"), p(0, 0, 1)),
        (s("c"), p(2, 0, 1)),
        (s("and_1"), p(1, 0, 0)),
        (s("and_2"), p(1, 0, 1)),
        (s("and_3"), p(2, 0, 0)),
        (s("res"), p(3, 0, 0)),
        (s("cout"), p(3, 0, 1)),
    ]);
    c.pos().rotate(s("a"), Facing::NegX.to_rot());
    c.pos().rotate(s("res"), Facing::PosX.to_rot());

    c.connect_iter(strings(&["a", "b", "c"]), strings(&["res"]));
    c.connect_iter(strings(&["a"]), strings(&["and_1", "and_2"]));
    c.connect_iter(strings(&["b"]), strings(&["and_2", "and_3"]));
    c.connect_iter(strings(&["c"]), strings(&["and_3", "and_1"]));
    c.connect_iter(strings(&["and_1", "and_2", "and_3"]), strings(&["cout"]));

    c.pass_input(s("a"), s("a"), Some(s("bit"))).unwrap();
    c.pass_input(s("b"), s("b"), Some(s("bit"))).unwrap();
    c.pass_input(s("_"), s("c"), Some(s("bit"))).unwrap();
    c.pass_output(s("res"), s("res"), Some(s("bit"))).unwrap();
    c.pass_output(s("_"), s("cout"), Some(s("bit"))).unwrap();

    let (scheme, invalid) = c.compile().unwrap();
    assert!(invalid.connections.is_empty());
    assert!(invalid.inp_bind_conns.is_empty());
    assert!(invalid.out_bind_conns.is_empty());
    scheme
}

#[test]
fn tmp() {
    let _combiner = Combiner::pos_manual();
}

#[test]
fn single_gate_wrapper_compiles() {
    let mut combiner = Combiner::pos_manual();
    combiner.add(s("test"), gate(GateMode::AND)).unwrap();
    combiner.pos().place_last(p(0, 0, 0));
    combiner.pass_input(s("_"), s("test"), None).unwrap();
    combiner.pass_output(s("_"), s("test"), None).unwrap();

    let (scheme, invalid_acts) = combiner.compile().unwrap();
    assert_eq!(invalid_acts.connections.len(), 0);
    assert_eq!(invalid_acts.inp_bind_conns.len(), 0);
    assert_eq!(invalid_acts.out_bind_conns.len(), 0);
    assert_eq!(scheme.shapes_count(), 1);
    assert_eq!(scheme.bounds(), b(1, 1, 1));
    assert_eq!(scheme.inputs().len(), 1);
    assert_eq!(scheme.inputs()[0].kind(), "logic");
    assert_eq!(scheme.inputs()[0].shape_map().as_raw(), &vec![vec![0]]);
    assert_eq!(scheme.outputs()[0].shape_map().as_raw(), &vec![vec![0]]);
}

#[test]
fn adder_section_is_wired_as_drawn() {
    let section = adder_section();
    assert_eq!(section.shapes_count(), 8);
    // a, b, c, and_1, and_2, and_3, res, cout
    let conns: Vec<Vec<usize>> = section.shapes().iter().map(|unit| unit.2.connections().clone()).collect();
    assert_eq!(
        conns,
        vec![
            vec![6, 3, 4],
            vec![6, 4, 5],
            vec![6, 5, 3],
            vec![7],
            vec![7],
            vec![7],
            vec![],
            vec![],
        ]
    );
    assert_eq!(section.input(s("a")).unwrap().0.shape_map().as_raw(), &vec![vec![0]]);
    assert_eq!(section.input(s("")).unwrap().0.shape_map().as_raw(), &vec![vec![2]]);
    assert_eq!(section.output(s("res")).unwrap().0.shape_map().as_raw(), &vec![vec![6]]);
    assert_eq!(section.output(s("_")).unwrap().0.shape_map().as_raw(), &vec![vec![7]]);
    assert!(section.output(s("a")).is_none());
    assert_eq!(section.bounds(), b(4, 1, 2));
}

#[test]
fn adder_of_sections_chains_the_carry() {
    let n: usize = 5;
    let section = adder_section();
    let per_section = section.shapes_count();
    let mut c = Combiner::pos_manual();
    let mut a = Bind::new(s("a"), s("binary"), b(n as u32, 1, 1));
    let mut bb = Bind::new(s("b"), s("binary"), b(n as u32, 1, 1));
    let mut res = Bind::new(s("res"), s("binary"), b(n as u32, 1, 1));
    for i in 0..n {
        let name = format!("s{}", i);
        c.add(name.clone(), section.clone()).unwrap();
        c.pos().place_last(p(0, 2 * i as i32, 0));
        a.connect((p(i as i32, 0, 0), b(1, 1, 1)), format!("{}/a", name));
        bb.connect((p(i as i32, 0, 0), b(1, 1, 1)), format!("{}/b", name));
        res.connect((p(i as i32, 0, 0), b(1, 1, 1)), format!("{}/res", name));
        if i > 0 {
            c.connect(format!("s{}", i - 1), name);
        }
    }
    c.bind_input(a).unwrap();
    c.bind_input(bb).unwrap();
    c.bind_output(res).unwrap();

    let (scheme, invalid) = c.compile().unwrap();
    assert!(invalid.connections.is_empty());
    assert!(invalid.inp_bind_conns.is_empty());
    assert!(invalid.out_bind_conns.is_empty());
    assert_eq!(scheme.shapes_count(), n * per_section);

    let inputs_a = scheme.input(s("a")).unwrap().0;
    let inputs_b = scheme.input(s("b")).unwrap().0;
    let outputs = scheme.output(s("res")).unwrap().0;
    for i in 0..n {
        let base = i * per_section;
        assert_eq!(inputs_a.get_point(p(i as i32, 0, 0)), Some(&vec![base]));
        assert_eq!(inputs_b.get_point(p(i as i32, 0, 0)), Some(&vec![base + 1]));
        // The sum bit of section i is its XOR gate.
        assert_eq!(outputs.get_point(p(i as i32, 0, 0)), Some(&vec![base + 6]));
        // Inside a section, connections are counted from its first unit.
        assert_eq!(scheme.shapes()[base].2.connections(), &vec![base + 6, base + 3, base + 4]);
        // The carry out of a section leads to the carry in of the next one.
        let carry_out = scheme.shapes()[base + 7].2.connections();
        if i + 1 < n {
            assert_eq!(carry_out, &vec![base + per_section + 2]);
        } else {
            assert!(carry_out.is_empty());
        }
        assert_eq!(scheme.shapes()[base].0, p(0, 2 * i as i32, 0));
    }
}

#[test]
fn a_second_scheme_of_the_same_name_is_refused() {
    let mut combiner = Combiner::pos_manual();
    combiner.add(s("timer"), Timer::new(42).into_scheme()).unwrap();
    let plate = BlockBody::new(BlockType::Cardboard, b(10, 10, 1)).into_scheme();
    match combiner.add(s("timer"), plate) {
        Err(Error::NameWasAlreadyTaken { taken_name, tip }) => {
            assert_eq!(taken_name, "timer");
            assert_eq!(tip, "Scheme with such name was already added");
        }
        other => panic!("the name was taken: {:?}", other),
    }
    assert_eq!(combiner.schemes.len(), 1);
    combiner.pos().place(s("timer"), p(0, 0, 0));
    let (scheme, _) = combiner.compile().unwrap();
    // Still the timer: one unit, two cells high.
    assert_eq!(scheme.shapes_count(), 1);
    assert_eq!(scheme.bounds(), b(1, 1, 2));
}

#[test]
fn names_with_a_separator_are_refused() {
    let mut combiner = Combiner::pos_manual();
    combiner.set_debug_name(s("top"));
    match combiner.add(s("a/b"), gate(GateMode::OR)) {
        Err(Error::InvalidName { invalid_name, tip }) => {
            assert_eq!(invalid_name, "a/b");
            assert_eq!(tip, "Scheme name cannot contain '/' (slash) symbol ('top')");
        }
        other => panic!("the name is invalid: {:?}", other),
    }
    assert!(matches!(
        combiner.bind_input(Bind::new(s("x/y"), s("k"), b(1, 1, 1))),
        Err(Error::InvalidName { .. })
    ));
    combiner.bind_input(Bind::new(s("x"), s("k"), b(1, 1, 1))).unwrap();
    match combiner.bind_input(Bind::new(s("x"), s("k"), b(1, 1, 1))) {
        Err(Error::NameWasAlreadyTaken { taken_name, tip }) => {
            assert_eq!(taken_name, "x");
            assert_eq!(tip, "Input bind with such name was already added to 'top'");
        }
        other => panic!("the name was taken: {:?}", other),
    }
    // Inputs and outputs have names of their own.
    combiner.bind_output(Bind::new(s("x"), s("k"), b(1, 1, 1))).unwrap();
    match combiner.bind_output(Bind::new(s("x"), s("k"), b(1, 1, 1))) {
        Err(Error::NameWasAlreadyTaken { tip, .. }) => {
            assert_eq!(tip, "Output bind with such name was already added to ('top')");
        }
        other => panic!("the name was taken: {:?}", other),
    }
    assert!(combiner.schemes.is_empty());
}

#[test]
fn an_unplaced_scheme_is_fatal() {
    let mut combiner = Combiner::pos_manual();
    combiner.add(s("placed"), gate(GateMode::OR)).unwrap();
    combiner.pos().place_last(p(0, 0, 0));
    combiner.add(s("lost"), gate(GateMode::OR)).unwrap();
    match combiner.compile() {
        Err(CompileError::PositionerError(errors)) => match errors.as_slice() {
            [ManualPosError::SchemeIsNotPlaced { name }] => assert_eq!(name, "lost"),
            _ => panic!("one scheme was not placed"),
        },
        _ => panic!("the scheme was not placed"),
    }
}

#[test]
fn every_unplaced_scheme_is_named() {
    let mut combiner = Combiner::pos_manual();
    combiner.add(s("first"), gate(GateMode::OR)).unwrap();
    combiner.add(s("placed"), gate(GateMode::OR)).unwrap();
    combiner.pos().place_last(p(0, 0, 0));
    combiner.add(s("turned"), gate(GateMode::OR)).unwrap();
    combiner.pos().rotate_last(Rot::new(0, 0, 1));
    combiner.add(s("last"), gate(GateMode::OR)).unwrap();
    match combiner.compile() {
        Err(CompileError::PositionerError(errors)) => match errors.as_slice() {
            [ManualPosError::SchemeIsNotPlaced { name: a }, ManualPosError::SchemeHasNoPosition { name: b }, ManualPosError::SchemeIsNotPlaced { name: c }] =>
            {
                assert_eq!((a.as_str(), b.as_str(), c.as_str()), ("first", "turned", "last"));
            }
            _ => panic!("three schemes have no position"),
        },
        _ => panic!("the schemes were not placed"),
    }
}

#[test]
fn a_scheme_that_was_only_rotated_has_no_position() {
    let mut combiner = Combiner::pos_manual();
    combiner.add(s("turned"), gate(GateMode::OR)).unwrap();
    combiner.pos().rotate_last(Rot::new(0, 0, 1));
    match combiner.compile() {
        Err(CompileError::PositionerError(errors)) => match errors.as_slice() {
            [ManualPosError::SchemeHasNoPosition { name }] => assert_eq!(name, "turned"),
            _ => panic!("one scheme has no position"),
        },
        _ => panic!("the scheme has no position"),
    }
}

#[test]
fn unresolved_paths_are_reported_and_skipped() {
    let mut combiner = Combiner::pos_manual();
    combiner.add_mul(strings(&["a", "b"]), gate(GateMode::OR)).unwrap();
    combiner.pos().place(s("a"), p(0, 0, 0));
    combiner.pos().place(s("b"), p(1, 0, 0));
    combiner.connect(s("a"), s("nowhere"));
    combiner.connect(s("a"), s("b"));
    combiner.connect(s("a/none"), s("b"));
    combiner.connect(s("a"), s("b/_/none"));
    let mut input = Bind::new(s("in"), s("bit"), b(1, 1, 1));
    input.connect_full(s("missing"));
    input.connect_full(s("a"));
    combiner.bind_input(input).unwrap();
    let mut output = Bind::new(s("out"), s("bit"), b(1, 1, 1));
    output.connect_full(s("b/other"));
    combiner.bind_output(output).unwrap();

    let (scheme, invalid) = combiner.compile().unwrap();
    let dangling: Vec<(&str, &str)> =
        invalid.connections.iter().map(|case| (case.from.as_str(), case.to.as_str())).collect();
    assert_eq!(dangling, vec![("a", "nowhere"), ("a/none", "b"), ("a", "b/_/none")]);
    assert_eq!(invalid.inp_bind_conns.len(), 1);
    assert_eq!(invalid.inp_bind_conns[0].0, "in");
    assert!(matches!(&invalid.inp_bind_conns[0].1, InvalidConn::TargetSchemeDoesNotExists { target_scheme, .. } if target_scheme == "missing"));
    assert_eq!(invalid.out_bind_conns.len(), 1);
    assert_eq!(invalid.out_bind_conns[0].0, "out");
    assert!(matches!(&invalid.out_bind_conns[0].1, InvalidConn::TargetSlotDoesNotExists { target_slot, .. } if target_slot == "other"));
    assert_eq!(scheme.shapes()[0].2.connections(), &vec![1]);
    assert_eq!(scheme.inputs()[0].shape_map().as_raw(), &vec![vec![0]]);
    assert_eq!(scheme.outputs()[0].shape_map().as_raw(), &vec![vec![]]);
}

#[test]
fn connections_run_from_outputs_to_inputs_only() {
    let mut combiner = Combiner::pos_manual();
    combiner.add(s("gate"), gate(GateMode::OR)).unwrap();
    combiner.add(s("plate"), BlockBody::new(BlockType::Glass, b(1, 1, 1)).into_scheme()).unwrap();
    combiner.pos().place(s("gate"), p(0, 0, 0));
    combiner.pos().place(s("plate"), p(1, 0, 0));
    // A block has no slots: it can neither send nor receive.
    combiner.connect(s("gate"), s("plate"));
    combiner.connect(s("plate"), s("gate"));
    let (scheme, invalid) = combiner.compile().unwrap();
    assert_eq!(invalid.connections.len(), 2);
    assert!(scheme.shapes().iter().all(|unit| unit.2.connections().is_empty()));
}

#[test]
fn too_many_connections_are_fatal_unless_allowed() {
    let build = |allow: bool| {
        let mut combiner = Combiner::pos_manual();
        combiner.set_debug_name(s("fan"));
        combiner.add(s("source"), gate(GateMode::OR)).unwrap();
        combiner.pos().place_last(p(0, 0, 0));
        combiner.add(s("other"), gate(GateMode::OR)).unwrap();
        combiner.pos().place_last(p(0, 1, 0));
        for i in 0..256 {
            let name = format!("t{}", i);
            combiner.add(name.clone(), gate(GateMode::AND)).unwrap();
            combiner.pos().place_last(p(1, i, 0));
            combiner.connect(s("source"), name);
        }
        combiner.pass_input(s("in"), s("source"), None).unwrap();
        combiner.pass_input(s("spare"), s("other"), None).unwrap();
        if allow {
            combiner.allow_conns_overflow();
        }
        combiner.compile()
    };
    match build(false) {
        Err(CompileError::ConnectionsOverflow { affected_inputs, affected_outputs, tip }) => {
            assert_eq!(affected_inputs, vec![s("source/_")]);
            assert_eq!(affected_outputs, vec![s("source/_")]);
            assert!(tip.starts_with("Combiner 'fan' compilation: Some slots were connected"));
            assert!(tip.contains("more than 255 connections"));
        }
        _ => panic!("a unit has 256 connections"),
    }
    let (scheme, _) = build(true).unwrap();
    assert_eq!(scheme.shapes()[0].2.connections().len(), 256);
}

#[test]
fn exactly_the_limit_is_allowed() {
    let mut combiner = Combiner::pos_manual();
    combiner.add(s("source"), gate(GateMode::OR)).unwrap();
    combiner.pos().place_last(p(0, 0, 0));
    for i in 0..255 {
        let name = format!("t{}", i);
        combiner.add(name.clone(), gate(GateMode::AND)).unwrap();
        combiner.pos().place_last(p(1, i, 0));
        combiner.connect(s("source"), name);
    }
    let (scheme, _) = combiner.compile().unwrap();
    assert_eq!(scheme.shapes()[0].2.connections().len(), 255);
}

#[test]
fn placement_turns_and_moves_a_scheme() {
    // Two gates in a row along X; turned a quarter around Z the row runs
    // along Y.
    let mut row = Combiner::pos_manual();
    row.add_mul(strings(&["left", "right"]), gate(GateMode::OR)).unwrap();
    row.pos().place(s("left"), p(5, 5, 5));
    row.pos().place(s("right"), p(6, 5, 5));
    let (row, _) = row.compile().unwrap();
    assert_eq!(row.bounds(), b(2, 1, 1));

    let mut combiner = Combiner::pos_manual();
    combiner.add(s("row"), row).unwrap();
    combiner.pos().place_last(p(10, 20, 30));
    combiner.pos().rotate_last(Rot::new(0, 0, 1));
    let (scheme, _) = combiner.compile().unwrap();
    // Positions are taken from the lowest corner of the scheme.
    assert_eq!(scheme.shapes()[0].0, p(10, 20, 30));
    assert_eq!(scheme.shapes()[1].0, p(10, 21, 30));
    assert_eq!(scheme.shapes()[0].1, Rot::new(0, 0, 1));
    assert_eq!(scheme.bounds(), b(1, 2, 1));
}

#[test]
fn passing_a_whole_slot_keeps_its_sectors() {
    let mut inner = Combiner::pos_manual();
    inner.add_mul(strings(&["g0", "g1"]), gate(GateMode::OR)).unwrap();
    inner.pos().place(s("g0"), p(0, 0, 0));
    inner.pos().place(s("g1"), p(1, 0, 0));
    let mut word = Bind::new(s("word"), s("binary"), b(2, 1, 1));
    word.connect((p(0, 0, 0), b(1, 1, 1)), s("g0"));
    word.connect((p(1, 0, 0), b(1, 1, 1)), s("g1"));
    word.add_sector(s("low"), p(0, 0, 0), b(1, 1, 1), s("bit")).unwrap();
    word.add_sector(s("high"), p(1, 0, 0), b(1, 1, 1), s("bit")).unwrap();
    inner.bind_input(word).unwrap();
    let (inner, _) = inner.compile().unwrap();

    let mut outer = Combiner::pos_manual();
    outer.add(s("inner"), inner).unwrap();
    outer.pos().place_last(p(0, 0, 0));
    outer.pass_input(s("all"), s("inner/word"), None).unwrap();
    outer.pass_input(s("top"), s("inner/word/high"), Some(s("flag"))).unwrap();
    match outer.pass_input(s("bad"), s("inner/none"), None) {
        Err(Error::PassHasInvalidTarget { pass_name, pass_side, tip }) => {
            assert_eq!(pass_name, "bad");
            assert_eq!(pass_side, SlotSide::Input);
            assert_eq!(tip, "Slot inner/none was not found (Scheme exists, but not the slot).");
        }
        other => panic!("the slot does not exist: {:?}", other),
    }
    match outer.pass_output(s("bad"), s("other"), None) {
        Err(Error::PassHasInvalidTarget { tip, .. }) => assert_eq!(tip, "Scheme 'other' was not found."),
        other => panic!("the scheme does not exist: {:?}", other),
    }
    assert!(matches!(outer.pass_input(s("a/b"), s("inner/word"), None), Err(Error::InvalidName { .. })));
    assert!(matches!(
        outer.pass_input(s("all"), s("inner/word"), None),
        Err(Error::NameWasAlreadyTaken { .. })
    ));

    let (scheme, invalid) = outer.compile().unwrap();
    assert!(invalid.inp_bind_conns.is_empty());
    let all = scheme.input(s("all")).unwrap().0;
    assert_eq!(all.kind(), "binary");
    assert_eq!(all.shape_map().as_raw(), &vec![vec![0], vec![1]]);
    let names: Vec<&str> = all.sectors().iter().map(|sector| sector.0.as_str()).collect();
    assert_eq!(names, vec!["", "low", "high"]);
    let (top, whole) = scheme.input(s("top")).unwrap();
    assert_eq!(top.kind(), "flag");
    assert_eq!(whole.bounds, b(1, 1, 1));
    assert_eq!(top.shape_map().as_raw(), &vec![vec![1]]);
    assert_eq!(top.sectors().len(), 1);
    let (_, high) = scheme.input(s("all/high")).unwrap();
    assert_eq!((high.pos, high.bounds), (p(1, 0, 0), b(1, 1, 1)));
}

#[test]
fn dim_connection_fans_out_between_slots() {
    let mut inner = Combiner::pos_manual();
    inner.add_mul(strings(&["g0", "g1", "g2"]), gate(GateMode::OR)).unwrap();
    inner.pos().place_iter(vec![(s("g0"), p(0, 0, 0)), (s("g1"), p(1, 0, 0)), (s("g2"), p(2, 0, 0))]);
    let mut word = Bind::new(s("_"), s("binary"), b(3, 1, 1));
    for i in 0..3 {
        word.connect((p(i, 0, 0), b(1, 1, 1)), format!("g{}", i));
    }
    inner.bind_input(word).unwrap();
    let (bus, _) = inner.compile().unwrap();

    let mut combiner = Combiner::pos_manual();
    combiner.add(s("signal"), gate(GateMode::OR)).unwrap();
    combiner.pos().place_last(p(0, 0, 0));
    combiner.add(s("bus"), bus).unwrap();
    combiner.pos().place_last(p(0, 1, 0));
    combiner.custom(s("signal"), s("bus"), ConnDim::new((true, false, false)));
    let (scheme, invalid) = combiner.compile().unwrap();
    assert!(invalid.connections.is_empty());
    assert_eq!(scheme.shapes()[0].2.connections(), &vec![1, 2, 3]);
}

#[test]
fn marks_reach_the_units_of_a_scheme() {
    let mut combiner: Combiner<ManualPos> = Combiner::new(ManualPos::new());
    combiner.add(s("g"), gate(GateMode::OR)).unwrap();
    assert!(combiner.last_scheme().is_some());
    combiner.set_forcibly_used(s("g")).unwrap();
    assert!(combiner.schemes[0].1.shapes()[0].2.is_forcibly_used());
    combiner.unset_forcibly_used(s("g")).unwrap();
    assert!(!combiner.schemes[0].1.shapes()[0].2.is_forcibly_used());
    match combiner.set_forcibly_used(s("h")) {
        Err(Error::NoSuchScheme { name }) => assert_eq!(name, "h"),
        other => panic!("there is no such scheme: {:?}", other),
    }
    combiner.last_scheme_mut().unwrap().full_paint(s("ff0000"));
    assert_eq!(combiner.schemes[0].1.shapes()[0].2.get_color(), &Some(s("ff0000")));
}

#[test]
fn add_iter_reports_every_refused_pair() {
    let mut combiner = Combiner::pos_manual();
    let result = combiner.add_iter(vec![
        (s("a"), gate(GateMode::OR)),
        (s("a"), gate(GateMode::AND)),
        (s("b/c"), gate(GateMode::AND)),
        (s("d"), gate(GateMode::AND)),
    ]);
    match result {
        Err(errors) => {
            assert_eq!(errors.len(), 2);
            assert!(matches!(&errors[0], Error::NameWasAlreadyTaken { taken_name, .. } if taken_name == "a"));
            assert!(matches!(&errors[1], Error::InvalidName { invalid_name, .. } if invalid_name == "b/c"));
        }
        Ok(()) => panic!("two pairs had to be refused"),
    }
    let names: Vec<&str> = combiner.schemes.iter().map(|pair| pair.0.as_str()).collect();
    assert_eq!(names, vec!["a", "d"]);
}
