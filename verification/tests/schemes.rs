use sm_logic::bind::Bind;
use sm_logic::combiner::{Combiner, Error};
use sm_logic::scheme::export::{FnPalette, BLUEPRINT_VERSION};
use sm_logic::scheme::{find_slot, Scheme};
use sm_logic::shape::vanilla::{
    BlockBody, BlockType, CharacterShape, Gate, GateMode, Timer, TotebotCapsule, GATE_UUID, TIMER_UUID,
};
use sm_logic::shape::{out_conns_to_controller, ControllerDetail, Shape, ShapeBase};
use sm_logic::slot::Slot;
use sm_logic::util::palette::{color_to_string, input_base_color, output_base_color};
use sm_logic::util::{Bounds, Map3D, Point, Rot};

fn p(x: i32, y: i32, z: i32) -> Point {
    Point::new(x, y, z)
}

fn b(x: u32, y: u32, z: u32) -> Bounds {
    Bounds::new(x, y, z)
}

fn s(text: &str) -> String {
    text.to_string()
}

fn no_turn() -> Rot {
    Rot::new(0, 0, 0)
}

/// A slot with one point for each list of units.
fn slot_of(name: &str, points: Vec<Vec<usize>>) -> Slot {
    let width = points.len();
    Slot::new(s(name), s("binary"), b(width as u32, 1, 1), Map3D::from_raw((width, 1, 1), points))
}

/// Gates in a row along X, each connected as given.
fn row(conns: Vec<Vec<usize>>, outputs: Vec<Slot>) -> Scheme {
    let shapes = conns
        .into_iter()
        .enumerate()
        .map(|(i, list)| {
            let mut gate = Gate::new(GateMode::AND);
            gate.extend_conn(&list);
            (p(i as i32, 0, 0), no_turn(), gate)
        })
        .collect();
    Scheme::create(shapes, vec![], outputs)
}

fn conns_of(scheme: &Scheme) -> Vec<Vec<usize>> {
    scheme.shapes().iter().map(|unit| unit.2.connections().clone()).collect()
}

#[test]
fn units_know_their_kind() {
    let gate = Gate::new(GateMode::XOR);
    assert_eq!(gate.size(), b(1, 1, 1));
    assert_eq!(gate.bounds(), b(1, 1, 1));
    assert!(gate.has_input() && gate.has_output());
    let timer = Timer::new(410);
    assert!(matches!(timer.base, ShapeBase::Timer(Timer { seconds: 10, ticks: 10 })));
    assert!(matches!(Timer::from_time(3, 7).base, ShapeBase::Timer(Timer { seconds: 3, ticks: 7 })));
    assert_eq!(timer.size(), b(1, 1, 2));
    let block = BlockBody::new(BlockType::Metal1, b(10, 10, 400));
    assert_eq!(block.size(), b(10, 10, 400));
    assert!(!block.has_input() && !block.has_output());
    assert_eq!(TotebotCapsule::new().size(), b(7, 7, 6));
    let character = CharacterShape::new().into_shape();
    assert_eq!(character.size(), b(1, 1, 1));
    assert!(!character.has_input() && !character.has_output());
    assert_eq!(GateMode::AND.to_number(), 0);
    assert_eq!(GateMode::OR.to_number(), 1);
    assert_eq!(GateMode::XOR.to_number(), 2);
    assert_eq!(GateMode::NAND.to_number(), 3);
    assert_eq!(GateMode::NOR.to_number(), 4);
    assert_eq!(GateMode::XNOR.to_number(), 5);
    assert_eq!(BlockType::Concrete1.uuid(), "a6c6ce30-dd47-4587-b475-085d55c6a3b4");
    assert_eq!(BlockType::ArmoredGlass.uuid(), "b5ee5539-75a2-4fef-873b-ef7c9398b3f5");
    assert_eq!(BlockType::Concrete1.default_color(), "8d8f89");
    assert_eq!(BlockType::ArmoredGlass.default_color(), "3abfb1");
}

#[test]
fn units_collect_connections() {
    let mut shape = Gate::new(GateMode::AND);
    shape.extend_conn(&vec![1, 2, 3]);
    shape.push_conn(7);
    shape.connections_mut().push(9);
    assert_eq!(shape.connections(), &vec![1, 2, 3, 7, 9]);
    assert_eq!(shape.get_color(), &None);
    shape.set_color(s("112233"));
    assert_eq!(shape.get_color(), &Some(s("112233")));
    assert!(!shape.is_forcibly_used());
    shape.set_forcibly_used();
    assert!(shape.is_forcibly_used());
    let copy = shape.clone();
    shape.unset_forcibly_used();
    assert!(copy.is_forcibly_used() && !shape.is_forcibly_used());
    assert_eq!(copy.connections(), &vec![1, 2, 3, 7, 9]);
    assert_eq!(out_conns_to_controller(&vec![]), None);
    assert_eq!(out_conns_to_controller(&vec![4, 5]), Some(vec![4, 5]));
}

#[test]
fn a_single_shape_is_a_scheme() {
    let gate = GateMode::OR.into_shape().into_scheme();
    assert_eq!(gate.shapes_count(), 1);
    assert_eq!(gate.bounds(), b(1, 1, 1));
    assert_eq!(gate.inputs().len(), 1);
    assert_eq!(gate.outputs().len(), 1);
    assert_eq!(gate.inputs()[0].name(), "_");
    assert_eq!(gate.inputs()[0].kind(), "logic");
    assert_eq!(gate.inputs()[0].shape_map().as_raw(), &vec![vec![0]]);
    assert!(gate.input(s("")).is_some());
    assert!(gate.input(s("_")).is_some());
    assert!(gate.input(s("_/")).is_some());
    assert!(gate.input(s("x")).is_none());
    assert!(gate.input(s("_/x")).is_none());
    assert!(find_slot(&s(""), gate.outputs()).is_some());

    let block = BlockBody::new(BlockType::Wood1, b(2, 3, 4)).into_scheme();
    assert_eq!(block.bounds(), b(2, 3, 4));
    assert!(block.inputs().is_empty() && block.outputs().is_empty());
    let empty = Scheme::empty();
    assert_eq!(empty.shapes_count(), 0);
    assert_eq!(empty.bounds(), b(0, 0, 0));
    assert_eq!(empty.calculate_bounds(), (p(0, 0, 0), b(0, 0, 0)));
}

#[test]
fn bounds_follow_the_rotation_about_the_first_cell() {
    let timer = |at: Point, rot: Rot| Scheme::create(vec![(at, rot, Timer::new(1))], vec![], vec![]);
    // Upright, the timer takes the cell above its first cell.
    assert_eq!(timer(p(5, 5, 5), no_turn()).calculate_bounds(), (p(5, 5, 5), b(1, 1, 2)));
    // A quarter turn around X lays it down towards -Y: the first cell
    // stays where it is.
    assert_eq!(timer(p(5, 5, 5), Rot::new(1, 0, 0)).calculate_bounds(), (p(5, 4, 5), b(1, 2, 1)));
    // Upside down it takes the cell below.
    assert_eq!(timer(p(5, 5, 5), Rot::new(2, 0, 0)).calculate_bounds(), (p(5, 5, 4), b(1, 1, 2)));
    assert_eq!(timer(p(5, 5, 5), Rot::new(0, 1, 0)).calculate_bounds(), (p(5, 5, 5), b(2, 1, 1)));
    let far = Scheme::create(
        vec![
            (p(-3, 0, 0), no_turn(), Gate::new(GateMode::OR)),
            (p(4, 2, 0), no_turn(), BlockBody::new(BlockType::Glass, b(2, 2, 2))),
        ],
        vec![],
        vec![],
    );
    assert_eq!(far.calculate_bounds(), (p(-3, 0, 0), b(9, 4, 2)));
    assert_eq!(far.bounds(), b(9, 4, 2));
}

#[test]
fn rotating_a_scheme_turns_every_unit() {
    let mut scheme = Scheme::create(
        vec![
            (p(0, 0, 0), no_turn(), Gate::new(GateMode::OR)),
            (p(3, 0, 0), Rot::new(1, 0, 0), Timer::new(1)),
        ],
        vec![],
        vec![],
    );
    assert_eq!(scheme.bounds(), b(4, 2, 1));
    let turn = Rot::new(0, 0, 1);
    scheme.rotate(turn);
    assert_eq!(scheme.shapes()[0].0, p(0, 0, 0));
    assert_eq!(scheme.shapes()[1].0, p(0, 3, 0));
    assert_eq!(scheme.shapes()[0].1, turn);
    // The new rotation is applied after the one that was there.
    assert_eq!(scheme.shapes()[1].1, turn.apply_to_rot(Rot::new(1, 0, 0)));
    assert_eq!(scheme.bounds(), b(2, 4, 1));
}

#[test]
fn disassembling_moves_and_renumbers() {
    let scheme = row(vec![vec![1], vec![0, 1]], vec![]);
    let (shapes, inputs, outputs) = scheme.disassemble(10, p(100, 0, 0), Rot::new(0, 0, 2));
    assert!(inputs.is_empty() && outputs.is_empty());
    assert_eq!(shapes[0].0, p(100, 0, 0));
    assert_eq!(shapes[1].0, p(99, 0, 0));
    assert_eq!(shapes[0].2.connections(), &vec![11]);
    assert_eq!(shapes[1].2.connections(), &vec![10, 11]);
    assert_eq!(shapes[0].1, Rot::new(0, 0, 2));
}

#[test]
fn removing_a_unit_renumbers_connections_and_slots() {
    let out = slot_of("out", vec![vec![0, 2, 3], vec![2], vec![4, 1]]);
    let mut scheme = row(vec![vec![1, 2, 3], vec![2, 2, 4], vec![0], vec![4, 2, 1], vec![]], vec![out]);
    scheme.remove_shape(2);
    assert_eq!(scheme.shapes_count(), 4);
    assert_eq!(conns_of(&scheme), vec![vec![1, 2], vec![3], vec![3, 1], vec![]]);
    assert_eq!(scheme.outputs()[0].shape_map().as_raw(), &vec![vec![0, 2], vec![], vec![3, 1]]);
    // The unit that stood at 3 stands at 2 now.
    assert_eq!(scheme.shapes()[2].0, p(3, 0, 0));
    assert_eq!(scheme.bounds(), b(5, 1, 1));
    scheme.remove_shape(3);
    assert_eq!(scheme.bounds(), b(4, 1, 1));
    scheme.remove_shape(17);
    assert_eq!(scheme.shapes_count(), 3);
}

#[test]
fn removing_without_bounds_keeps_the_size() {
    let mut scheme = row(vec![vec![], vec![0]], vec![]);
    scheme.no_bounds_remove_shape(1);
    assert_eq!(scheme.shapes_count(), 1);
    assert_eq!(scheme.bounds(), b(2, 1, 1));
}

#[test]
fn replacing_a_unit_cuts_its_connections() {
    let out = slot_of("out", vec![vec![1, 2]]);
    let mut scheme = row(vec![vec![1, 2], vec![0], vec![1, 1]], vec![out]);
    scheme.shapes[1].2.set_color(s("abcdef"));
    scheme.shapes[1].2.set_forcibly_used();
    scheme.replace_shape(1, BlockType::Glass);
    assert_eq!(scheme.shapes_count(), 3);
    assert_eq!(conns_of(&scheme), vec![vec![2], vec![], vec![]]);
    assert_eq!(scheme.outputs()[0].shape_map().as_raw(), &vec![vec![2]]);
    let block = &scheme.shapes()[1].2;
    assert!(matches!(block.base, ShapeBase::Block(BlockBody { block_type: BlockType::Glass, .. })));
    assert_eq!(block.size(), b(1, 1, 1));
    assert_eq!(block.get_color(), &Some(s("abcdef")));
    assert!(block.is_forcibly_used());
}

#[test]
fn usage_spreads_back_along_connections() {
    // 0 -> 1 -> 2 (output), 3 -> 4 (kept by force), 5 -> 6 (nothing), and
    // 7 -> 8 -> 7 (a loop that leads nowhere).
    let out = slot_of("out", vec![vec![2]]);
    let mut scheme = row(
        vec![vec![1], vec![2], vec![], vec![4], vec![], vec![6], vec![], vec![8], vec![7]],
        vec![out],
    );
    scheme.shapes[4].2.set_forcibly_used();
    assert_eq!(
        scheme.get_used_shapes(),
        vec![true, true, true, true, true, false, false, false, false]
    );
    let mut replaced = scheme.clone();
    replaced.replace_unused_with(BlockType::Glass);
    assert_eq!(replaced.shapes_count(), 9);
    assert!(matches!(replaced.shapes()[5].2.base, ShapeBase::Block(_)));
    assert!(matches!(replaced.shapes()[8].2.base, ShapeBase::Block(_)));
    assert!(matches!(replaced.shapes()[0].2.base, ShapeBase::Gate(_)));
    assert_eq!(conns_of(&replaced)[7], Vec::<usize>::new());

    scheme.remove_unused();
    assert_eq!(scheme.shapes_count(), 5);
    assert_eq!(conns_of(&scheme), vec![vec![1], vec![2], vec![], vec![4], vec![]]);
    assert_eq!(scheme.bounds(), b(5, 1, 1));
}

#[test]
fn usage_needs_many_passes_for_a_chain_that_runs_backwards() {
    // 4 -> 3 -> 2 -> 1 -> 0 (output): a pass from the front marks one unit
    // at a time.
    let out = slot_of("out", vec![vec![0]]);
    let scheme = row(vec![vec![], vec![0], vec![1], vec![2], vec![3], vec![]], vec![out]);
    assert_eq!(scheme.get_used_shapes(), vec![true, true, true, true, true, false]);
}

#[test]
fn filtering_keeps_the_units_that_pass() {
    let mut scheme = row(vec![vec![1], vec![2], vec![0], vec![3]], vec![]);
    scheme.filter_shapes(|pos: &Point, _rot: &Rot, _shape: &Shape| pos.x % 2 == 0);
    assert_eq!(scheme.shapes_count(), 2);
    assert_eq!(conns_of(&scheme), vec![vec![], vec![0]]);
    assert_eq!(scheme.bounds(), b(3, 1, 1));
    // A flag without a unit is passed over.
    let mut other = row(vec![vec![1], vec![1, 0]], vec![]);
    other.keep_shapes(&vec![false, true, false]);
    assert_eq!(conns_of(&other), vec![vec![0]]);
}

#[test]
fn painting_fills_or_spares() {
    let mut scheme = row(vec![vec![], vec![]], vec![]);
    scheme.shapes[0].2.set_color(s("111111"));
    let mut soft = scheme.clone();
    soft.soft_paint(s("222222"));
    assert_eq!(soft.shapes()[0].2.get_color(), &Some(s("111111")));
    assert_eq!(soft.shapes()[1].2.get_color(), &Some(s("222222")));
    scheme.full_paint(s("333333"));
    assert!(scheme.shapes().iter().all(|unit| unit.2.get_color() == &Some(s("333333"))));
    scheme.set_forcibly_used();
    assert!(scheme.shapes().iter().all(|unit| unit.2.is_forcibly_used()));
    scheme.unset_forcibly_used();
    assert!(scheme.shapes().iter().all(|unit| !unit.2.is_forcibly_used()));
}

#[test]
fn blueprint_lists_the_units_in_order() {
    let input = slot_of("in", vec![vec![0], vec![1]]);
    let output = slot_of("out", vec![vec![1]]);
    let mut gate = Gate::new(GateMode::NOR);
    gate.extend_conn(&vec![1]);
    let scheme = Scheme::create(
        vec![
            (p(0, 0, 0), no_turn(), gate),
            (p(1, 0, 0), no_turn(), Timer::from_time(1, 2)),
            (p(2, 0, 0), Rot::new(0, 0, 1), BlockBody::new(BlockType::Glass, b(1, 2, 3))),
        ],
        vec![input],
        vec![output],
    );
    let ins = FnPalette::new(|slot: u32, point: Point| format!("in{}x{}", slot, point.x));
    let outs = FnPalette::new(|slot: u32, point: Point| format!("out{}x{}", slot, point.x));
    let blueprint = scheme.to_json_custom_colors(&ins, &outs);
    assert_eq!(blueprint.version, BLUEPRINT_VERSION);
    assert_eq!(blueprint.version, 4);
    assert_eq!(blueprint.bodies.len(), 1);
    let records = &blueprint.bodies[0].childs;
    assert_eq!(records.len(), 3);

    assert_eq!(records[0].color, "in0x0");
    assert_eq!(records[0].shape_id, GATE_UUID);
    assert_eq!((records[0].xaxis, records[0].zaxis), (1, -2));
    assert_eq!(records[0].pos, p(0, 0, 0));
    assert_eq!(records[0].bounds, None);
    let controller = records[0].controller.as_ref().unwrap();
    assert_eq!(controller.id, 0);
    assert_eq!(controller.controllers, Some(vec![1]));
    assert_eq!(controller.detail, ControllerDetail::Gate { mode: 4 });

    // The output slot paints after the input slot.
    assert_eq!(records[1].color, "out0x0");
    assert_eq!(records[1].shape_id, TIMER_UUID);
    let controller = records[1].controller.as_ref().unwrap();
    assert_eq!(controller.id, 1);
    assert_eq!(controller.controllers, None);
    assert_eq!(controller.detail, ControllerDetail::Timer { seconds: 1, ticks: 2 });

    // No slot stands for the block: it keeps the colour of its kind.
    assert_eq!(records[2].color, BlockType::Glass.default_color());
    assert_eq!(records[2].shape_id, BlockType::Glass.uuid());
    assert_eq!(records[2].bounds, Some(b(1, 2, 3)));
    assert!(records[2].controller.is_none());
    // A quarter turn around Z: the local X axis points along Y.
    assert_eq!((records[2].xaxis, records[2].zaxis), (2, 1));
    assert_eq!(records[2].pos, p(2, -1, 0));
}

#[test]
fn records_of_the_other_kinds() {
    let capsule = TotebotCapsule::new().build(p(1, 2, 3), no_turn(), 7);
    assert_eq!(capsule.color, "49642d");
    assert_eq!(capsule.shape_id, "34d22fc5-0a45-4d71-9aaf-64df1355c272");
    let controller = capsule.controller.unwrap();
    assert_eq!((controller.id, controller.controllers, controller.detail), (7, None, ControllerDetail::Container));
    let mut character = CharacterShape::new().into_shape();
    character.push_conn(3);
    character.set_color(s("010203"));
    let record = character.build(p(0, 0, 0), Rot::new(2, 0, 0), 1);
    assert_eq!(record.color, "010203");
    assert_eq!((record.xaxis, record.zaxis, record.pos), (1, 2, p(0, -1, 1)));
    let controller = record.controller.unwrap();
    assert_eq!((controller.id, controller.controllers, controller.detail), (1, Some(vec![3]), ControllerDetail::Plain));
}

#[test]
fn colours_are_written_as_six_hex_digits() {
    assert_eq!(color_to_string(10, 62, 226), "0a3ee2");
    assert_eq!(color_to_string(0, 255, 16), "00ff10");
    assert_eq!(color_to_string(-5, 300, 128), "00ff80");
    assert_eq!(input_base_color(0), (10, 62, 226));
    assert_eq!(input_base_color(9), (208, 37, 37));
    assert_eq!(input_base_color(7), (238, 123, 240));
    assert_eq!(output_base_color(0), (25, 231, 83));
    assert_eq!(output_base_color(15), (245, 240, 113));
}

#[test]
fn nested_lists_become_a_map() {
    let map: Map3D<i32> = Map3D::from_nested(vec![vec![vec![1, 2], vec![3, 4]], vec![vec![5, 6], vec![7, 8]]]);
    assert_eq!(map.size(), (2, 2, 2));
    assert_eq!(map.get((0, 0, 0)), Some(&1));
    assert_eq!(map.get((1, 0, 0)), Some(&2));
    assert_eq!(map.get((0, 1, 0)), Some(&3));
    assert_eq!(map.get((1, 1, 1)), Some(&8));
    let flat: Map3D<i32> = Map3D::from_nested(vec![vec![vec![1, 2, 3]]]);
    assert_eq!(flat.size(), (3, 1, 1));
    let none: Map3D<i32> = Map3D::from_nested(vec![]);
    assert_eq!(none.size(), (0, 0, 0));
    let hollow: Map3D<i32> = Map3D::from_nested(vec![vec![], vec![]]);
    assert_eq!(hollow.size(), (0, 0, 2));
    let copy = map.clone();
    assert_eq!(copy.as_raw(), map.as_raw());
}

#[test]
fn binds_name_sectors_and_targets_point_by_point() {
    let mut bind = Bind::new(s("word"), s("binary"), b(2, 2, 1));
    bind.gen_point_sectors(s("bit"), |x: u32, y: u32, _z: u32| format!("{}_{}", x, y)).unwrap();
    let names: Vec<&str> = bind.sectors.iter().map(|sector| sector.0.as_str()).collect();
    assert_eq!(names, vec!["0_0", "0_1", "1_0", "1_1"]);
    assert_eq!(bind.sectors[2].1, p(1, 0, 0));
    assert_eq!(bind.sectors[2].2, b(1, 1, 1));
    assert_eq!(bind.sectors[2].3, "bit");
    match bind.gen_point_sectors(s("bit"), |x: u32, _y: u32, _z: u32| if x == 0 { s("0_0") } else { s("") }) {
        Err(errors) => assert_eq!(errors.len(), 4),
        Ok(()) => panic!("no name was new"),
    }
    assert_eq!(bind.sectors.len(), 4);

    bind.connect_func(|x: usize, y: usize, _z: usize| if y == 0 { Some(format!("gate_{}", x)) } else { None });
    let targets: Vec<(&str, Point)> =
        bind.maps.iter().map(|entry| (entry.target.as_str(), entry.sector_corner)).collect();
    assert_eq!(targets, vec![("gate_0", p(0, 0, 0)), ("gate_1", p(1, 0, 0))]);
    let copy = bind.clone();
    assert_eq!(copy.maps.len(), 2);
    assert_eq!(copy.sectors.len(), 4);
}

#[test]
fn a_scheme_is_added_with_all_its_slots() {
    let mut combiner = Combiner::pos_manual();
    combiner
        .add_pass_all(
            s("gate"),
            GateMode::OR.into_shape().into_scheme(),
            |name: &String| format!("in{}", name),
            |name: &String| format!("out{}", name),
        )
        .unwrap();
    combiner.pos().place_last(p(0, 0, 0));
    assert!(matches!(
        combiner.add_pass_all(
            s("gate"),
            GateMode::OR.into_shape().into_scheme(),
            |name: &String| name.clone(),
            |name: &String| name.clone(),
        ),
        Err(Error::NameWasAlreadyTaken { .. })
    ));
    assert_eq!(combiner.inputs.len(), 1);
    let (scheme, invalid) = combiner.compile().unwrap();
    assert!(invalid.inp_bind_conns.is_empty() && invalid.out_bind_conns.is_empty());
    assert_eq!(scheme.inputs()[0].name(), "in_");
    assert_eq!(scheme.outputs()[0].name(), "out_");
    assert_eq!(scheme.inputs()[0].shape_map().as_raw(), &vec![vec![0]]);
}
