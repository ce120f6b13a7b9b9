use sm_logic::bind::Bind;
use sm_logic::combiner::Combiner;
use sm_logic::positioner::ManualPos;
use sm_logic::scheme::limits::{all_fit, triple_fits, unit_fits};
use sm_logic::scheme::Scheme;
use sm_logic::shape::vanilla::{BlockBody, BlockType, Gate, GateMode, Timer};
use sm_logic::slot::{Slot, SlotSector};
use sm_logic::util::{Bounds, Map3D, Point, Rot, Vec3};

fn p(x: i32, y: i32, z: i32) -> Point {
    Point::new(x, y, z)
}

fn b(x: u32, y: u32, z: u32) -> Bounds {
    Bounds::new(x, y, z)
}

fn s(text: &str) -> String {
    text.to_string()
}

fn gate_at(at: Point) -> Scheme {
    Scheme::create(vec![(at, Rot::new(0, 0, 0), Gate::new(GateMode::OR))], vec![], vec![])
}

#[test]
fn units_at_the_edge_of_the_coordinates() {
    let upright = Rot::new(0, 0, 0);
    assert!(triple_fits((i32::MAX as i64, i32::MIN as i64, 0)));
    assert!(!triple_fits((i32::MAX as i64 + 1, 0, 0)));
    // A gate takes the cell up to its position plus one.
    assert!(unit_fits(p(i32::MAX - 1, 0, 0), &upright, &Gate::new(GateMode::OR)));
    assert!(!unit_fits(p(i32::MAX, 0, 0), &upright, &Gate::new(GateMode::OR)));
    assert!(unit_fits(p(0, 0, i32::MAX - 2), &upright, &Timer::new(1)));
    assert!(!unit_fits(p(0, 0, i32::MAX - 1), &upright, &Timer::new(1)));
    // Upside down the timer reaches below its first cell.
    assert!(unit_fits(p(0, 0, i32::MIN + 1), &Rot::new(2, 0, 0), &Timer::new(1)));
    assert!(!unit_fits(p(0, 0, i32::MIN), &Rot::new(2, 0, 0), &Timer::new(1)));
    assert!(all_fit(&vec![(p(0, 0, 0), upright, Gate::new(GateMode::OR))]));
    assert!(!all_fit(&vec![
        (p(0, 0, 0), upright, Gate::new(GateMode::OR)),
        (p(0, i32::MAX, 0), upright, Gate::new(GateMode::OR)),
    ]));
    let mut looped = Gate::new(GateMode::OR);
    assert!(looped.is_alone());
    looped.push_conn(0);
    assert!(looped.is_alone());
    assert_eq!(looped.clone().into_scheme().shapes()[0].2.connections(), &vec![0]);
    looped.push_conn(1);
    assert!(!looped.is_alone());
    assert!(BlockBody::new(BlockType::Glass, b(0x7fff_ffff, 1, 1)).is_small());
    assert!(!BlockBody::new(BlockType::Glass, b(0x8000_0000, 1, 1)).is_small());
}

#[test]
fn schemes_tell_what_can_be_done_with_them() {
    let near = gate_at(p(5, 5, 5));
    assert!(near.can_be_built());
    assert!(near.can_be_rotated(Rot::new(1, 2, 3)));
    assert!(near.fits_at(0, p(100, 100, 100), Rot::new(0, 0, 1)));
    // Far from the lowest corner of its scheme, a unit cannot be moved.
    let wide = Scheme::create(
        vec![
            (p(i32::MIN + 5, 0, 0), Rot::new(0, 0, 0), Gate::new(GateMode::OR)),
            (p(i32::MAX - 5, 0, 0), Rot::new(0, 0, 0), Gate::new(GateMode::OR)),
        ],
        vec![],
        vec![],
    );
    assert!(!wide.fits_at(0, p(0, 0, 0), Rot::new(0, 0, 0)));
    // A position at the very edge cannot be turned over.
    let edge = gate_at(p(i32::MIN, 0, 0));
    assert!(edge.can_be_rotated(Rot::new(0, 0, 0)));
    assert!(!edge.can_be_rotated(Rot::new(0, 0, 2)));
    assert!(near.fits_at(usize::MAX, p(0, 0, 0), Rot::new(0, 0, 0)));
    // Connections are counted from the units that stand before.
    let mut wired = Gate::new(GateMode::OR);
    wired.push_conn(1);
    let wired = Scheme::create(
        vec![
            (p(0, 0, 0), Rot::new(0, 0, 0), wired),
            (p(1, 0, 0), Rot::new(0, 0, 0), Gate::new(GateMode::OR)),
        ],
        vec![],
        vec![],
    );
    assert!(wired.fits_at(usize::MAX - 1, p(0, 0, 0), Rot::new(0, 0, 0)));
    assert!(!wired.fits_at(usize::MAX, p(0, 0, 0), Rot::new(0, 0, 0)));
    // The blueprint moves a turned unit by one cell.
    let turned = Scheme::create(vec![(p(0, i32::MIN, 0), Rot::new(0, 0, 1), Gate::new(GateMode::OR))], vec![], vec![]);
    assert!(!turned.can_be_built());
}

#[test]
fn combiners_tell_whether_they_can_be_compiled() {
    let mut combiner: Combiner<ManualPos> = Combiner::pos_manual();
    combiner.add(s("gate"), gate_at(p(0, 0, 0))).unwrap();
    // Without a place compiling fails, but nothing overflows.
    assert!(combiner.can_be_compiled());
    combiner.pos().place(s("gate"), p(i32::MAX, 0, 0));
    assert!(!combiner.can_be_compiled());
    combiner.pos().place(s("gate"), p(i32::MAX - 1, 0, 0));
    assert!(combiner.can_be_compiled());
    combiner.bind_input(Bind::new(s("huge"), s("k"), b(u32::MAX, u32::MAX, u32::MAX))).unwrap();
    assert!(!combiner.can_be_compiled());
    assert!(Bind::new(s("small"), s("k"), b(1000, 1000, 10)).can_be_compiled());
    assert!(Bind::new(s("none"), s("k"), b(u32::MAX, 0, u32::MAX)).can_be_compiled());
}

#[test]
fn several_at_once() {
    let mut combiner = Combiner::pos_manual();
    combiner.dim_iter(vec![s("a"), s("b")], vec![s("c")], (true, false, true));
    let requests: Vec<(&str, &str)> =
        combiner.connections.iter().map(|case| (case.from.as_str(), case.to.as_str())).collect();
    assert_eq!(requests, vec![("a", "c"), ("b", "c")]);
    combiner.custom_iter(vec![], vec![s("c")], sm_logic::connection::ConnStraight::new());
    assert_eq!(combiner.connections.len(), 2);

    let mut pos = ManualPos::new();
    pos.place_iter(vec![(s("a"), p(1, 2, 3)), (s("b"), p(4, 5, 6)), (s("a"), p(7, 8, 9))]);
    pos.rotate_iter(vec![(s("a"), Rot::new(0, 0, 1)), (s("c"), Rot::new(1, 0, 0)), (s("a"), Rot::new(0, 0, 1))]);
    assert_eq!(pos.pose(&s("a")), Some((Some(p(7, 8, 9)), Rot::new(0, 0, 2))));
    assert_eq!(pos.pose(&s("b")), Some((Some(p(4, 5, 6)), Rot::new(0, 0, 0))));
    assert_eq!(pos.pose(&s("c")), Some((None, Rot::new(1, 0, 0))));
    assert_eq!(pos.pose(&s("d")), None);
    assert_eq!(pos.poses.len(), 3);
}

#[test]
fn parts_can_be_changed_in_place() {
    let mut v: Vec3<i32> = Vec3::from_tuple((1, 2, 3));
    *v.x_mut() = 10;
    *v.y_mut() += 20;
    *v.z_mut() = -3;
    assert_eq!(v.tuple_ref(), (&10, &22, &-3));
    assert_eq!(Vec3::new_ng(1u32, 2, 3).try_cast(), Some(Vec3::new(1i32, 2, 3)));
    assert_eq!(Vec3::new(0x8000_0000u32, 0, 0).try_cast(), None);

    let mut slot = Slot::new(s("x"), s("k"), b(2, 1, 1), Map3D::filled((2, 1, 1), vec![]));
    slot.shape_map_mut().get_mut((1, 0, 0)).unwrap().push(4);
    assert_eq!(slot.get_point(p(1, 0, 0)), Some(&vec![4]));
    slot.sectors_mut().push((s("half"), SlotSector { pos: p(0, 0, 0), bounds: b(1, 1, 1), kind: s("k") }));
    assert!(slot.get_sector(&s("half")).is_some());
    let copy = slot.clone();
    assert_eq!(copy.shape_map().as_raw(), slot.shape_map().as_raw());
    assert_eq!(copy.sectors().len(), 2);
}
