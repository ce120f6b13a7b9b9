use sm_logic::bind::{Bind, InvalidConn, SectorError, SlotsOf};
use sm_logic::combiner::SlotSide;
use sm_logic::connection::ConnMap;
use sm_logic::slot::{Slot, SlotError, SlotSector};
use sm_logic::util::{Bounds, Map3D, Point};

fn p(x: i32, y: i32, z: i32) -> Point {
    Point::new(x, y, z)
}

fn b(x: u32, y: u32, z: u32) -> Bounds {
    Bounds::new(x, y, z)
}

fn s(text: &str) -> String {
    text.to_string()
}

/// A slot of the given width whose point `x` stands for the unit `x`.
fn line_slot(name: &str, width: u32) -> Slot {
    let data: Vec<Vec<usize>> = (0..width as usize).map(|x| vec![x]).collect();
    Slot::new(s(name), s("binary"), b(width, 1, 1), Map3D::from_raw((width as usize, 1, 1), data))
}

fn names() -> Vec<SlotsOf> {
    let mut wide = line_slot("_", 4);
    wide.bind_sector(s("high"), SlotSector { pos: p(2, 0, 0), bounds: b(2, 1, 1), kind: s("binary") })
        .unwrap();
    vec![
        SlotsOf { scheme: s("first"), start_shape: 0, slots: vec![wide] },
        SlotsOf { scheme: s("second"), start_shape: 10, slots: vec![line_slot("data", 3)] },
    ]
}

#[test]
fn slot_knows_its_points_and_sectors() {
    let mut slot = line_slot("line", 3);
    assert_eq!(slot.name(), "line");
    assert_eq!(slot.kind(), "binary");
    assert_eq!(slot.bounds(), b(3, 1, 1));
    assert_eq!(slot.get_point(p(1, 0, 0)), Some(&vec![1]));
    assert_eq!(slot.get_point(p(3, 0, 0)), None);
    assert_eq!(slot.get_point(p(-1, 0, 0)), None);
    assert_eq!(slot.units_at((2, 0, 0)), Some(&vec![2]));
    let whole = slot.get_sector(&s("")).unwrap();
    assert_eq!((whole.pos, whole.bounds), (p(0, 0, 0), b(3, 1, 1)));
    assert!(slot.get_sector(&s("tail")).is_none());
    slot.bind_sector(s("tail"), SlotSector { pos: p(1, 0, 0), bounds: b(2, 1, 1), kind: s("bits") })
        .unwrap();
    let tail = slot.get_sector(&s("tail")).unwrap();
    assert_eq!((tail.pos, tail.bounds, tail.kind.as_str()), (p(1, 0, 0), b(2, 1, 1), "bits"));
    let data = slot.base_data();
    assert_eq!((data.name.as_str(), data.kind.as_str(), data.bounds), ("line", "binary", b(3, 1, 1)));
}

#[test]
fn slot_refuses_bad_sectors() {
    let mut slot = line_slot("line", 3);
    let sector = || SlotSector { pos: p(0, 0, 0), bounds: b(1, 1, 1), kind: s("bit") };
    match slot.bind_sector(s(""), sector()) {
        Err(SlotError::NameIsAlreadyTaken { main_slot_name, subject_name, .. }) => {
            assert_eq!(main_slot_name, "line");
            assert_eq!(subject_name, "");
        }
        _ => panic!("the empty name has to be refused"),
    }
    slot.bind_sector(s("bit"), sector()).unwrap();
    assert!(matches!(
        slot.bind_sector(s("bit"), sector()),
        Err(SlotError::NameIsAlreadyTaken { .. })
    ));
    match slot.bind_sector(s("far"), SlotSector { pos: p(2, 0, 0), bounds: b(2, 1, 1), kind: s("bit") }) {
        Err(SlotError::OutOfBounds { subject_name, subject_size, subject_pos, .. }) => {
            assert_eq!(subject_name, "far");
            assert_eq!(subject_size, b(2, 1, 1));
            assert_eq!(subject_pos, p(2, 0, 0));
        }
        _ => panic!("a sector outside the slot has to be refused"),
    }
    assert_eq!(slot.sectors().len(), 2);
}

#[test]
fn slot_renumbers_when_a_unit_leaves() {
    let data = vec![vec![0, 1, 2], vec![2, 2, 5], vec![], vec![1]];
    let mut slot = Slot::new(s("x"), s("k"), b(4, 1, 1), Map3D::from_raw((4, 1, 1), data));
    slot.shape_was_removed(2, -1);
    assert_eq!(slot.shape_map().as_raw(), &vec![vec![0, 1], vec![4], vec![], vec![1]]);
    slot.shape_was_removed(0, 0);
    assert_eq!(slot.shape_map().as_raw(), &vec![vec![1], vec![4], vec![], vec![1]]);
}

#[test]
fn bind_refuses_bad_sectors() {
    let mut bind = Bind::new(s("slot name"), s("slot kind"), b(10, 15, 20));
    assert_eq!(bind.name(), "slot name");
    assert_eq!(bind.kind(), "slot kind");
    assert_eq!(bind.bounds(), b(10, 15, 20));
    bind.add_sector(s("specific_trigger"), p(0, 0, 0), b(1, 1, 1), s("logic")).unwrap();
    match bind.add_sector(s("specific_trigger"), p(1, 0, 0), b(1, 1, 1), s("logic")) {
        Err(SectorError::NameIsAlreadyTaken { taken_name }) => assert_eq!(taken_name, "specific_trigger"),
        _ => panic!("a taken name has to be refused"),
    }
    assert!(matches!(
        bind.add_sector(s(""), p(1, 0, 0), b(1, 1, 1), s("logic")),
        Err(SectorError::NameIsAlreadyTaken { .. })
    ));
    match bind.add_sector(s("wide"), p(5, 0, 0), b(6, 1, 1), s("logic")) {
        Err(SectorError::SectorIsOutOfSlotBounds { sector_name, sector_pos, sector_bounds, slot_bounds }) => {
            assert_eq!(sector_name, "wide");
            assert_eq!(sector_pos, p(5, 0, 0));
            assert_eq!(sector_bounds, b(6, 1, 1));
            assert_eq!(slot_bounds, b(10, 15, 20));
        }
        _ => panic!("a sector outside the bind has to be refused"),
    }
    bind.add_sector(s("edge"), p(5, 0, 0), b(5, 15, 20), s("logic")).unwrap();
    assert_eq!(bind.sectors.len(), 2);
}

#[test]
fn bind_compiles_against_the_namespace() {
    let mut bind = Bind::new(s("in"), s("binary"), b(4, 1, 1));
    bind.connect_full(s("first"));
    bind.add_sector(s("low"), p(0, 0, 0), b(2, 1, 1), s("binary")).unwrap();
    let (slot, invalid) = bind.compile(&names(), SlotSide::Input);
    assert!(invalid.is_empty());
    assert_eq!(slot.name(), "in");
    assert_eq!(slot.bounds(), b(4, 1, 1));
    assert_eq!(slot.shape_map().as_raw(), &vec![vec![0], vec![1], vec![2], vec![3]]);
    assert_eq!(slot.sectors().len(), 2);
    assert_eq!(slot.sectors()[0].0, "");
    assert_eq!(slot.sectors()[1].0, "low");
}

#[test]
fn bind_counts_units_from_the_start_of_their_scheme() {
    let mut bind = Bind::new(s("in"), s("binary"), b(3, 1, 1));
    bind.connect_full(s("second/data"));
    let (slot, invalid) = bind.compile(&names(), SlotSide::Input);
    assert!(invalid.is_empty());
    assert_eq!(slot.shape_map().as_raw(), &vec![vec![10], vec![11], vec![12]]);
}

#[test]
fn bind_skips_an_unresolved_entry_only() {
    let mut bind = Bind::new(s("in"), s("binary"), b(4, 1, 1));
    bind.connect_full(s("missing"));
    bind.connect_full(s("first"));
    let (slot, invalid) = bind.compile(&names(), SlotSide::Input);
    assert_eq!(invalid.len(), 1);
    match &invalid[0] {
        InvalidConn::TargetSchemeDoesNotExists { target_scheme, sector } => {
            assert_eq!(target_scheme, "missing");
            assert_eq!(sector.target, "missing");
        }
        _ => panic!("the scheme is what is missing"),
    }
    assert_eq!(slot.shape_map().as_raw(), &vec![vec![0], vec![1], vec![2], vec![3]]);
}

#[test]
fn bind_tells_what_is_missing() {
    let mut bind = Bind::new(s("in"), s("binary"), b(4, 1, 1));
    bind.connect_full(s("nowhere/slot"));
    bind.connect_full(s("first/nothing"));
    bind.connect_full(s("first/_/nothing"));
    bind.connect_full(s("first//nothing"));
    let (slot, invalid) = bind.compile(&names(), SlotSide::Output);
    assert_eq!(invalid.len(), 4);
    assert!(matches!(&invalid[0], InvalidConn::TargetSchemeDoesNotExists { target_scheme, .. } if target_scheme == "nowhere"));
    assert!(matches!(&invalid[1], InvalidConn::TargetSlotDoesNotExists { target_slot, .. } if target_slot == "nothing"));
    assert!(matches!(&invalid[2], InvalidConn::TargetSlotSectorDoesNotExists { target_slot, target_slot_sector, .. } if target_slot == "_" && target_slot_sector == "nothing"));
    assert!(matches!(&invalid[3], InvalidConn::TargetSlotSectorDoesNotExists { target_slot, target_slot_sector, .. } if target_slot == "" && target_slot_sector == "nothing"));
    assert!(slot.shape_map().as_raw().iter().all(|units| units.is_empty()));
}

#[test]
fn bind_connects_sectors_to_sectors() {
    let mut bind = Bind::new(s("in"), s("binary"), b(4, 1, 1));
    // The two upper points of the bind lead to the upper half of the slot.
    bind.connect((p(2, 0, 0), b(2, 1, 1)), s("first/_/high"));
    // A mismatch in size is no error: what does not land is dropped.
    bind.connect((p(0, 0, 0), b(1, 1, 1)), s("second/data"));
    let (slot, invalid) = bind.compile(&names(), SlotSide::Input);
    assert!(invalid.is_empty());
    assert_eq!(slot.shape_map().as_raw(), &vec![vec![10], vec![], vec![2], vec![3]]);
}

#[test]
fn bind_appends_in_the_order_of_its_entries() {
    let mut bind = Bind::new(s("out"), s("bit"), b(1, 1, 1));
    bind.connect_full(s("second/data"));
    bind.dim_full(s("first"), (true, false, false));
    bind.connect_full(s("second/data"));
    let (slot, _) = bind.compile(&names(), SlotSide::Input);
    assert_eq!(slot.shape_map().as_raw(), &vec![vec![10, 0, 1, 2, 3, 10]]);
}

#[test]
fn output_binds_run_the_connection_from_the_target() {
    // From each point one step up: the start is the target for an output,
    // and the bind for an input.
    let up = || {
        ConnMap::new(|point: Point, _s: Bounds, _e: Bounds| Some(Point::new(point.x + 1, point.y, point.z)))
    };
    let mut input = Bind::new(s("in"), s("binary"), b(4, 1, 1));
    input.custom_full(s("first"), up());
    let (slot, _) = input.compile(&names(), SlotSide::Input);
    // The bind's point x receives from the target's point x + 1.
    assert_eq!(slot.shape_map().as_raw(), &vec![vec![1], vec![2], vec![3], vec![]]);

    let mut output = Bind::new(s("out"), s("binary"), b(4, 1, 1));
    output.custom_full(s("first"), up());
    let (slot, _) = output.compile(&names(), SlotSide::Output);
    // The target's point x sends to the bind's point x + 1.
    assert_eq!(slot.shape_map().as_raw(), &vec![vec![], vec![0], vec![1], vec![2]]);
}
