use sm_logic::util::{
    has_separator, is_point_in_bounds, split_first_token, Bounds, Facing, Map3D, Mat3x3, Orient, Point,
    Rot, Vec3,
};

#[test]
fn splits_at_the_first_slash() {
    let (token, tail) = split_first_token("This/could be/literally///any/$path$$$".to_string());
    assert_eq!(token, "This".to_string());
    assert_eq!(tail, Some("could be/literally///any/$path$$$".to_string()));
}

#[test]
fn split_tells_a_trailing_slash_from_none() {
    let (token, tail) = split_first_token("There is no tail/".to_string());
    assert_eq!(token, "There is no tail".to_string());
    assert_eq!(tail, Some("".to_string()));

    let (token, tail) = split_first_token("There is no tail".to_string());
    assert_eq!(token, "There is no tail".to_string());
    assert_eq!(tail, None);
}

#[test]
fn split_counts_characters_not_bytes() {
    let (token, tail) = split_first_token("схема/слот".to_string());
    assert_eq!(token, "схема".to_string());
    assert_eq!(tail, Some("слот".to_string()));
    assert!(has_separator(&"схема/слот".to_string()));
    assert!(!has_separator(&"схема".to_string()));
}

#[test]
fn point_in_bounds_is_half_open() {
    let bounds = Bounds::new(2, 3, 4);
    assert!(is_point_in_bounds(Point::new(0, 0, 0), bounds));
    assert!(is_point_in_bounds(Point::new(1, 2, 3), bounds));
    assert!(!is_point_in_bounds(Point::new(2, 0, 0), bounds));
    assert!(!is_point_in_bounds(Point::new(0, -1, 0), bounds));
    assert!(!is_point_in_bounds(Point::new(0, 0, 0), Bounds::new(0, 1, 1)));
}

#[test]
fn vec3_holds_its_components() {
    let v: Vec3<i32> = Vec3::new(1, 2, 3);
    assert_eq!(*v.x(), 1);
    assert_eq!(*v.y(), 2);
    assert_eq!(*v.z(), 3);
    assert_eq!(v.tuple(), (1, 2, 3));
    assert_eq!(v.plus(Vec3::new(4, 5, 6)), Vec3::new(5, 7, 9));
    assert_eq!(v.minus(Vec3::new(4, 5, 6)), Vec3::new(-3, -3, -3));
    assert_eq!(v.dot(Vec3::new(4, 5, 6)), 32);
    assert_eq!(v.times(Vec3::new(4, 5, 6)), Vec3::new(4, 10, 18));
    assert_eq!(v.negated(), Vec3::new(-1, -2, -3));
    assert_eq!((*v.get(0), *v.get(1), *v.get(2)), (1, 2, 3));
    assert_eq!(v.try_cast(), Some(Vec3::new(1u32, 2, 3)));
    assert_eq!(Vec3::new(-1i32, 2, 3).try_cast(), None);
    assert_eq!(Vec3::new(1u32, 2, 3).cast(), v);
}

#[test]
fn matrix_det_of_examples() {
    assert_eq!(Mat3x3::unit(7).det(), 7 * 7 * 7);
    assert_eq!(Mat3x3::from_raw([[1, 2, 3], [8, 9, 4], [7, 14, 5]]).det(), 384);
    let a = Mat3x3::from_raw([[1, 2, 3], [4, 5, 6], [7, 8, 9]]);
    let i = Mat3x3::unit(1);
    assert_eq!(a.times(&i), a);
    assert_eq!(a.times(&Mat3x3::unit(2)), a.plus(&a));
    assert_eq!(a.plus(&a).minus(&a), a);
    assert_eq!(a.times(&a).values[0], [30, 36, 42]);
    assert_eq!(a.apply(Vec3::new(1, 0, -1)), Vec3::new(-2, -2, -2));
    assert_eq!(Mat3x3::rot_z_mat(1).values, [[0, -1, 0], [1, 0, 0], [0, 0, 1]]);
    assert_eq!(Mat3x3::rot_x_mat(-1).values, [[1, 0, 0], [0, 0, 1], [0, -1, 0]]);
    assert_eq!(Mat3x3::rot_y_mat(2).values, [[-1, 0, 0], [0, 1, 0], [0, 0, -1]]);
    assert_eq!(Mat3x3::rot_mat(1, 2, 3), Mat3x3::rot_z_mat(3).times(&Mat3x3::rot_y_mat(2)).times(&Mat3x3::rot_x_mat(1)));
    let filled = Mat3x3::new(42);
    for i in 0..3 {
        for j in 0..3 {
            assert_eq!(filled.values[i][j], 42);
        }
    }
}

#[test]
fn rotation_by_angles_composes_x_then_y_then_z() {
    let rot = Rot::new(1, 2, 3);
    let rot_x = Rot::new(1, 0, 0);
    let rot_y = Rot::new(0, 2, 0);
    let rot_z = Rot::new(0, 0, 3);
    let another = rot_z.apply_to_rot(rot_y.apply_to_rot(rot_x));
    assert_eq!(rot, another);
    assert_eq!(rot.apply(Vec3::new(5, 6, 7)), Vec3::new(-7, 5, -6));
    assert_eq!(Rot::from_tuple((1, 2, 3)), rot);
    assert_eq!(Rot::from_vec3(Vec3::new(1, 2, 3)), rot);
    assert!(rot.is(&another));
    assert!(!rot.is(&rot_x));
}

#[test]
fn quarter_turn_around_z_carries_x_to_y() {
    assert_eq!(Rot::new(0, 0, 1).apply(Vec3::new(1, 0, 0)), Vec3::new(0, 1, 0));
    assert_eq!(Rot::new(0, 0, -3).apply(Vec3::new(1, 0, 0)), Vec3::new(0, 1, 0));
    assert_eq!(Rot::new(0, 0, 5).apply(Vec3::new(1, 0, 0)), Vec3::new(0, 1, 0));
}

#[test]
fn composition_is_application_in_turn_for_all_24() {
    let mut rots: Vec<Rot> = vec![];
    for ax in 0..4 {
        for ay in 0..4 {
            for az in 0..4 {
                rots.push(Rot::new(ax, ay, az));
            }
        }
    }
    let mut distinct: Vec<Rot> = vec![];
    for rot in rots.iter() {
        if !distinct.contains(rot) {
            distinct.push(*rot);
        }
    }
    assert_eq!(distinct.len(), 24);
    let point = Vec3::new(3, -5, 11);
    for r1 in distinct.iter() {
        for r2 in distinct.iter() {
            let combined = r2.apply_to_rot(*r1);
            assert!(distinct.contains(&combined));
            assert_eq!(r2.apply(r1.apply(point)), combined.apply(point));
        }
    }
}

#[test]
fn identity_faces_up() {
    assert_eq!(Rot::new(0, 0, 0).to_facing_orient(), (Facing::PosZ, Orient::Up));
    assert_eq!(Rot::new(0, 0, 0).to_sm_data(), (1, -2, Point::new(0, 0, 0)));
    assert_eq!(Facing::PosX.to_rot().to_facing_orient().0, Facing::PosX);
    assert_eq!(Facing::NegY.to_rot().to_facing_orient().0, Facing::NegY);
    assert_eq!(Facing::NegX.to_data(Orient::Right), (2, 3, 1, -1, 0));
    assert_eq!(Facing::PosY.to_data(Orient::Down), (-1, -3, 1, -1, 1));
}

#[test]
fn rotation_data_of_all_24() {
    // Each of the 24 rotations has a row of the table to itself.
    let mut rots: Vec<Rot> = vec![];
    let mut seen: Vec<(i32, i32)> = vec![];
    for ax in 0..4 {
        for ay in 0..4 {
            for az in 0..4 {
                let rot = Rot::new(ax, ay, az);
                let (facing, orient) = rot.to_facing_orient();
                let (xaxis, zaxis, offset) = rot.to_sm_data();
                let data = facing.to_data(orient);
                assert_eq!((xaxis, zaxis, offset), (data.0, data.1, Point::new(data.2, data.3, data.4)));
                if rots.contains(&rot) {
                    assert!(seen.contains(&(xaxis, zaxis)));
                } else {
                    assert!(!seen.contains(&(xaxis, zaxis)));
                    rots.push(rot);
                    seen.push((xaxis, zaxis));
                }
            }
        }
    }
    assert_eq!(rots.len(), 24);
    assert_eq!(seen.len(), 24);
}

#[test]
fn a_unit_that_faces_along_y_has_four_orientations() {
    // The local Z axis goes to +Y; the local X axis to +X, +Z, -X, -Z.
    let facing = Rot::new(-1, 0, 0);
    assert_eq!(facing.apply(Point::new(0, 0, 1)), Point::new(0, 1, 0));
    assert_eq!(facing.to_facing_orient(), (Facing::PosY, Orient::Right));
    assert_eq!(Rot::new(-1, -1, 0).to_facing_orient(), (Facing::PosY, Orient::Up));
    assert_eq!(Rot::new(-1, 2, 0).to_facing_orient(), (Facing::PosY, Orient::Left));
    assert_eq!(Rot::new(-1, 1, 0).to_facing_orient(), (Facing::PosY, Orient::Down));
    assert_eq!(Rot::new(-1, 0, 0).to_sm_data(), (1, 3, Point::new(0, -1, 0)));
    assert_eq!(Rot::new(-1, -1, 0).to_sm_data(), (3, -1, Point::new(1, -1, 0)));
    // And to -Y.
    assert_eq!(Rot::new(1, 0, 0).to_facing_orient(), (Facing::NegY, Orient::Left));
    assert_eq!(Rot::new(1, -1, 0).to_facing_orient(), (Facing::NegY, Orient::Up));
    assert_eq!(Rot::new(1, 1, 0).to_facing_orient(), (Facing::NegY, Orient::Down));
    assert_eq!(Rot::new(1, 2, 0).to_facing_orient(), (Facing::NegY, Orient::Right));
    // The other directions keep their orientations.
    assert_eq!(Rot::new(0, 0, 1).to_facing_orient(), (Facing::PosZ, Orient::Right));
    assert_eq!(Rot::new(0, 0, 2).to_facing_orient(), (Facing::PosZ, Orient::Down));
    assert_eq!(Rot::new(0, 0, -1).to_facing_orient(), (Facing::PosZ, Orient::Left));
    assert_eq!(Rot::new(0, 1, 0).to_facing_orient(), (Facing::PosX, Orient::Down));
    assert_eq!(Rot::new(0, -1, 0).to_facing_orient(), (Facing::NegX, Orient::Up));
}

#[test]
fn map3d_addresses_cells() {
    let mut map: Map3D<i32> = Map3D::filled((5, 6, 7), 4);
    assert_eq!(map.get((1, 2, 3)), Some(&4));
    assert_eq!(map.get((10, 20, 30)), None);
    assert_eq!(map.size(), (5, 6, 7));
    assert_eq!(map.size_u32(), (5, 6, 7));
    assert_eq!(map.bounds(), Bounds::new(5, 6, 7));
    assert_eq!(map.to_id((1, 2, 3)), Some(1 + 2 * 5 + 3 * 5 * 6));
    assert_eq!(map.to_id((5, 0, 0)), None);

    *map.get_mut((1, 2, 3)).unwrap() = 7;
    assert_eq!(map.get((1, 2, 3)), Some(&7));
    assert_eq!(map.replace((1, 2, 3), 9), Some(7));
    assert_eq!(map.replace((9, 9, 9), 9), None);
    assert_eq!(map.get((1, 2, 3)), Some(&9));
    assert_eq!(map.as_raw().len(), 5 * 6 * 7);
    assert_eq!(map.as_raw()[1 + 2 * 5 + 3 * 5 * 6], 9);
    map.as_raw_mut()[0] = 1;
    assert_eq!(map.get((0, 0, 0)), Some(&1));
    assert_eq!(map.to_raw().len(), 210);
}

#[test]
fn map3d_from_raw_keeps_the_order() {
    let map: Map3D<u8> = Map3D::from_raw((2, 2, 1), vec![1, 2, 3, 4]);
    assert_eq!(map.get((0, 0, 0)), Some(&1));
    assert_eq!(map.get((1, 0, 0)), Some(&2));
    assert_eq!(map.get((0, 1, 0)), Some(&3));
    assert_eq!(map.get((1, 1, 0)), Some(&4));
}
