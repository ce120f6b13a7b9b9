use sm_logic::util::{Facing, Rot, Vec3};

#[test]
fn test_rot() {
    for rx in -5..5 {
        for ry in -5..5 {
            for rz in -5..5 {
                let rot = Rot::new(rx, ry, rz);
                let basis = rot.to_basis();
                assert_eq!(rot, Rot::from_basis(basis));
            }
        }
    }
}

#[test]
fn rotation_test() {
    let mut rots: Vec<Rot> = vec![];
    for ax in 0..4 {
        for ay in 0..4 {
            for az in 0..4 {
                rots.push(Rot::new(ax, ay, az));
            }
        }
    }
    let rots = rots;

    for rot_1 in rots.iter() {
        for rot_2 in rots.iter() {
            let vec = Vec3::new_ng(1i32, 0, 0);

            // Order must not matter
            let order_1 = rot_2.apply(rot_1.apply(vec.clone()));
            let order_2 = rot_2.apply_to_rot(rot_1.clone()).apply(vec.clone());

            assert_eq!(order_1, order_2);
        }
    }
}

#[test]
fn facing_to_rot_test() {
    let vec = Vec3::new_ng(0_i32, 0, 1);

    let pos_x = Facing::PosX.to_rot().apply(vec.clone());
    assert_eq!(Vec3::new_ng(1_i32, 0, 0), pos_x);

    let pos_y = Facing::PosY.to_rot().apply(vec.clone());
    assert_eq!(Vec3::new_ng(0_i32, 1, 0), pos_y);

    let pos_z = Facing::PosZ.to_rot().apply(vec.clone());
    assert_eq!(Vec3::new_ng(0_i32, 0, 1), pos_z);

    let neg_x = Facing::NegX.to_rot().apply(vec.clone());
    assert_eq!(Vec3::new_ng(-1_i32, 0, 0), neg_x);

    let neg_y = Facing::NegY.to_rot().apply(vec.clone());
    assert_eq!(Vec3::new_ng(0_i32, -1, 0), neg_y);

    let neg_z = Facing::NegZ.to_rot().apply(vec.clone());
    assert_eq!(Vec3::new_ng(0_i32, 0, -1), neg_z);
}
