use wooden_puzzle_solver::geometry::{rotate_xy, rotate_z};

#[test]
fn planar_rotations_match_their_table() {
    assert_eq!(rotate_xy(3, 5, 0), (3, 5));
    assert_eq!(rotate_xy(3, 5, 1), (5, -3));
    assert_eq!(rotate_xy(3, 5, 2), (-3, -5));
    assert_eq!(rotate_xy(3, 5, 3), (-5, 3));
}

#[test]
fn spatial_rotations_match_their_table() {
    assert_eq!(rotate_z(1, 2, 3, 0), (1, 2, 3));
    assert_eq!(rotate_z(1, 2, 3, 1), (1, 3, -2));
    assert_eq!(rotate_z(1, 2, 3, 2), (1, -2, -3));
    assert_eq!(rotate_z(1, 2, 3, 3), (1, -3, 2));
    assert_eq!(rotate_z(1, 2, 3, 4), (-3, 2, 1));
    assert_eq!(rotate_z(1, 2, 3, 5), (3, 2, -1));
}

#[test]
fn four_planar_rotations_of_a_nonzero_point_are_distinct() {
    let images: Vec<(i32, i32)> = (0..4).map(|r| rotate_xy(1, 0, r)).collect();
    for i in 0..4 {
        for j in 0..4 {
            if i != j {
                assert_ne!(images[i], images[j]);
            }
        }
    }
}

#[test]
fn origin_is_fixed_by_every_planar_rotation() {
    for r in 0..4 {
        assert_eq!(rotate_xy(0, 0, r), (0, 0));
    }
}

#[test]
fn index_zero_pair_is_identity() {
    let (x, y) = rotate_xy(-4, 7, 0);
    assert_eq!(rotate_z(x, y, 9, 0), (-4, 7, 9));
}

#[test]
fn twenty_four_orientations_are_distinct() {
    let mut images: Vec<(i32, i32, i32)> = Vec::new();
    for zr in 0..6 {
        for xr in 0..4 {
            let (x, y) = rotate_xy(1, 2, xr);
            images.push(rotate_z(x, y, 3, zr));
        }
    }
    for i in 0..24 {
        for j in (i + 1)..24 {
            assert_ne!(images[i], images[j]);
        }
    }
}
