use dual_contouring::{index, GridError, SignGrid};

#[test]
fn index_follows_x_then_y_then_z() {
    assert_eq!(index(0, 0, 0, 4, 3), 0);
    assert_eq!(index(1, 0, 0, 4, 3), 1);
    assert_eq!(index(0, 1, 0, 4, 3), 4);
    assert_eq!(index(0, 0, 1, 4, 3), 12);
    assert_eq!(index(3, 2, 5, 4, 3), 3 + 2 * 4 + 5 * 12);
}

#[test]
fn index_with_zero_height_ignores_the_plane() {
    assert_eq!(index(2, 1, 7, 5, 0), 2 + 5);
}

#[test]
fn grid_accepts_matching_lengths() {
    let g = SignGrid::new(vec![false; 24], 24, 2, 3, 4).unwrap();
    assert_eq!(g.width(), 2);
    assert_eq!(g.height(), 3);
    assert_eq!(g.depth(), 4);
    assert_eq!(g.sample_index(1, 2, 3), 1 + 2 * 2 + 3 * 6);
}

#[test]
fn grid_reports_sign_of_each_sample() {
    let mut inside = vec![false; 8];
    inside[index(1, 0, 1, 2, 2)] = true;
    let g = SignGrid::new(inside, 8, 2, 2, 2).unwrap();
    assert!(g.is_inside(1, 0, 1));
    assert!(!g.is_inside(0, 0, 1));
    assert!(!g.is_inside(1, 1, 1));
}

#[test]
fn grid_rejects_short_density() {
    let r = SignGrid::new(vec![true; 7], 8, 2, 2, 2);
    assert_eq!(r.err(), Some(GridError::DensityLength { expected: 8, found: 7 }));
}

#[test]
fn grid_rejects_mismatched_normals() {
    let r = SignGrid::new(vec![true; 8], 9, 2, 2, 2);
    assert_eq!(r.err(), Some(GridError::NormalLength { expected: 8, found: 9 }));
}

#[test]
fn grid_rejects_overflowing_extent() {
    let r = SignGrid::new(vec![], 0, usize::MAX, 2, 2);
    assert_eq!(r.err(), Some(GridError::SizeOverflow));
}

#[test]
fn grid_with_a_zero_extent_is_empty() {
    let g = SignGrid::new(vec![], 0, usize::MAX, usize::MAX, 0).unwrap();
    assert_eq!(g.depth(), 0);
}
