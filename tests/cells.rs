use dual_contouring::{
    active_cells, active_cells_in_layers, cell_crossings, cell_is_active, index, ActiveCell, Axis,
    EdgeCrossing, SignGrid,
};

fn grid_from(w: usize, h: usize, d: usize, inside: impl Fn(usize, usize, usize) -> bool) -> SignGrid {
    let mut signs = vec![false; w * h * d];
    for z in 0..d {
        for y in 0..h {
            for x in 0..w {
                signs[index(x, y, z, w, h)] = inside(x, y, z);
            }
        }
    }
    SignGrid::new(signs, w * h * d, w, h, d).unwrap()
}

#[test]
fn single_inside_corner_gives_three_crossings() {
    let g = grid_from(2, 2, 2, |x, y, z| (x, y, z) == (0, 0, 0));
    assert!(cell_is_active(&g, 0, 0, 0));
    let c = cell_crossings(&g, 0, 0, 0);
    assert_eq!(
        c,
        vec![
            EdgeCrossing { axis: Axis::Z, dx: 0, dy: 0, dz: 0, lower: 0, upper: 4 },
            EdgeCrossing { axis: Axis::Y, dx: 0, dy: 0, dz: 0, lower: 0, upper: 2 },
            EdgeCrossing { axis: Axis::X, dx: 0, dy: 0, dz: 0, lower: 0, upper: 1 },
        ]
    );
}

#[test]
fn far_corner_inside_gives_crossings_at_upper_endpoints() {
    let g = grid_from(2, 2, 2, |x, y, z| (x, y, z) == (1, 1, 1));
    let c = cell_crossings(&g, 0, 0, 0);
    assert_eq!(
        c,
        vec![
            EdgeCrossing { axis: Axis::Z, dx: 1, dy: 1, dz: 0, lower: 3, upper: 7 },
            EdgeCrossing { axis: Axis::Y, dx: 1, dy: 0, dz: 1, lower: 5, upper: 7 },
            EdgeCrossing { axis: Axis::X, dx: 0, dy: 1, dz: 1, lower: 6, upper: 7 },
        ]
    );
}

#[test]
fn every_sign_pattern_of_one_cell() {
    for pattern in 0u32..256 {
        let g = grid_from(2, 2, 2, |x, y, z| pattern & (1 << index(x, y, z, 2, 2)) != 0);
        let uniform = pattern == 0 || pattern == 255;
        assert_eq!(cell_is_active(&g, 0, 0, 0), !uniform);
        let c = cell_crossings(&g, 0, 0, 0);
        assert_eq!(c.is_empty(), uniform);
        for e in &c {
            assert_ne!(g.is_inside(e.lower % 2, (e.lower / 2) % 2, e.lower / 4),
                       g.is_inside(e.upper % 2, (e.upper / 2) % 2, e.upper / 4));
        }
        let cells = active_cells(&g);
        assert_eq!(cells.len(), if uniform { 0 } else { 1 });
    }
}

#[test]
fn all_outside_field_has_no_active_cell() {
    let g = grid_from(5, 4, 3, |_, _, _| false);
    assert!(active_cells(&g).is_empty());
}

#[test]
fn all_inside_field_has_no_active_cell() {
    let g = grid_from(5, 4, 3, |_, _, _| true);
    assert!(active_cells(&g).is_empty());
}

#[test]
fn planar_field_activates_one_layer() {
    // density z - D/2 with D = 6: inside for z <= 3
    let (w, h, d) = (4, 3, 6);
    let g = grid_from(w, h, d, |_, _, z| z as f32 - d as f32 / 2.0 <= 0.0);
    let cells = active_cells(&g);
    assert_eq!(cells.len(), (w - 1) * (h - 1));
    for c in &cells {
        assert_eq!(c.z, 3);
        assert_eq!(c.sample, index(c.x, c.y, c.z, w, h));
    }
}

#[test]
fn active_cells_come_in_traversal_order() {
    let g = grid_from(4, 4, 4, |x, y, z| x + y + z <= 3);
    let cells = active_cells(&g);
    assert!(!cells.is_empty());
    for pair in cells.windows(2) {
        assert!(pair[0].sample < pair[1].sample);
    }
    let mut expected = Vec::new();
    for z in 0..3 {
        for y in 0..3 {
            for x in 0..3 {
                if cell_is_active(&g, x, y, z) {
                    expected.push(ActiveCell { x, y, z, sample: index(x, y, z, 4, 4) });
                }
            }
        }
    }
    assert_eq!(cells, expected);
}

#[test]
fn degenerate_extents_have_no_cells() {
    assert!(active_cells(&grid_from(1, 5, 5, |x, _, _| x == 0)).is_empty());
    assert!(active_cells(&grid_from(5, 1, 5, |x, _, _| x == 0)).is_empty());
    assert!(active_cells(&grid_from(5, 5, 0, |x, _, _| x == 0)).is_empty());
}

#[test]
fn layer_ranges_of_active_cells_concatenate_to_the_whole() {
    let d = 8;
    let g = grid_from(5, 6, d, |x, y, z| (x * 3 + y + z * 2) % 4 == 1);
    let whole = active_cells(&g);
    assert!(!whole.is_empty());
    let cuts = [0, 3, 3, 4, d - 1];
    let mut joined = Vec::new();
    for w in cuts.windows(2) {
        joined.extend(active_cells_in_layers(&g, w[0], w[1]));
    }
    assert_eq!(joined, whole);
}
