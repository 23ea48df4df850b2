use dual_contouring::{
    active_cells, extract_faces, extract_faces_in_layers, index, repeat_per_corner, triangle_corners,
    SignGrid, Triangle,
};

fn grid_from(w: usize, h: usize, d: usize, inside: impl Fn(usize, usize, usize) -> bool) -> SignGrid {
    let mut signs = vec![false; w * h * d];
    for z in 0..d {
        for y in 0..h {
            for x in 0..w {
                signs[index(x, y, z, w, h)] = inside(x, y, z);
            }
        }
    }
    SignGrid::new(signs, w * h * d, w, h, d).unwrap()
}

fn tri(a: usize, b: usize, c: usize) -> Triangle {
    Triangle { a, b, c }
}

#[test]
fn one_inside_sample_gives_three_quads() {
    let g = grid_from(3, 3, 3, |x, y, z| (x, y, z) == (1, 1, 1));
    let t = extract_faces(&g);
    assert_eq!(
        t,
        vec![
            tri(0, 9, 12),
            tri(0, 12, 3),
            tri(0, 10, 9),
            tri(0, 1, 10),
            tri(0, 3, 4),
            tri(0, 4, 1),
        ]
    );
}

#[test]
fn one_outside_sample_flips_the_winding() {
    let g = grid_from(3, 3, 3, |x, y, z| (x, y, z) != (1, 1, 1));
    let t = extract_faces(&g);
    assert_eq!(
        t,
        vec![
            tri(0, 12, 9),
            tri(0, 3, 12),
            tri(0, 9, 10),
            tri(0, 10, 1),
            tri(0, 4, 3),
            tri(0, 1, 4),
        ]
    );
}

#[test]
fn triangles_only_use_active_cells() {
    let g = grid_from(7, 6, 5, |x, y, z| (x * 7 + y * 3 + z * 5) % 4 == 0);
    let placed: Vec<usize> = active_cells(&g).iter().map(|c| c.sample).collect();
    let t = extract_faces(&g);
    assert!(!t.is_empty());
    for tr in &t {
        for v in [tr.a, tr.b, tr.c] {
            assert!(placed.contains(&v));
        }
    }
}

#[test]
fn uniform_fields_yield_no_triangles() {
    assert!(extract_faces(&grid_from(5, 5, 5, |_, _, _| true)).is_empty());
    assert!(extract_faces(&grid_from(5, 5, 5, |_, _, _| false)).is_empty());
}

#[test]
fn planar_field_yields_only_layer_quads() {
    let (w, h, d) = (5, 4, 8);
    let g = grid_from(w, h, d, |_, _, z| z as f32 - d as f32 / 2.0 <= 0.0);
    let t = extract_faces(&g);
    // one quad per interior z edge crossing the plane
    assert_eq!(t.len(), 2 * (w - 2) * (h - 2));
    for tr in &t {
        for v in [tr.a, tr.b, tr.c] {
            assert_eq!(v / (w * h), 4);
        }
    }
}

#[test]
fn small_grids_yield_no_triangles() {
    assert!(extract_faces(&grid_from(2, 5, 5, |x, _, _| x == 0)).is_empty());
    assert!(extract_faces(&grid_from(5, 5, 2, |x, _, _| x == 0)).is_empty());
    assert!(extract_faces(&grid_from(0, 0, 0, |_, _, _| true)).is_empty());
}

#[test]
fn layer_ranges_concatenate_to_the_whole() {
    let d = 9;
    let g = grid_from(6, 7, d, |x, y, z| (x + 2 * y + 3 * z) % 5 < 2);
    let whole = extract_faces(&g);
    let cuts = [0, 2, 2, 5, 7];
    let mut joined = Vec::new();
    for w in cuts.windows(2) {
        joined.extend(extract_faces_in_layers(&g, w[0], w[1]));
    }
    assert_eq!(joined, whole);
    assert_eq!(extract_faces_in_layers(&g, 0, d - 2), whole);
}

#[test]
fn repeated_extraction_gives_the_same_triangles() {
    let g = grid_from(6, 6, 6, |x, y, z| (x * x + y * y + z * z) <= 12);
    assert_eq!(extract_faces(&g), extract_faces(&g));
    assert_eq!(active_cells(&g), active_cells(&g));
}

#[test]
fn corners_follow_each_triangle_in_turn() {
    let values = vec!['a', 'b', 'c', 'd', 'e', 'f', 'g', 'h', 'i', 'j'];
    let t = vec![tri(4, 5, 6), tri(9, 0, 2)];
    let corners = triangle_corners(&values, &t);
    assert_eq!(corners, vec!['e', 'f', 'g', 'j', 'a', 'c']);
    assert!(triangle_corners(&values, &vec![]).is_empty());
}

#[test]
fn per_triangle_values_repeat_for_each_corner() {
    let r = repeat_per_corner(&vec![7u8, 9u8]);
    assert_eq!(r, vec![7, 7, 7, 9, 9, 9]);
    assert!(repeat_per_corner::<u8>(&vec![]).is_empty());
}

#[test]
fn mesh_arrays_have_equal_lengths() {
    let g = grid_from(6, 5, 7, |x, y, z| (x + y * z) % 3 == 0);
    let t = extract_faces(&g);
    assert!(!t.is_empty());
    let cells: Vec<[f32; 3]> = (0..6 * 5 * 7).map(|i| [i as f32, 0.0, 1.0]).collect();
    let positions = triangle_corners(&cells, &t);
    let flat: Vec<[f32; 3]> = t.iter().map(|tr| [tr.a as f32, tr.b as f32, tr.c as f32]).collect();
    let normals = repeat_per_corner(&flat);
    assert_eq!(positions.len(), normals.len());
    assert_eq!(positions.len() * 3 % 9, 0);
    assert_eq!(positions.len(), 3 * t.len());
    assert_eq!(positions[0][0], t[0].a as f32);
}
