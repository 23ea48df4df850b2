use dual_contouring::{active_cells, extract_faces, index, SignGrid};
use std::collections::HashMap;

const N: usize = 128;
const RADIUS: f32 = 32.0;

fn sphere_grid() -> SignGrid {
    let mut signs = vec![false; N * N * N];
    let half = N as f32 / 2.0;
    for z in 0..N {
        for y in 0..N {
            for x in 0..N {
                let (px, py, pz) = (x as f32 - half, y as f32 - half, z as f32 - half);
                let density = (px * px + py * py + pz * pz).sqrt() - RADIUS;
                signs[index(x, y, z, N, N)] = density <= 0.0;
            }
        }
    }
    SignGrid::new(signs, N * N * N, N, N, N).unwrap()
}

fn cell_centre(i: usize) -> [f64; 3] {
    let x = i % N;
    let y = (i / N) % N;
    let z = i / (N * N);
    [x as f64 + 0.5, y as f64 + 0.5, z as f64 + 0.5]
}

fn sub(a: [f64; 3], b: [f64; 3]) -> [f64; 3] {
    [a[0] - b[0], a[1] - b[1], a[2] - b[2]]
}

fn cross(a: [f64; 3], b: [f64; 3]) -> [f64; 3] {
    [a[1] * b[2] - a[2] * b[1], a[2] * b[0] - a[0] * b[2], a[0] * b[1] - a[1] * b[0]]
}

fn dot(a: [f64; 3], b: [f64; 3]) -> f64 {
    a[0] * b[0] + a[1] * b[1] + a[2] * b[2]
}

#[test]
fn sphere_gives_closed_outward_soup() {
    let g = sphere_grid();
    let cells = active_cells(&g);
    let tris = extract_faces(&g);

    // triangle count scales with surface area over cell area
    let area = 4.0 * std::f64::consts::PI * (RADIUS as f64) * (RADIUS as f64);
    let ratio = tris.len() as f64 / area;
    assert!(ratio > 2.5 && ratio < 3.5, "ratio {}", ratio);
    assert!(cells.len() as f64 > area * 0.5);

    // closed and consistently wound: each directed edge meets its reverse
    let mut edges: HashMap<(usize, usize), i64> = HashMap::new();
    for t in &tris {
        for (a, b) in [(t.a, t.b), (t.b, t.c), (t.c, t.a)] {
            *edges.entry((a, b)).or_insert(0) += 1;
        }
    }
    for (&(a, b), &n) in &edges {
        assert_eq!(edges.get(&(b, a)).copied().unwrap_or(0), n, "edge {} {}", a, b);
    }

    // flat normals point away from the centre
    let centre = [N as f64 / 2.0; 3];
    let mut outward = 0usize;
    for t in &tris {
        let (a, b, c) = (cell_centre(t.a), cell_centre(t.b), cell_centre(t.c));
        let n = cross(sub(b, a), sub(c, a));
        let mid = [(a[0] + b[0] + c[0]) / 3.0, (a[1] + b[1] + c[1]) / 3.0, (a[2] + b[2] + c[2]) / 3.0];
        if dot(n, sub(mid, centre)) > 0.0 {
            outward += 1;
        }
    }
    assert!(outward * 10 > tris.len() * 9, "{} of {}", outward, tris.len());
}
