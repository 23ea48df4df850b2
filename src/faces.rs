use vstd::prelude::*;

use crate::cell::{
    active_cells_of, active_yield, cell_active, corner_inside, corner_is_inside, is_cell,
    lemma_active_if_corners_differ, ActiveCell,
};
use crate::grid::{lemma_sample_index_bounds, GridModel, SignGrid};
use crate::traversal::{
    box_concat, cells_all, lemma_box_all, lemma_box_empty, lemma_parts_concat, parts_concat, row_concat,
    slab_concat, CellYield,
};

verus! {

/// A triangle of the output mesh, given by the linear indices of the three
/// cells whose vertices are its corners, in winding order.
#[derive(Debug, Clone, Copy, PartialEq, Eq)]
pub struct Triangle {
    pub a: usize,
    pub b: usize,
    pub c: usize,
}

/// `(x, y, z)` is visited by face extraction: the cell and the neighbours
/// one step further along each axis are all cells.
pub open spec fn is_face_cell(g: GridModel, x: int, y: int, z: int) -> bool {
    &&& 0 <= x < g.width - 2
    &&& 0 <= y < g.height - 2
    &&& 0 <= z < g.depth - 2
}

/// The corner at the other end of far edge `face` (0 to 2) from corner 7,
/// the cell's maximal corner: the far edges run along x, y and z in turn.
pub open spec fn far_corner(face: int) -> int {
    if face == 0 {
        3
    } else if face == 1 {
        5
    } else {
        6
    }
}

/// Offsets of the three cells that share far edge `face` with the cell;
/// with the cell itself they form the quad dual to that edge.
pub open spec fn quad_offsets(face: int) -> ((int, int, int), (int, int, int), (int, int, int)) {
    if face == 0 {
        ((0, 0, 1), (0, 1, 0), (0, 1, 1))
    } else if face == 1 {
        ((0, 0, 1), (1, 0, 0), (1, 0, 1))
    } else {
        ((0, 1, 0), (1, 0, 0), (1, 1, 0))
    }
}

pub open spec fn cell_at(g: GridModel, x: int, y: int, z: int, o: (int, int, int)) -> usize {
    g.sample_index(x + o.0, y + o.1, z + o.2) as usize
}

/// The two triangles of the quad dual to far edge `face` of cell `(x, y, z)`,
/// or none when that edge has no sign change. Winding puts the front face
/// on the outside; the rule is flipped for the edge along y.
pub open spec fn face_triangles(g: GridModel, x: int, y: int, z: int, face: int) -> Seq<Triangle> {
    let e0 = corner_inside(g, x, y, z, far_corner(face));
    let e1 = corner_inside(g, x, y, z, 7);
    let v0 = cell_at(g, x, y, z, (0, 0, 0));
    let v1 = cell_at(g, x, y, z, quad_offsets(face).0);
    let v2 = cell_at(g, x, y, z, quad_offsets(face).1);
    let v3 = cell_at(g, x, y, z, quad_offsets(face).2);
    if e0 == e1 {
        Seq::empty()
    } else if e0 == (face == 1) {
        seq![Triangle { a: v0, b: v1, c: v3 }, Triangle { a: v0, b: v3, c: v2 }]
    } else {
        seq![Triangle { a: v0, b: v3, c: v1 }, Triangle { a: v0, b: v2, c: v3 }]
    }
}

/// The triangles emitted for cell `(x, y, z)`: far edges along x, y, z in turn.
pub open spec fn triangles_of_cell(g: GridModel, x: int, y: int, z: int) -> Seq<Triangle> {
    face_triangles(g, x, y, z, 0) + face_triangles(g, x, y, z, 1) + face_triangles(g, x, y, z, 2)
}

pub open spec fn face_yield(g: GridModel) -> CellYield<Triangle> {
    |x: int, y: int, z: int| triangles_of_cell(g, x, y, z)
}

/// The triangles emitted for the cells of layers `lo .. hi - 1`, in traversal order.
pub open spec fn triangles_in_layers(g: GridModel, lo: int, hi: int) -> Seq<Triangle> {
    box_concat(face_yield(g), g.width - 2, g.height - 2, lo, hi)
}

/// The whole triangle list of the grid.
pub open spec fn triangles_of(g: GridModel) -> Seq<Triangle> {
    triangles_in_layers(g, 0, g.depth - 2)
}

fn far_corner_of(face: usize) -> (r: usize)
    requires
        face < 3,
    ensures
        r == far_corner(face as int),
{
    match face {
        0 => 3,
        1 => 5,
        _ => 6,
    }
}

fn quad_table(face: usize) -> (r: ((usize, usize, usize), (usize, usize, usize), (usize, usize, usize)))
    requires
        face < 3,
    ensures
        r.0.0 == quad_offsets(face as int).0.0,
        r.0.1 == quad_offsets(face as int).0.1,
        r.0.2 == quad_offsets(face as int).0.2,
        r.1.0 == quad_offsets(face as int).1.0,
        r.1.1 == quad_offsets(face as int).1.1,
        r.1.2 == quad_offsets(face as int).1.2,
        r.2.0 == quad_offsets(face as int).2.0,
        r.2.1 == quad_offsets(face as int).2.1,
        r.2.2 == quad_offsets(face as int).2.2,
{
    match face {
        0 => ((0, 0, 1), (0, 1, 0), (0, 1, 1)),
        1 => ((0, 0, 1), (1, 0, 0), (1, 0, 1)),
        _ => ((0, 1, 0), (1, 0, 0), (1, 1, 0)),
    }
}

fn neighbour_index(grid: &SignGrid, x: usize, y: usize, z: usize, o: (usize, usize, usize)) -> (r: usize)
    requires
        grid.wf(),
        is_face_cell(grid@, x as int, y as int, z as int),
        o.0 <= 1,
        o.1 <= 1,
        o.2 <= 1,
    ensures
        r == cell_at(grid@, x as int, y as int, z as int, (o.0 as int, o.1 as int, o.2 as int)),
{
    grid.sample_index(x + o.0, y + o.1, z + o.2)
}

/// The triangles emitted for cell `(x, y, z)`: for each far edge with a sign
/// change, the two triangles of its dual quad.
pub fn cell_triangles(grid: &SignGrid, x: usize, y: usize, z: usize) -> (r: Vec<Triangle>)
    requires
        grid.wf(),
        is_face_cell(grid@, x as int, y as int, z as int),
    ensures
        r@ == triangles_of_cell(grid@, x as int, y as int, z as int),
{
    let mut out: Vec<Triangle> = Vec::new();
    let top = corner_is_inside(grid, x, y, z, 7);
    let v0 = neighbour_index(grid, x, y, z, (0, 0, 0));
    let mut face: usize = 0;
    while face < 3
        invariant
            face <= 3,
            grid.wf(),
            is_face_cell(grid@, x as int, y as int, z as int),
            top == corner_inside(grid@, x as int, y as int, z as int, 7),
            v0 == cell_at(grid@, x as int, y as int, z as int, (0, 0, 0)),
            face == 0 ==> out@ == Seq::<Triangle>::empty(),
            face == 1 ==> out@ == face_triangles(grid@, x as int, y as int, z as int, 0),
            face == 2 ==> out@ == face_triangles(grid@, x as int, y as int, z as int, 0)
                + face_triangles(grid@, x as int, y as int, z as int, 1),
            face == 3 ==> out@ == triangles_of_cell(grid@, x as int, y as int, z as int),
        decreases 3 - face,
    {
        let ghost before = out@;
        let far = corner_is_inside(grid, x, y, z, far_corner_of(face));
        if far != top {
            let (o1, o2, o3) = quad_table(face);
            let v1 = neighbour_index(grid, x, y, z, o1);
            let v2 = neighbour_index(grid, x, y, z, o2);
            let v3 = neighbour_index(grid, x, y, z, o3);
            if far == (face == 1) {
                out.push(Triangle { a: v0, b: v1, c: v3 });
                out.push(Triangle { a: v0, b: v3, c: v2 });
            } else {
                out.push(Triangle { a: v0, b: v3, c: v1 });
                out.push(Triangle { a: v0, b: v2, c: v3 });
            }
        }
        assert(out@ =~= before + face_triangles(grid@, x as int, y as int, z as int, face as int));
        face = face + 1;
    }
    out
}

/// The triangles emitted for the cells of layers `z_begin .. z_end - 1`, in
/// traversal order. Ranges that split `0 .. depth - 2` can be extracted
/// separately and concatenated in order.
pub fn extract_faces_in_layers(grid: &SignGrid, z_begin: usize, z_end: usize) -> (r: Vec<Triangle>)
    requires
        grid.wf(),
        z_begin <= z_end,
        z_end + 2 <= grid@.depth,
    ensures
        r@ == triangles_in_layers(grid@, z_begin as int, z_end as int),
{
    let width = grid.width();
    let height = grid.height();
    let mut out: Vec<Triangle> = Vec::new();
    if width < 3 || height < 3 {
        proof {
            lemma_box_empty(face_yield(grid@), width - 2, height - 2, z_begin as int, z_end as int);
        }
        return out;
    }
    let ghost f = face_yield(grid@);
    let ghost nx = width - 2;
    let ghost ny = height - 2;
    let ghost lo = z_begin as int;
    let mut z: usize = z_begin;
    while z < z_end
        invariant
            grid.wf(),
            width == grid@.width,
            height == grid@.height,
            width >= 3,
            height >= 3,
            z_end + 2 <= grid@.depth,
            f == face_yield(grid@),
            nx == width - 2,
            ny == height - 2,
            lo <= z <= z_end,
            out@ == box_concat(f, nx, ny, lo, z as int),
        decreases z_end - z,
    {
        let mut y: usize = 0;
        while y < height - 2
            invariant
                grid.wf(),
                width == grid@.width,
                height == grid@.height,
                width >= 3,
                height >= 3,
                z_end + 2 <= grid@.depth,
                f == face_yield(grid@),
                nx == width - 2,
                ny == height - 2,
                lo <= z < z_end,
                y <= height - 2,
                out@ == box_concat(f, nx, ny, lo, z as int) + slab_concat(f, nx, z as int, y as int),
            decreases height - 2 - y,
        {
            let mut x: usize = 0;
            while x < width - 2
                invariant
                    grid.wf(),
                    width == grid@.width,
                    height == grid@.height,
                    width >= 3,
                    z_end + 2 <= grid@.depth,
                    f == face_yield(grid@),
                    nx == width - 2,
                    ny == height - 2,
                    lo <= z < z_end,
                    y < height - 2,
                    x <= width - 2,
                    out@ == box_concat(f, nx, ny, lo, z as int) + slab_concat(f, nx, z as int, y as int)
                        + row_concat(f, y as int, z as int, x as int),
                decreases width - 2 - x,
            {
                let ghost before = out@;
                let mut cell = cell_triangles(grid, x, y, z);
                out.append(&mut cell);
                proof {
                    let a = box_concat(f, nx, ny, lo, z as int);
                    let b = slab_concat(f, nx, z as int, y as int);
                    let c = row_concat(f, y as int, z as int, x as int);
                    let d = f(x as int, y as int, z as int);
                    assert(row_concat(f, y as int, z as int, x + 1) == c + d);
                    assert(out@ =~= before + d);
                    assert(a + b + (c + d) =~= a + b + c + d);
                }
                x = x + 1;
            }
            proof {
                let a = box_concat(f, nx, ny, lo, z as int);
                let b = slab_concat(f, nx, z as int, y as int);
                let c = row_concat(f, y as int, z as int, nx);
                assert(slab_concat(f, nx, z as int, y + 1) == b + c);
                assert(a + b + c =~= a + (b + c));
            }
            y = y + 1;
        }
        proof {
            let a = box_concat(f, nx, ny, lo, z as int);
            assert(box_concat(f, nx, ny, lo, z + 1) == a + slab_concat(f, nx, z as int, ny));
        }
        z = z + 1;
    }
    out
}

/// The whole triangle list of the grid: every cell whose neighbours one step
/// further along each axis exist, in traversal order.
pub fn extract_faces(grid: &SignGrid) -> (r: Vec<Triangle>)
    requires
        grid.wf(),
    ensures
        r@ == triangles_of(grid@),
        forall|i: int|
            0 <= i < r@.len() ==> {
                &&& #[trigger] r@[i].a < grid@.sample_count()
                &&& r@[i].b < grid@.sample_count()
                &&& r@[i].c < grid@.sample_count()
            },
{
    proof {
        lemma_triangles_in_range(grid@);
    }
    let depth = grid.depth();
    if depth < 3 {
        proof {
            lemma_box_empty(face_yield(grid@), grid@.width - 2, grid@.height - 2, 0, depth - 2);
        }
        return Vec::new();
    }
    extract_faces_in_layers(grid, 0, depth - 2)
}

/// The values of the three corner cells of each triangle in turn: with the
/// per-cell vertex grid, the non-indexed vertex list of the mesh.
pub fn triangle_corners<T: Copy>(cell_values: &Vec<T>, triangles: &Vec<Triangle>) -> (r: Vec<T>)
    requires
        3 * triangles@.len() <= usize::MAX,
        forall|i: int|
            0 <= i < triangles@.len() ==> {
                &&& #[trigger] triangles@[i].a < cell_values@.len()
                &&& triangles@[i].b < cell_values@.len()
                &&& triangles@[i].c < cell_values@.len()
            },
    ensures
        r@.len() == 3 * triangles@.len(),
        forall|i: int|
            0 <= i < triangles@.len() ==> {
                &&& #[trigger] r@[3 * i] == cell_values@[triangles@[i].a as int]
                &&& r@[3 * i + 1] == cell_values@[triangles@[i].b as int]
                &&& r@[3 * i + 2] == cell_values@[triangles@[i].c as int]
            },
{
    let mut out: Vec<T> = Vec::new();
    let mut i: usize = 0;
    while i < triangles.len()
        invariant
            i <= triangles@.len(),
            3 * triangles@.len() <= usize::MAX,
            forall|j: int|
                0 <= j < triangles@.len() ==> {
                    &&& #[trigger] triangles@[j].a < cell_values@.len()
                    &&& triangles@[j].b < cell_values@.len()
                    &&& triangles@[j].c < cell_values@.len()
                },
            out@.len() == 3 * i,
            forall|j: int|
                0 <= j < i ==> {
                    &&& #[trigger] out@[3 * j] == cell_values@[triangles@[j].a as int]
                    &&& out@[3 * j + 1] == cell_values@[triangles@[j].b as int]
                    &&& out@[3 * j + 2] == cell_values@[triangles@[j].c as int]
                },
        decreases triangles@.len() - i,
    {
        let ghost before = out@;
        let t = triangles[i];
        assert(triangles@[i as int].a < cell_values@.len());
        out.push(cell_values[t.a]);
        out.push(cell_values[t.b]);
        out.push(cell_values[t.c]);
        proof {
            assert forall|j: int| 0 <= j <= i implies {
                &&& #[trigger] out@[3 * j] == cell_values@[triangles@[j].a as int]
                &&& out@[3 * j + 1] == cell_values@[triangles@[j].b as int]
                &&& out@[3 * j + 2] == cell_values@[triangles@[j].c as int]
            } by {
                if j < i {
                    assert(before[3 * j] == cell_values@[triangles@[j].a as int]);
                }
            }
        }
        i = i + 1;
    }
    out
}

/// Each triangle's value repeated for its three corners: with one flat
/// normal per triangle, the per-vertex normal list of the mesh, as long as
/// the vertex list that `triangle_corners` gives.
pub fn repeat_per_corner<T: Copy>(per_triangle: &Vec<T>) -> (r: Vec<T>)
    requires
        3 * per_triangle@.len() <= usize::MAX,
    ensures
        r@.len() == 3 * per_triangle@.len(),
        forall|i: int|
            0 <= i < per_triangle@.len() ==> {
                &&& #[trigger] r@[3 * i] == per_triangle@[i]
                &&& r@[3 * i + 1] == per_triangle@[i]
                &&& r@[3 * i + 2] == per_triangle@[i]
            },
{
    let mut out: Vec<T> = Vec::new();
    let mut i: usize = 0;
    while i < per_triangle.len()
        invariant
            i <= per_triangle@.len(),
            3 * per_triangle@.len() <= usize::MAX,
            out@.len() == 3 * i,
            forall|j: int|
                0 <= j < i ==> {
                    &&& #[trigger] out@[3 * j] == per_triangle@[j]
                    &&& out@[3 * j + 1] == per_triangle@[j]
                    &&& out@[3 * j + 2] == per_triangle@[j]
                },
        decreases per_triangle@.len() - i,
    {
        let ghost before = out@;
        let v = per_triangle[i];
        out.push(v);
        out.push(v);
        out.push(v);
        proof {
            assert forall|j: int| 0 <= j <= i implies {
                &&& #[trigger] out@[3 * j] == per_triangle@[j]
                &&& out@[3 * j + 1] == per_triangle@[j]
                &&& out@[3 * j + 2] == per_triangle@[j]
            } by {
                if j < i {
                    assert(before[3 * j] == per_triangle@[j]);
                }
            }
        }
        i = i + 1;
    }
    out
}

/// For the same triangles, the vertex list and the per-vertex normal list
/// are equally long, three entries per triangle.
pub proof fn lemma_mesh_arrays_match<T, U>(
    triangles: Seq<Triangle>,
    positions: Seq<T>,
    per_triangle: Seq<U>,
    normals: Seq<U>,
)
    requires
        positions.len() == 3 * triangles.len(),
        per_triangle.len() == triangles.len(),
        normals.len() == 3 * per_triangle.len(),
    ensures
        positions.len() == normals.len(),
        positions.len() % 3 == 0,
{
}

/// Splitting the layers at any ascending cut points, extracting each part on
/// its own and concatenating the parts in order gives the whole triangle
/// list: extraction may be partitioned by layers with no change in output.
pub proof fn lemma_partitioned_extraction(g: GridModel, cuts: Seq<int>)
    requires
        cuts.len() >= 2,
        cuts[0] == 0,
        cuts.last() == g.depth - 2,
        forall|i: int| 0 < i < cuts.len() ==> cuts[i - 1] <= #[trigger] cuts[i],
    ensures
        parts_concat(face_yield(g), g.width - 2, g.height - 2, cuts) == triangles_of(g),
{
    lemma_parts_concat(face_yield(g), g.width - 2, g.height - 2, cuts);
}

/// A field whose samples are all inside, or all outside, has no active cell
/// and yields no triangle.
pub proof fn lemma_uniform_field_is_empty(g: GridModel, side: bool)
    requires
        g.wf(),
        forall|i: int| 0 <= i < g.inside.len() ==> #[trigger] g.inside[i] == side,
    ensures
        active_cells_of(g) == Seq::<ActiveCell>::empty(),
        triangles_of(g) == Seq::<Triangle>::empty(),
{
    assert forall|x: int, y: int, z: int, c: int|
        is_cell(g, x, y, z) && 0 <= c < 8 implies #[trigger] corner_inside(g, x, y, z, c) == side by {
        lemma_sample_index_bounds(g, x + c / 4, y + (c / 2) % 2, z + c % 2);
    }
    assert forall|x: int, y: int, z: int|
        0 <= x < g.width - 1 && 0 <= y < g.height - 1 && 0 <= z < g.depth - 1 implies #[trigger] active_yield(
        g,
    )(x, y, z).len() == 0 by {
        assert(corner_inside(g, x, y, z, 0) == side);
        if cell_active(g, x, y, z) {
            let c = choose|c: int| 0 <= c < 8 && #[trigger] corner_inside(g, x, y, z, c) != corner_inside(g, x, y, z, 0);
            assert(corner_inside(g, x, y, z, c) == side);
        }
    }
    lemma_box_empty(active_yield(g), g.width - 1, g.height - 1, 0, g.depth - 1);
    assert forall|x: int, y: int, z: int|
        0 <= x < g.width - 2 && 0 <= y < g.height - 2 && 0 <= z < g.depth - 2 implies #[trigger] face_yield(
        g,
    )(x, y, z).len() == 0 by {
        assert(is_cell(g, x, y, z));
        assert(corner_inside(g, x, y, z, 3) == side);
        assert(corner_inside(g, x, y, z, 5) == side);
        assert(corner_inside(g, x, y, z, 6) == side);
        assert(corner_inside(g, x, y, z, 7) == side);
    }
    lemma_box_empty(face_yield(g), g.width - 2, g.height - 2, 0, g.depth - 2);
}

/// For a field whose samples are inside exactly at layers `z <= k`, only the
/// far edge along z ever changes sign, and only in layer `k`: every
/// triangle comes from the quad of four cells of that layer around such an edge.
pub proof fn lemma_planar_field_faces(g: GridModel, k: int)
    requires
        g.wf(),
        forall|x: int, y: int, z: int| g.contains(x, y, z) ==> #[trigger] g.inside_at(x, y, z) == (z <= k),
    ensures
        forall|x: int, y: int, z: int|
            is_face_cell(g, x, y, z) ==> #[trigger] triangles_of_cell(g, x, y, z) == if z == k {
                face_triangles(g, x, y, z, 2)
            } else {
                Seq::<Triangle>::empty()
            },
{
    assert forall|x: int, y: int, z: int| is_face_cell(g, x, y, z) implies #[trigger] triangles_of_cell(
        g,
        x,
        y,
        z,
    ) == if z == k {
        face_triangles(g, x, y, z, 2)
    } else {
        Seq::<Triangle>::empty()
    } by {
        assert(g.contains(x, y + 1, z + 1));
        assert(g.contains(x + 1, y, z + 1));
        assert(g.contains(x + 1, y + 1, z + 1));
        assert(g.contains(x + 1, y + 1, z));
        assert(face_triangles(g, x, y, z, 0) == Seq::<Triangle>::empty());
        assert(face_triangles(g, x, y, z, 1) == Seq::<Triangle>::empty());
        let e = Seq::<Triangle>::empty();
        assert(e + e + face_triangles(g, x, y, z, 2) =~= face_triangles(g, x, y, z, 2));
    }
}

/// Cell `s` (a linear index) is an active cell, so the vertex pass has placed
/// a vertex there.
pub open spec fn has_vertex(g: GridModel, s: usize) -> bool {
    exists|x: int, y: int, z: int|
        is_cell(g, x, y, z) && cell_active(g, x, y, z) && #[trigger] g.sample_index(x, y, z) == s as int
}

proof fn lemma_quad_has_vertices(g: GridModel, x: int, y: int, z: int, face: int)
    requires
        g.wf(),
        is_face_cell(g, x, y, z),
        0 <= face < 3,
        corner_inside(g, x, y, z, far_corner(face)) != corner_inside(g, x, y, z, 7),
    ensures
        has_vertex(g, cell_at(g, x, y, z, (0, 0, 0))),
        has_vertex(g, cell_at(g, x, y, z, quad_offsets(face).0)),
        has_vertex(g, cell_at(g, x, y, z, quad_offsets(face).1)),
        has_vertex(g, cell_at(g, x, y, z, quad_offsets(face).2)),
{
    let o = quad_offsets(face);
    lemma_sample_index_bounds(g, x, y, z);
    lemma_sample_index_bounds(g, x + o.0.0, y + o.0.1, z + o.0.2);
    lemma_sample_index_bounds(g, x + o.1.0, y + o.1.1, z + o.1.2);
    lemma_sample_index_bounds(g, x + o.2.0, y + o.2.1, z + o.2.2);
    lemma_active_if_corners_differ(g, x, y, z, far_corner(face), 7);
    if face == 0 {
        lemma_active_if_corners_differ(g, x, y, z + 1, 2, 6);
        lemma_active_if_corners_differ(g, x, y + 1, z, 1, 5);
        lemma_active_if_corners_differ(g, x, y + 1, z + 1, 0, 4);
    } else if face == 1 {
        lemma_active_if_corners_differ(g, x, y, z + 1, 4, 6);
        lemma_active_if_corners_differ(g, x + 1, y, z, 1, 3);
        lemma_active_if_corners_differ(g, x + 1, y, z + 1, 0, 2);
    } else {
        lemma_active_if_corners_differ(g, x, y + 1, z, 4, 5);
        lemma_active_if_corners_differ(g, x + 1, y, z, 2, 3);
        lemma_active_if_corners_differ(g, x + 1, y + 1, z, 0, 1);
    }
    assert(is_cell(g, x, y, z));
    assert(is_cell(g, x + o.0.0, y + o.0.1, z + o.0.2));
    assert(is_cell(g, x + o.1.0, y + o.1.1, z + o.1.2));
    assert(is_cell(g, x + o.2.0, y + o.2.1, z + o.2.2));
}

pub open spec fn corners_have_vertices(g: GridModel) -> spec_fn(Triangle) -> bool {
    |t: Triangle| has_vertex(g, t.a) && has_vertex(g, t.b) && has_vertex(g, t.c)
}

proof fn lemma_cell_triangles_have_vertices(g: GridModel, x: int, y: int, z: int)
    requires
        g.wf(),
        is_face_cell(g, x, y, z),
    ensures
        forall|i: int|
            0 <= i < triangles_of_cell(g, x, y, z).len() ==> corners_have_vertices(g)(
                #[trigger] triangles_of_cell(g, x, y, z)[i],
            ),
{
    let p = corners_have_vertices(g);
    let t0 = face_triangles(g, x, y, z, 0);
    let t1 = face_triangles(g, x, y, z, 1);
    let t2 = face_triangles(g, x, y, z, 2);
    assert forall|f: int, i: int| 0 <= f < 3 && 0 <= i < face_triangles(g, x, y, z, f).len() implies p(
        #[trigger] face_triangles(g, x, y, z, f)[i],
    ) by {
        lemma_quad_has_vertices(g, x, y, z, f);
    }
    let all = t0 + t1 + t2;
    assert forall|i: int| 0 <= i < all.len() implies p(#[trigger] all[i]) by {
        if i < t0.len() {
            assert(all[i] == t0[i]);
        } else if i < t0.len() + t1.len() {
            assert(all[i] == t1[i - t0.len()]);
        } else {
            assert(all[i] == t2[i - t0.len() - t1.len()]);
        }
    }
}

/// Every corner of every triangle is an active cell: face extraction reads
/// only vertices that the vertex pass has placed.
pub proof fn lemma_triangles_use_placed_vertices(g: GridModel)
    requires
        g.wf(),
    ensures
        forall|i: int|
            0 <= i < triangles_of(g).len() ==> {
                &&& has_vertex(g, #[trigger] triangles_of(g)[i].a)
                &&& has_vertex(g, triangles_of(g)[i].b)
                &&& has_vertex(g, triangles_of(g)[i].c)
            },
{
    let p = corners_have_vertices(g);
    assert forall|x: int, y: int, z: int, i: int|
        0 <= x < g.width - 2 && 0 <= y < g.height - 2 && 0 <= z < g.depth - 2 && 0 <= i < face_yield(
            g,
        )(x, y, z).len() implies p(#[trigger] face_yield(g)(x, y, z)[i]) by {
        lemma_cell_triangles_have_vertices(g, x, y, z);
    }
    assert(cells_all(face_yield(g), g.width - 2, g.height - 2, 0, g.depth - 2, p));
    lemma_box_all(face_yield(g), g.width - 2, g.height - 2, 0, g.depth - 2, p);
    assert forall|i: int| 0 <= i < triangles_of(g).len() implies {
        &&& has_vertex(g, #[trigger] triangles_of(g)[i].a)
        &&& has_vertex(g, triangles_of(g)[i].b)
        &&& has_vertex(g, triangles_of(g)[i].c)
    } by {
        assert(p(triangles_of(g)[i]));
    }
}

/// A cell that holds a vertex is a sample of the grid.
proof fn lemma_vertex_in_range(g: GridModel, s: usize)
    requires
        g.wf(),
        has_vertex(g, s),
    ensures
        s < g.sample_count(),
{
    let (x, y, z) = choose|x: int, y: int, z: int|
        is_cell(g, x, y, z) && cell_active(g, x, y, z) && #[trigger] g.sample_index(x, y, z) == s as int;
    lemma_sample_index_bounds(g, x, y, z);
}

proof fn lemma_triangles_in_range(g: GridModel)
    requires
        g.wf(),
    ensures
        forall|i: int|
            0 <= i < triangles_of(g).len() ==> {
                &&& #[trigger] triangles_of(g)[i].a < g.sample_count()
                &&& triangles_of(g)[i].b < g.sample_count()
                &&& triangles_of(g)[i].c < g.sample_count()
            },
{
    lemma_triangles_use_placed_vertices(g);
    assert forall|i: int| 0 <= i < triangles_of(g).len() implies {
        &&& #[trigger] triangles_of(g)[i].a < g.sample_count()
        &&& triangles_of(g)[i].b < g.sample_count()
        &&& triangles_of(g)[i].c < g.sample_count()
    } by {
        let t = triangles_of(g)[i];
        assert(has_vertex(g, t.a));
        lemma_vertex_in_range(g, t.a);
        lemma_vertex_in_range(g, t.b);
        lemma_vertex_in_range(g, t.c);
    }
}

} // verus!
