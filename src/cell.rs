use vstd::prelude::*;

use crate::grid::{GridModel, SignGrid};
use crate::traversal::{
    box_concat, lemma_box_empty, lemma_parts_concat, parts_concat, row_concat, slab_concat, CellYield,
};

verus! {

/// The axis a cell edge runs along.
#[derive(Debug, Clone, Copy, PartialEq, Eq)]
pub enum Axis {
    X,
    Y,
    Z,
}

/// An edge of a cell whose two endpoints lie on opposite sides of the
/// surface. It contributes one plane constraint to the cell's vertex: the
/// crossing point lies on the edge, and the plane's normal is the normal
/// sample at the lower endpoint.
#[derive(Debug, Clone, Copy, PartialEq, Eq)]
pub struct EdgeCrossing {
    pub axis: Axis,
    /// Offset of the lower endpoint within the cell, each 0 or 1; the
    /// coordinate along `axis` is always 0.
    pub dx: usize,
    pub dy: usize,
    pub dz: usize,
    /// Linear index of the lower endpoint.
    pub lower: usize,
    /// Linear index of the upper endpoint.
    pub upper: usize,
}

/// A cell whose corners are not all on one side of the surface; `sample`
/// is the linear index of its origin, where its vertex is stored.
#[derive(Debug, Clone, Copy, PartialEq, Eq)]
pub struct ActiveCell {
    pub x: usize,
    pub y: usize,
    pub z: usize,
    pub sample: usize,
}

/// `(x, y, z)` is the origin of a cell: its far corner is still a sample.
pub open spec fn is_cell(g: GridModel, x: int, y: int, z: int) -> bool {
    &&& 0 <= x < g.width - 1
    &&& 0 <= y < g.height - 1
    &&& 0 <= z < g.depth - 1
}

/// Offset of corner `c` (0 to 7) of a cell: bit 2 of `c` is x, bit 1 is y,
/// bit 0 is z.
pub open spec fn corner_offset(c: int) -> (int, int, int) {
    (c / 4, (c / 2) % 2, c % 2)
}

pub open spec fn corner_inside(g: GridModel, x: int, y: int, z: int, c: int) -> bool {
    g.inside_at(x + corner_offset(c).0, y + corner_offset(c).1, z + corner_offset(c).2)
}

/// A cell is active when its eight corners are not all on one side.
pub open spec fn cell_active(g: GridModel, x: int, y: int, z: int) -> bool {
    exists|c: int| 0 <= c < 8 && #[trigger] corner_inside(g, x, y, z, c) != corner_inside(g, x, y, z, 0)
}

/// The axis of edge `e` (0 to 11): four edges along z, then four along y,
/// then four along x.
pub open spec fn edge_axis(e: int) -> Axis {
    if e < 4 {
        Axis::Z
    } else if e < 8 {
        Axis::Y
    } else {
        Axis::X
    }
}

/// Offset of the lower endpoint of edge `e` within the cell.
pub open spec fn edge_offset(e: int) -> (int, int, int) {
    if e < 4 {
        (e % 2, e / 2, 0)
    } else if e < 8 {
        ((e - 4) % 2, 0, (e - 4) / 2)
    } else {
        (0, (e - 8) % 2, (e - 8) / 2)
    }
}

/// Unit step along an axis.
pub open spec fn axis_step(a: Axis) -> (int, int, int) {
    match a {
        Axis::X => (1, 0, 0),
        Axis::Y => (0, 1, 0),
        Axis::Z => (0, 0, 1),
    }
}

pub open spec fn edge_lower(x: int, y: int, z: int, e: int) -> (int, int, int) {
    (x + edge_offset(e).0, y + edge_offset(e).1, z + edge_offset(e).2)
}

pub open spec fn edge_upper(x: int, y: int, z: int, e: int) -> (int, int, int) {
    let s = axis_step(edge_axis(e));
    (edge_lower(x, y, z, e).0 + s.0, edge_lower(x, y, z, e).1 + s.1, edge_lower(x, y, z, e).2 + s.2)
}

/// Edge `e` of cell `(x, y, z)` has endpoints of opposite signs.
pub open spec fn edge_crosses(g: GridModel, x: int, y: int, z: int, e: int) -> bool {
    let a = edge_lower(x, y, z, e);
    let b = edge_upper(x, y, z, e);
    g.inside_at(a.0, a.1, a.2) != g.inside_at(b.0, b.1, b.2)
}

pub open spec fn edge_crossing(g: GridModel, x: int, y: int, z: int, e: int) -> EdgeCrossing {
    let a = edge_lower(x, y, z, e);
    let b = edge_upper(x, y, z, e);
    EdgeCrossing {
        axis: edge_axis(e),
        dx: edge_offset(e).0 as usize,
        dy: edge_offset(e).1 as usize,
        dz: edge_offset(e).2 as usize,
        lower: g.sample_index(a.0, a.1, a.2) as usize,
        upper: g.sample_index(b.0, b.1, b.2) as usize,
    }
}

/// The crossings among edges `0 .. n - 1` of cell `(x, y, z)`, in edge order.
pub open spec fn crossings_upto(g: GridModel, x: int, y: int, z: int, n: int) -> Seq<EdgeCrossing>
    decreases n,
{
    if n <= 0 {
        Seq::empty()
    } else if edge_crosses(g, x, y, z, n - 1) {
        crossings_upto(g, x, y, z, n - 1).push(edge_crossing(g, x, y, z, n - 1))
    } else {
        crossings_upto(g, x, y, z, n - 1)
    }
}

/// All edge crossings of cell `(x, y, z)`, in edge order.
pub open spec fn crossings_of(g: GridModel, x: int, y: int, z: int) -> Seq<EdgeCrossing> {
    crossings_upto(g, x, y, z, 12)
}

pub open spec fn active_entry(g: GridModel, x: int, y: int, z: int) -> Seq<ActiveCell> {
    if cell_active(g, x, y, z) {
        seq![
            ActiveCell {
                x: x as usize,
                y: y as usize,
                z: z as usize,
                sample: g.sample_index(x, y, z) as usize,
            },
        ]
    } else {
        Seq::empty()
    }
}

pub open spec fn active_yield(g: GridModel) -> CellYield<ActiveCell> {
    |x: int, y: int, z: int| active_entry(g, x, y, z)
}

/// The active cells of layers `lo .. hi - 1`, `z` outermost, then `y`, then `x`.
pub open spec fn active_cells_in(g: GridModel, lo: int, hi: int) -> Seq<ActiveCell> {
    box_concat(active_yield(g), g.width - 1, g.height - 1, lo, hi)
}

/// The active cells of the grid, in traversal order.
pub open spec fn active_cells_of(g: GridModel) -> Seq<ActiveCell> {
    active_cells_in(g, 0, g.depth - 1)
}

/// Offset of corner `c`; see `corner_offset`.
fn corner_table(c: usize) -> (r: (usize, usize, usize))
    requires
        c < 8,
    ensures
        r.0 == corner_offset(c as int).0,
        r.1 == corner_offset(c as int).1,
        r.2 == corner_offset(c as int).2,
{
    match c {
        0 => (0, 0, 0),
        1 => (0, 0, 1),
        2 => (0, 1, 0),
        3 => (0, 1, 1),
        4 => (1, 0, 0),
        5 => (1, 0, 1),
        6 => (1, 1, 0),
        _ => (1, 1, 1),
    }
}

/// Axis and lower-endpoint offset of edge `e`; see `edge_axis`, `edge_offset`.
fn edge_table(e: usize) -> (r: (Axis, usize, usize, usize))
    requires
        e < 12,
    ensures
        r.0 == edge_axis(e as int),
        r.1 == edge_offset(e as int).0,
        r.2 == edge_offset(e as int).1,
        r.3 == edge_offset(e as int).2,
{
    match e {
        0 => (Axis::Z, 0, 0, 0),
        1 => (Axis::Z, 1, 0, 0),
        2 => (Axis::Z, 0, 1, 0),
        3 => (Axis::Z, 1, 1, 0),
        4 => (Axis::Y, 0, 0, 0),
        5 => (Axis::Y, 1, 0, 0),
        6 => (Axis::Y, 0, 0, 1),
        7 => (Axis::Y, 1, 0, 1),
        8 => (Axis::X, 0, 0, 0),
        9 => (Axis::X, 0, 1, 0),
        10 => (Axis::X, 0, 0, 1),
        _ => (Axis::X, 0, 1, 1),
    }
}

fn step_of(a: Axis) -> (r: (usize, usize, usize))
    ensures
        r.0 == axis_step(a).0,
        r.1 == axis_step(a).1,
        r.2 == axis_step(a).2,
{
    match a {
        Axis::X => (1, 0, 0),
        Axis::Y => (0, 1, 0),
        Axis::Z => (0, 0, 1),
    }
}

/// Whether corner `c` of cell `(x, y, z)` lies inside the surface.
pub fn corner_is_inside(grid: &SignGrid, x: usize, y: usize, z: usize, c: usize) -> (r: bool)
    requires
        grid.wf(),
        is_cell(grid@, x as int, y as int, z as int),
        c < 8,
    ensures
        r == corner_inside(grid@, x as int, y as int, z as int, c as int),
{
    let (ox, oy, oz) = corner_table(c);
    grid.is_inside(x + ox, y + oy, z + oz)
}

/// Whether cell `(x, y, z)` is active.
pub fn cell_is_active(grid: &SignGrid, x: usize, y: usize, z: usize) -> (r: bool)
    requires
        grid.wf(),
        is_cell(grid@, x as int, y as int, z as int),
    ensures
        r == cell_active(grid@, x as int, y as int, z as int),
{
    let first = corner_is_inside(grid, x, y, z, 0);
    let mut c: usize = 1;
    while c < 8
        invariant
            1 <= c <= 8,
            grid.wf(),
            is_cell(grid@, x as int, y as int, z as int),
            first == corner_inside(grid@, x as int, y as int, z as int, 0),
            forall|k: int|
                0 <= k < c ==> #[trigger] corner_inside(grid@, x as int, y as int, z as int, k)
                    == first,
        decreases 8 - c,
    {
        if corner_is_inside(grid, x, y, z, c) != first {
            return true;
        }
        c = c + 1;
    }
    false
}

/// The edge crossings of cell `(x, y, z)`, in edge order: the four edges
/// along z, then the four along y, then the four along x.
pub fn cell_crossings(grid: &SignGrid, x: usize, y: usize, z: usize) -> (r: Vec<EdgeCrossing>)
    requires
        grid.wf(),
        is_cell(grid@, x as int, y as int, z as int),
    ensures
        r@ == crossings_of(grid@, x as int, y as int, z as int),
{
    let mut out: Vec<EdgeCrossing> = Vec::new();
    let mut e: usize = 0;
    while e < 12
        invariant
            e <= 12,
            grid.wf(),
            is_cell(grid@, x as int, y as int, z as int),
            out@ == crossings_upto(grid@, x as int, y as int, z as int, e as int),
        decreases 12 - e,
    {
        let (axis, dx, dy, dz) = edge_table(e);
        let (sx, sy, sz) = step_of(axis);
        let lower = grid.sample_index(x + dx, y + dy, z + dz);
        let upper = grid.sample_index(x + dx + sx, y + dy + sy, z + dz + sz);
        let a = grid.is_inside(x + dx, y + dy, z + dz);
        let b = grid.is_inside(x + dx + sx, y + dy + sy, z + dz + sz);
        if a != b {
            out.push(EdgeCrossing { axis, dx, dy, dz, lower, upper });
        }
        e = e + 1;
    }
    out
}

/// The active cells of layers `z_begin .. z_end - 1`, in traversal order:
/// `z` outermost, then `y`, then `x`. Each is a cell for which a vertex is
/// placed; ranges that split `0 .. depth - 1` can be handled separately.
pub fn active_cells_in_layers(grid: &SignGrid, z_begin: usize, z_end: usize) -> (r: Vec<ActiveCell>)
    requires
        grid.wf(),
        z_begin <= z_end,
        z_end + 1 <= grid@.depth,
    ensures
        r@ == active_cells_in(grid@, z_begin as int, z_end as int),
{
    let width = grid.width();
    let height = grid.height();
    let mut out: Vec<ActiveCell> = Vec::new();
    if width < 2 || height < 2 {
        proof {
            lemma_box_empty(active_yield(grid@), width - 1, height - 1, z_begin as int, z_end as int);
        }
        return out;
    }
    let ghost f = active_yield(grid@);
    let ghost nx = width - 1;
    let ghost ny = height - 1;
    let ghost lo = z_begin as int;
    let mut z: usize = z_begin;
    while z < z_end
        invariant
            grid.wf(),
            width == grid@.width,
            height == grid@.height,
            width >= 2,
            height >= 2,
            z_end + 1 <= grid@.depth,
            f == active_yield(grid@),
            nx == width - 1,
            ny == height - 1,
            lo <= z <= z_end,
            out@ == box_concat(f, nx, ny, lo, z as int),
        decreases z_end - z,
    {
        let mut y: usize = 0;
        while y < height - 1
            invariant
                grid.wf(),
                width == grid@.width,
                height == grid@.height,
                width >= 2,
                height >= 2,
                z_end + 1 <= grid@.depth,
                f == active_yield(grid@),
                nx == width - 1,
                ny == height - 1,
                lo <= z < z_end,
                y <= height - 1,
                out@ == box_concat(f, nx, ny, lo, z as int) + slab_concat(f, nx, z as int, y as int),
            decreases height - 1 - y,
        {
            let mut x: usize = 0;
            while x < width - 1
                invariant
                    grid.wf(),
                    width == grid@.width,
                    height == grid@.height,
                    width >= 2,
                    z_end + 1 <= grid@.depth,
                    f == active_yield(grid@),
                    nx == width - 1,
                    ny == height - 1,
                    lo <= z < z_end,
                    y < height - 1,
                    x <= width - 1,
                    out@ == box_concat(f, nx, ny, lo, z as int) + slab_concat(f, nx, z as int, y as int)
                        + row_concat(f, y as int, z as int, x as int),
                decreases width - 1 - x,
            {
                let ghost before = out@;
                if cell_is_active(grid, x, y, z) {
                    let sample = grid.sample_index(x, y, z);
                    out.push(ActiveCell { x, y, z, sample });
                }
                proof {
                    let a = box_concat(f, nx, ny, lo, z as int);
                    let b = slab_concat(f, nx, z as int, y as int);
                    let c = row_concat(f, y as int, z as int, x as int);
                    let d = f(x as int, y as int, z as int);
                    assert(row_concat(f, y as int, z as int, x + 1) == c + d);
                    assert(out@ =~= before + d);
                    assert(a + b + (c + d) =~= a + b + c + d);
                }
                x = x + 1;
            }
            proof {
                let a = box_concat(f, nx, ny, lo, z as int);
                let b = slab_concat(f, nx, z as int, y as int);
                let c = row_concat(f, y as int, z as int, nx);
                assert(slab_concat(f, nx, z as int, y + 1) == b + c);
                assert(a + b + c =~= a + (b + c));
            }
            y = y + 1;
        }
        proof {
            let a = box_concat(f, nx, ny, lo, z as int);
            let b = slab_concat(f, nx, z as int, ny);
            assert(box_concat(f, nx, ny, lo, z + 1) == a + b);
            assert(a + slab_concat(f, nx, z as int, 0) =~= a);
        }
        z = z + 1;
    }
    out
}

/// The active cells of the grid, in traversal order.
pub fn active_cells(grid: &SignGrid) -> (r: Vec<ActiveCell>)
    requires
        grid.wf(),
    ensures
        r@ == active_cells_of(grid@),
{
    let depth = grid.depth();
    if depth < 2 {
        proof {
            lemma_box_empty(active_yield(grid@), grid@.width - 1, grid@.height - 1, 0, depth - 1);
        }
        return Vec::new();
    }
    active_cells_in_layers(grid, 0, depth - 1)
}

/// Splitting the layers at any ascending cut points, listing the active cells
/// of each part on its own and concatenating the parts in order gives the
/// whole list: the vertex pass may be partitioned by layers.
pub proof fn lemma_partitioned_cell_pass(g: GridModel, cuts: Seq<int>)
    requires
        cuts.len() >= 2,
        cuts[0] == 0,
        cuts.last() == g.depth - 1,
        forall|i: int| 0 < i < cuts.len() ==> cuts[i - 1] <= #[trigger] cuts[i],
    ensures
        parts_concat(active_yield(g), g.width - 1, g.height - 1, cuts) == active_cells_of(g),
{
    lemma_parts_concat(active_yield(g), g.width - 1, g.height - 1, cuts);
}

/// Where no edge of a cell crosses, the crossing list is empty, and back.
proof fn lemma_no_crossings(g: GridModel, x: int, y: int, z: int, n: int)
    requires
        crossings_upto(g, x, y, z, n).len() == 0,
    ensures
        forall|e: int| 0 <= e < n ==> !#[trigger] edge_crosses(g, x, y, z, e),
    decreases n,
{
    if n > 0 {
        if edge_crosses(g, x, y, z, n - 1) {
            assert(crossings_upto(g, x, y, z, n).len() == crossings_upto(g, x, y, z, n - 1).len() + 1);
        } else {
            lemma_no_crossings(g, x, y, z, n - 1);
        }
    }
}

/// A cell is active exactly when one of its corners differs from another.
pub proof fn lemma_active_if_corners_differ(g: GridModel, x: int, y: int, z: int, c1: int, c2: int)
    requires
        0 <= c1 < 8,
        0 <= c2 < 8,
        corner_inside(g, x, y, z, c1) != corner_inside(g, x, y, z, c2),
    ensures
        cell_active(g, x, y, z),
{
    if corner_inside(g, x, y, z, c1) != corner_inside(g, x, y, z, 0) {
        assert(0 <= c1 < 8 && corner_inside(g, x, y, z, c1) != corner_inside(g, x, y, z, 0));
    } else {
        assert(0 <= c2 < 8 && corner_inside(g, x, y, z, c2) != corner_inside(g, x, y, z, 0));
    }
}

/// Every active cell has at least one edge crossing, so the mass point of
/// its crossings is always defined.
pub proof fn lemma_active_cell_has_crossing(g: GridModel, x: int, y: int, z: int)
    requires
        g.wf(),
        is_cell(g, x, y, z),
        cell_active(g, x, y, z),
    ensures
        crossings_of(g, x, y, z).len() > 0,
{
    if crossings_of(g, x, y, z).len() == 0 {
        lemma_no_crossings(g, x, y, z, 12);
        // the twelve edges connect all eight corners to corner 0
        assert(!edge_crosses(g, x, y, z, 0));
        assert(!edge_crosses(g, x, y, z, 1));
        assert(!edge_crosses(g, x, y, z, 2));
        assert(!edge_crosses(g, x, y, z, 3));
        assert(!edge_crosses(g, x, y, z, 4));
        assert(!edge_crosses(g, x, y, z, 5));
        assert(!edge_crosses(g, x, y, z, 8));
        let c0 = corner_inside(g, x, y, z, 0);
        assert(corner_inside(g, x, y, z, 1) == c0);
        assert(corner_inside(g, x, y, z, 2) == c0);
        assert(corner_inside(g, x, y, z, 4) == c0);
        assert(corner_inside(g, x, y, z, 3) == c0);
        assert(corner_inside(g, x, y, z, 5) == c0);
        assert(corner_inside(g, x, y, z, 6) == c0);
        assert(corner_inside(g, x, y, z, 7) == c0);
        assert forall|c: int| 0 <= c < 8 implies #[trigger] corner_inside(g, x, y, z, c) == c0 by {
            if c == 0 {
            } else if c == 1 {
            } else if c == 2 {
            } else if c == 3 {
            } else if c == 4 {
            } else if c == 5 {
            } else if c == 6 {
            } else {
                assert(c == 7);
            }
        }
    }
}

/// For a field whose samples are inside exactly at layers `z <= k`, the
/// active cells are exactly those of layer `k`, the cells straddling the plane.
pub proof fn lemma_planar_field_active_layer(g: GridModel, k: int)
    requires
        g.wf(),
        forall|x: int, y: int, z: int| g.contains(x, y, z) ==> #[trigger] g.inside_at(x, y, z) == (z <= k),
    ensures
        forall|x: int, y: int, z: int|
            is_cell(g, x, y, z) ==> (#[trigger] cell_active(g, x, y, z) <==> z == k),
{
    assert forall|x: int, y: int, z: int| is_cell(g, x, y, z) implies (#[trigger] cell_active(
        g,
        x,
        y,
        z,
    ) <==> z == k) by {
        assert(corner_inside(g, x, y, z, 0) == (z <= k));
        assert(corner_inside(g, x, y, z, 1) == (z + 1 <= k));
        if z == k {
            lemma_active_if_corners_differ(g, x, y, z, 0, 1);
        } else {
            assert forall|c: int| 0 <= c < 8 implies #[trigger] corner_inside(g, x, y, z, c)
                == corner_inside(g, x, y, z, 0) by {
                assert(g.contains(x + c / 4, y + (c / 2) % 2, z + c % 2));
            }
        }
    }
}

} // verus!
