use vstd::prelude::*;

verus! {

/// Linearised position of sample `(x, y, z)` in a grid `width` samples wide
/// and `height` samples high: `x + y·width + z·width·height`.
pub open spec fn linear_index(x: int, y: int, z: int, width: int, height: int) -> int {
    x + y * width + z * width * height
}

/// Computes the linear index of sample `(x, y, z)`.
pub fn index(x: usize, y: usize, z: usize, width: usize, height: usize) -> (r: usize)
    requires
        linear_index(x as int, y as int, z as int, width as int, height as int) <= usize::MAX,
    ensures
        r == linear_index(x as int, y as int, z as int, width as int, height as int),
{
    proof {
        assert(0 <= y * width) by (nonlinear_arith);
        assert(0 <= z * width * height) by (nonlinear_arith);
        assert(z >= 1 ==> width * height <= z * width * height) by (nonlinear_arith);
        assert(z * width * height == z * (width * height)) by (nonlinear_arith);
    }
    // the plane size is only formed where it is bounded by the total
    let plane: usize = if z == 0 { 0 } else { width * height };
    x + y * width + z * plane
}


/// Mathematical model of a sign grid: which samples lie inside the surface
/// (density at or below zero), and the grid's extent along each axis.
pub struct GridModel {
    pub inside: Seq<bool>,
    pub width: nat,
    pub height: nat,
    pub depth: nat,
}

impl GridModel {
    pub open spec fn sample_count(self) -> int {
        (self.width * self.height * self.depth) as int
    }

    /// One sign per sample, and every extent and linear index fits in `usize`.
    pub open spec fn wf(self) -> bool {
        &&& self.inside.len() == self.sample_count()
        &&& self.sample_count() <= usize::MAX
        &&& self.width <= usize::MAX
        &&& self.height <= usize::MAX
        &&& self.depth <= usize::MAX
    }

    pub open spec fn contains(self, x: int, y: int, z: int) -> bool {
        &&& 0 <= x < self.width
        &&& 0 <= y < self.height
        &&& 0 <= z < self.depth
    }

    pub open spec fn sample_index(self, x: int, y: int, z: int) -> int {
        linear_index(x, y, z, self.width as int, self.height as int)
    }

    pub open spec fn inside_at(self, x: int, y: int, z: int) -> bool {
        self.inside[self.sample_index(x, y, z)]
    }
}

/// Every sample of the grid has a linear index below the sample count.
pub proof fn lemma_sample_index_bounds(m: GridModel, x: int, y: int, z: int)
    requires
        m.contains(x, y, z),
    ensures
        0 <= m.sample_index(x, y, z) < m.sample_count(),
{
    let w = m.width as int;
    let h = m.height as int;
    let d = m.depth as int;
    assert(0 <= x + y * w + z * w * h <= (w - 1) + (h - 1) * w + (d - 1) * w * h)
        by (nonlinear_arith)
        requires
            0 <= x < w,
            0 <= y < h,
            0 <= z < d,
    ;
    assert((w - 1) + (h - 1) * w + (d - 1) * w * h == w * h * d - 1) by (nonlinear_arith);
}

/// Why a grid could not be formed from the arrays handed in.
#[derive(Debug, Clone, Copy, PartialEq, Eq)]
pub enum GridError {
    /// `width · height · depth` does not fit in `usize`.
    SizeOverflow,
    /// The density array does not hold one value per sample.
    DensityLength { expected: usize, found: usize },
    /// The normal array does not hold one vector per sample.
    NormalLength { expected: usize, found: usize },
}

/// The signs of a dense scalar field: for each sample, whether it lies
/// inside the surface. Samples are stored in linear-index order.
pub struct SignGrid {
    inside: Vec<bool>,
    width: usize,
    height: usize,
    depth: usize,
}

impl View for SignGrid {
    type V = GridModel;

    closed spec fn view(&self) -> GridModel {
        GridModel {
            inside: self.inside@,
            width: self.width as nat,
            height: self.height as nat,
            depth: self.depth as nat,
        }
    }
}

/// Number of samples in a `width × height × depth` grid, or `None` when it
/// does not fit in `usize`.
fn sample_count(width: usize, height: usize, depth: usize) -> (r: Option<usize>)
    ensures
        r is Some <==> width * height * depth <= usize::MAX,
        r is Some ==> r->0 == width * height * depth,
{
    if width == 0 || height == 0 || depth == 0 {
        proof {
            assert(width * height * depth == 0) by (nonlinear_arith)
                requires
                    width == 0 || height == 0 || depth == 0,
            ;
        }
        return Some(0);
    }
    proof {
        assert(width * height <= width * height * depth) by (nonlinear_arith)
            requires
                depth >= 1,
        ;
    }
    match width.checked_mul(height) {
        Some(plane) => plane.checked_mul(depth),
        None => None,
    }
}

impl SignGrid {
    pub open spec fn wf(&self) -> bool {
        self@.wf()
    }

    /// Forms a grid from one sign per sample, after checking that the sign
    /// array and the normal array (of `normal_count` vectors) each hold one
    /// entry per sample.
    pub fn new(inside: Vec<bool>, normal_count: usize, width: usize, height: usize, depth: usize)
        -> (r: Result<SignGrid, GridError>)
        ensures
            width * height * depth > usize::MAX ==> r == Err::<SignGrid, GridError>(
                GridError::SizeOverflow,
            ),
            width * height * depth <= usize::MAX && inside@.len() != width * height * depth
                ==> r == Err::<SignGrid, GridError>(
                GridError::DensityLength {
                    expected: (width * height * depth) as usize,
                    found: inside@.len() as usize,
                },
            ),
            width * height * depth <= usize::MAX && inside@.len() == width * height * depth
                && normal_count != width * height * depth ==> r == Err::<SignGrid, GridError>(
                GridError::NormalLength {
                    expected: (width * height * depth) as usize,
                    found: normal_count,
                },
            ),
            r is Ok <==> (width * height * depth <= usize::MAX && inside@.len() == width * height
                * depth && normal_count == width * height * depth),
            r matches Ok(g) ==> g.wf() && g@ == (GridModel {
                inside: inside@,
                width: width as nat,
                height: height as nat,
                depth: depth as nat,
            }),
    {
        match sample_count(width, height, depth) {
            None => Err(GridError::SizeOverflow),
            Some(n) => {
                if inside.len() != n {
                    Err(GridError::DensityLength { expected: n, found: inside.len() })
                } else if normal_count != n {
                    Err(GridError::NormalLength { expected: n, found: normal_count })
                } else {
                    Ok(SignGrid { inside, width, height, depth })
                }
            },
        }
    }

    pub fn width(&self) -> (r: usize)
        ensures
            r == self@.width,
    {
        self.width
    }

    pub fn height(&self) -> (r: usize)
        ensures
            r == self@.height,
    {
        self.height
    }

    pub fn depth(&self) -> (r: usize)
        ensures
            r == self@.depth,
    {
        self.depth
    }

    /// Linear index of sample `(x, y, z)`.
    pub fn sample_index(&self, x: usize, y: usize, z: usize) -> (r: usize)
        requires
            self.wf(),
            self@.contains(x as int, y as int, z as int),
        ensures
            r == self@.sample_index(x as int, y as int, z as int),
            r < self@.sample_count(),
    {
        proof {
            lemma_sample_index_bounds(self@, x as int, y as int, z as int);
        }
        index(x, y, z, self.width, self.height)
    }

    /// Whether sample `(x, y, z)` lies inside the surface.
    pub fn is_inside(&self, x: usize, y: usize, z: usize) -> (r: bool)
        requires
            self.wf(),
            self@.contains(x as int, y as int, z as int),
        ensures
            r == self@.inside_at(x as int, y as int, z as int),
    {
        let i = self.sample_index(x, y, z);
        self.inside[i]
    }
}

} // verus!
