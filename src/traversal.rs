use vstd::prelude::*;

verus! {

/// What a visit of every cell in a box yields, when the visit of cell
/// `(x, y, z)` yields `f(x, y, z)`.
pub type CellYield<T> = spec_fn(int, int, int) -> Seq<T>;

/// What the cells `(0, y, z) .. (n - 1, y, z)` of one row yield, in order.
pub open spec fn row_concat<T>(f: CellYield<T>, y: int, z: int, n: int) -> Seq<T>
    decreases n,
{
    if n <= 0 {
        Seq::empty()
    } else {
        row_concat(f, y, z, n - 1) + f(n - 1, y, z)
    }
}

/// What the rows `0 .. m - 1` of layer `z`, each `nx` cells long, yield in order.
pub open spec fn slab_concat<T>(f: CellYield<T>, nx: int, z: int, m: int) -> Seq<T>
    decreases m,
{
    if m <= 0 {
        Seq::empty()
    } else {
        slab_concat(f, nx, z, m - 1) + row_concat(f, m - 1, z, nx)
    }
}

/// What the layers `lo .. hi - 1`, each `nx × ny` cells, yield in order:
/// `z` outermost, then `y`, then `x`.
pub open spec fn box_concat<T>(f: CellYield<T>, nx: int, ny: int, lo: int, hi: int) -> Seq<T>
    decreases hi - lo,
{
    if hi <= lo {
        Seq::empty()
    } else {
        box_concat(f, nx, ny, lo, hi - 1) + slab_concat(f, nx, hi - 1, ny)
    }
}

/// Visiting layers `lo .. mid` and then `mid .. hi` yields what visiting
/// `lo .. hi` does.
pub proof fn lemma_box_split<T>(f: CellYield<T>, nx: int, ny: int, lo: int, mid: int, hi: int)
    requires
        lo <= mid <= hi,
    ensures
        box_concat(f, nx, ny, lo, mid) + box_concat(f, nx, ny, mid, hi) == box_concat(
            f,
            nx,
            ny,
            lo,
            hi,
        ),
    decreases hi - mid,
{
    if hi == mid {
        assert(box_concat(f, nx, ny, lo, mid) + Seq::<T>::empty() =~= box_concat(f, nx, ny, lo, mid));
    } else {
        lemma_box_split(f, nx, ny, lo, mid, hi - 1);
        let a = box_concat(f, nx, ny, lo, mid);
        let b = box_concat(f, nx, ny, mid, hi - 1);
        let c = slab_concat(f, nx, hi - 1, ny);
        assert(a + (b + c) =~= (a + b) + c);
    }
}

/// Whether every element yielded by every cell of the box satisfies `p`.
pub open spec fn cells_all<T>(
    f: CellYield<T>,
    nx: int,
    ny: int,
    lo: int,
    hi: int,
    p: spec_fn(T) -> bool,
) -> bool {
    forall|x: int, y: int, z: int, i: int|
        0 <= x < nx && 0 <= y < ny && lo <= z < hi && 0 <= i < f(x, y, z).len() ==> p(
            #[trigger] f(x, y, z)[i],
        )
}

proof fn lemma_row_all<T>(f: CellYield<T>, y: int, z: int, n: int, p: spec_fn(T) -> bool)
    requires
        forall|x: int, i: int| 0 <= x < n && 0 <= i < f(x, y, z).len() ==> p(#[trigger] f(x, y, z)[i]),
    ensures
        forall|i: int| 0 <= i < row_concat(f, y, z, n).len() ==> p(#[trigger] row_concat(f, y, z, n)[i]),
    decreases n,
{
    if n > 0 {
        lemma_row_all(f, y, z, n - 1, p);
        let a = row_concat(f, y, z, n - 1);
        let b = f(n - 1, y, z);
        assert forall|i: int| 0 <= i < (a + b).len() implies p(#[trigger] (a + b)[i]) by {
            if i >= a.len() {
                assert((a + b)[i] == b[i - a.len()]);
            }
        }
    }
}

proof fn lemma_slab_all<T>(f: CellYield<T>, nx: int, z: int, m: int, p: spec_fn(T) -> bool)
    requires
        forall|x: int, y: int, i: int|
            0 <= x < nx && 0 <= y < m && 0 <= i < f(x, y, z).len() ==> p(#[trigger] f(x, y, z)[i]),
    ensures
        forall|i: int|
            0 <= i < slab_concat(f, nx, z, m).len() ==> p(#[trigger] slab_concat(f, nx, z, m)[i]),
    decreases m,
{
    if m > 0 {
        lemma_slab_all(f, nx, z, m - 1, p);
        lemma_row_all(f, m - 1, z, nx, p);
        let a = slab_concat(f, nx, z, m - 1);
        let b = row_concat(f, m - 1, z, nx);
        assert forall|i: int| 0 <= i < (a + b).len() implies p(#[trigger] (a + b)[i]) by {
            if i >= a.len() {
                assert((a + b)[i] == b[i - a.len()]);
            }
        }
    }
}

/// When every element that each cell of the box yields satisfies `p`, so does
/// every element of the whole visit.
pub proof fn lemma_box_all<T>(
    f: CellYield<T>,
    nx: int,
    ny: int,
    lo: int,
    hi: int,
    p: spec_fn(T) -> bool,
)
    requires
        cells_all(f, nx, ny, lo, hi, p),
    ensures
        forall|i: int|
            0 <= i < box_concat(f, nx, ny, lo, hi).len() ==> p(
                #[trigger] box_concat(f, nx, ny, lo, hi)[i],
            ),
    decreases hi - lo,
{
    if hi > lo {
        lemma_box_all(f, nx, ny, lo, hi - 1, p);
        lemma_slab_all(f, nx, hi - 1, ny, p);
        let a = box_concat(f, nx, ny, lo, hi - 1);
        let b = slab_concat(f, nx, hi - 1, ny);
        assert forall|i: int| 0 <= i < (a + b).len() implies p(#[trigger] (a + b)[i]) by {
            if i >= a.len() {
                assert((a + b)[i] == b[i - a.len()]);
            }
        }
    }
}

/// When no cell of the box yields anything, the whole visit yields nothing.
pub proof fn lemma_box_empty<T>(f: CellYield<T>, nx: int, ny: int, lo: int, hi: int)
    requires
        forall|x: int, y: int, z: int|
            0 <= x < nx && 0 <= y < ny && lo <= z < hi ==> #[trigger] f(x, y, z).len() == 0,
    ensures
        box_concat(f, nx, ny, lo, hi) == Seq::<T>::empty(),
{
    let p = |t: T| false;
    lemma_box_all(f, nx, ny, lo, hi, p);
    assert(box_concat(f, nx, ny, lo, hi).len() == 0 ==> box_concat(f, nx, ny, lo, hi) =~= Seq::<
        T,
    >::empty());
    if box_concat(f, nx, ny, lo, hi).len() > 0 {
        assert(p(box_concat(f, nx, ny, lo, hi)[0]));
    }
}

/// What consecutive layer ranges, cut at `cuts`, yield when visited one
/// after another.
pub open spec fn parts_concat<T>(f: CellYield<T>, nx: int, ny: int, cuts: Seq<int>) -> Seq<T>
    decreases cuts.len(),
{
    if cuts.len() < 2 {
        Seq::empty()
    } else {
        parts_concat(f, nx, ny, cuts.drop_last()) + box_concat(
            f,
            nx,
            ny,
            cuts[cuts.len() - 2],
            cuts.last(),
        )
    }
}

proof fn lemma_cuts_ascend(cuts: Seq<int>, i: int, j: int)
    requires
        0 <= i <= j < cuts.len(),
        forall|k: int| 0 < k < cuts.len() ==> cuts[k - 1] <= #[trigger] cuts[k],
    ensures
        cuts[i] <= cuts[j],
    decreases j - i,
{
    if i < j {
        lemma_cuts_ascend(cuts, i, j - 1);
        assert(cuts[j - 1] <= cuts[j]);
    }
}

/// Visiting the parts between ascending cuts in order yields what visiting
/// from the first cut to the last does.
pub proof fn lemma_parts_concat<T>(f: CellYield<T>, nx: int, ny: int, cuts: Seq<int>)
    requires
        cuts.len() >= 2,
        forall|i: int| 0 < i < cuts.len() ==> cuts[i - 1] <= #[trigger] cuts[i],
    ensures
        parts_concat(f, nx, ny, cuts) == box_concat(f, nx, ny, cuts[0], cuts.last()),
    decreases cuts.len(),
{
    let n = cuts.len();
    let prefix = cuts.drop_last();
    if n == 2 {
        assert(parts_concat(f, nx, ny, prefix) == Seq::<T>::empty());
        assert(Seq::<T>::empty() + box_concat(f, nx, ny, cuts[0], cuts[1]) =~= box_concat(
            f,
            nx,
            ny,
            cuts[0],
            cuts[1],
        ));
    } else {
        assert forall|i: int| 0 < i < prefix.len() implies prefix[i - 1] <= #[trigger] prefix[i] by {
            assert(cuts[i - 1] <= cuts[i]);
        }
        lemma_parts_concat(f, nx, ny, prefix);
        lemma_cuts_ascend(cuts, 0, n - 2);
        lemma_box_split(f, nx, ny, cuts[0], cuts[n - 2], cuts[n - 1]);
    }
}

} // verus!
