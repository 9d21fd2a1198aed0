use vstd::prelude::*;
use vstd::arithmetic::div_mod::lemma_fundamental_div_mod_converse;
use vstd::arithmetic::mul::{lemma_mul_inequality, lemma_mul_is_distributive_add_other_way};

verus! {

/// The two endpoints of a spring, first endpoint first.
pub type Link = (int, int);

/// The particle at row `i`, column `j` of a grid with `resolution` particles
/// per side.
pub open spec fn grid_index(resolution: int, i: int, j: int) -> int {
    i * resolution + j
}

/// The structural springs that start at cell `(i, j)`: one to the next row,
/// then one to the next column, each only where that neighbour exists.
pub open spec fn structural_links(resolution: int, i: int, j: int) -> Seq<Link> {
    let index = grid_index(resolution, i, j);
    let along_i = if i + 1 < resolution {
        seq![(index, grid_index(resolution, i + 1, j))]
    } else {
        Seq::<Link>::empty()
    };
    let along_j = if j + 1 < resolution {
        seq![(index, grid_index(resolution, i, j + 1))]
    } else {
        Seq::<Link>::empty()
    };
    along_i + along_j
}

/// The shear springs that start at cell `(i, j)`: the two diagonals into the
/// next row, each only where that neighbour exists.
pub open spec fn shear_links(resolution: int, i: int, j: int) -> Seq<Link> {
    let index = grid_index(resolution, i, j);
    let forward = if i + 1 < resolution && j + 1 < resolution {
        seq![(index, grid_index(resolution, i + 1, j + 1))]
    } else {
        Seq::<Link>::empty()
    };
    let backward = if i + 1 < resolution && j > 0 {
        seq![(index, grid_index(resolution, i + 1, j - 1))]
    } else {
        Seq::<Link>::empty()
    };
    forward + backward
}

/// The structural springs of the first `cells` cells, cells taken in the
/// order of their particle index.
pub open spec fn structural_prefix(resolution: int, cells: int) -> Seq<Link>
    decreases cells,
{
    if cells <= 0 || resolution <= 0 {
        Seq::<Link>::empty()
    } else {
        structural_prefix(resolution, cells - 1) + structural_links(
            resolution,
            (cells - 1) / resolution,
            (cells - 1) % resolution,
        )
    }
}

/// The shear springs of the first `cells` cells, cells taken in the order of
/// their particle index.
pub open spec fn shear_prefix(resolution: int, cells: int) -> Seq<Link>
    decreases cells,
{
    if cells <= 0 || resolution <= 0 {
        Seq::<Link>::empty()
    } else {
        shear_prefix(resolution, cells - 1) + shear_links(
            resolution,
            (cells - 1) / resolution,
            (cells - 1) % resolution,
        )
    }
}

/// All structural springs of the grid.
pub open spec fn structural_part(resolution: int) -> Seq<Link> {
    structural_prefix(resolution, resolution * resolution)
}

/// All shear springs of the grid.
pub open spec fn shear_part(resolution: int) -> Seq<Link> {
    shear_prefix(resolution, resolution * resolution)
}

/// The spring network of the grid: every structural spring, then every shear
/// spring.
pub open spec fn grid_links(resolution: int) -> Seq<Link> {
    structural_part(resolution) + shear_part(resolution)
}

/// Row and column of a particle are recovered from its index.
pub proof fn lemma_grid_index_inverse(resolution: int, i: int, j: int)
    requires
        0 <= i,
        0 <= j < resolution,
    ensures
        grid_index(resolution, i, j) / resolution == i,
        grid_index(resolution, i, j) % resolution == j,
{
    lemma_fundamental_div_mod_converse(grid_index(resolution, i, j), resolution, i, j);
}

/// A particle of the grid has an index below the number of particles.
pub proof fn lemma_grid_index_bound(resolution: int, i: int, j: int)
    requires
        0 <= i < resolution,
        0 <= j < resolution,
    ensures
        0 <= grid_index(resolution, i, j) < resolution * resolution,
        grid_index(resolution, i, j) + resolution == grid_index(resolution, i + 1, j),
{
    assert(i * resolution >= 0) by (nonlinear_arith)
        requires
            i >= 0,
            resolution > 0,
    ;
    assert((i + 1) * resolution <= resolution * resolution) by (nonlinear_arith)
        requires
            i + 1 <= resolution,
            resolution > 0,
    ;
    assert((i + 1) * resolution == i * resolution + resolution) by (nonlinear_arith);
}

/// In a grid of `rows` rows of `columns` particles each, a particle has an
/// index below the number of particles, and the particle one row further
/// lies `columns` later.
pub proof fn lemma_plane_index_bound(rows: int, columns: int, i: int, j: int)
    requires
        0 <= i < rows,
        0 <= j < columns,
    ensures
        0 <= grid_index(columns, i, j) < rows * columns,
        grid_index(columns, i, j) + columns == grid_index(columns, i + 1, j),
{
    assert(i * columns >= 0) by (nonlinear_arith)
        requires
            i >= 0,
            columns > 0,
    ;
    assert((i + 1) * columns <= rows * columns) by (nonlinear_arith)
        requires
            i + 1 <= rows,
            columns > 0,
    ;
    assert((i + 1) * columns == i * columns + columns) by (nonlinear_arith);
}

/// Taking one more cell appends the springs of that cell.
pub proof fn lemma_structural_prefix_step(resolution: int, i: int, j: int)
    requires
        0 <= i,
        0 <= j < resolution,
    ensures
        structural_prefix(resolution, grid_index(resolution, i, j) + 1) == structural_prefix(
            resolution,
            grid_index(resolution, i, j),
        ) + structural_links(resolution, i, j),
{
    lemma_grid_index_inverse(resolution, i, j);
    assert(i * resolution >= 0) by (nonlinear_arith)
        requires
            i >= 0,
            resolution > 0,
    ;
}

/// Taking one more cell appends the springs of that cell.
pub proof fn lemma_shear_prefix_step(resolution: int, i: int, j: int)
    requires
        0 <= i,
        0 <= j < resolution,
    ensures
        shear_prefix(resolution, grid_index(resolution, i, j) + 1) == shear_prefix(
            resolution,
            grid_index(resolution, i, j),
        ) + shear_links(resolution, i, j),
{
    lemma_grid_index_inverse(resolution, i, j);
    assert(i * resolution >= 0) by (nonlinear_arith)
        requires
            i >= 0,
            resolution > 0,
    ;
}

/// The number of structural springs that start at the cells before cell
/// `(i, j)`.
pub open spec fn structural_count(resolution: int, i: int, j: int) -> int {
    if i + 1 < resolution {
        i * (2 * resolution - 1) + 2 * j
    } else {
        i * (2 * resolution - 1) + j
    }
}

/// The number of shear springs that start at the cells before cell `(i, j)`.
pub open spec fn shear_count(resolution: int, i: int, j: int) -> int {
    if i + 1 < resolution && j > 0 {
        i * (2 * (resolution - 1)) + 2 * j - 1
    } else {
        i * (2 * (resolution - 1))
    }
}

/// A cell starts one structural spring for each of its two neighbours that
/// exists.
pub proof fn lemma_structural_links_len(resolution: int, i: int, j: int)
    ensures
        structural_links(resolution, i, j).len() == (if i + 1 < resolution {
            1int
        } else {
            0int
        }) + (if j + 1 < resolution {
            1int
        } else {
            0int
        }),
{
}

/// A cell starts one shear spring for each of its two diagonal neighbours in
/// the next row that exists.
pub proof fn lemma_shear_links_len(resolution: int, i: int, j: int)
    ensures
        shear_links(resolution, i, j).len() == (if i + 1 < resolution && j + 1 < resolution {
            1int
        } else {
            0int
        }) + (if i + 1 < resolution && j > 0 {
            1int
        } else {
            0int
        }),
{
}

/// The structural springs before a cell are as many as the closed form says.
pub proof fn lemma_structural_count(resolution: int, i: int, j: int)
    requires
        0 <= i < resolution,
        0 <= j < resolution,
    ensures
        structural_prefix(resolution, grid_index(resolution, i, j)).len() == structural_count(
            resolution,
            i,
            j,
        ),
    decreases i, j,
{
    let n = resolution;
    if j > 0 {
        lemma_structural_count(n, i, j - 1);
        lemma_structural_prefix_step(n, i, j - 1);
        lemma_structural_links_len(n, i, j - 1);
        assert(grid_index(n, i, j - 1) + 1 == grid_index(n, i, j));
        assert(structural_prefix(n, grid_index(n, i, j)).len() == structural_count(n, i, j - 1)
            + structural_links(n, i, j - 1).len());
    } else if i > 0 {
        lemma_structural_count(n, i - 1, n - 1);
        lemma_structural_prefix_step(n, i - 1, n - 1);
        lemma_structural_links_len(n, i - 1, n - 1);
        assert(grid_index(n, i - 1, n - 1) + 1 == grid_index(n, i, 0)) by (nonlinear_arith);
        assert((i - 1) * (2 * n - 1) + 2 * (n - 1) + 1 == i * (2 * n - 1)) by (nonlinear_arith);
        assert(structural_prefix(n, grid_index(n, i, 0)).len() == structural_count(
            n,
            i - 1,
            n - 1,
        ) + structural_links(n, i - 1, n - 1).len());
    } else {
        assert(grid_index(n, 0, 0) == 0) by (nonlinear_arith);
        assert(structural_count(n, 0, 0) == 0) by (nonlinear_arith);
        assert(structural_prefix(n, 0).len() == 0);
    }
}

/// The shear springs before a cell are as many as the closed form says.
pub proof fn lemma_shear_count(resolution: int, i: int, j: int)
    requires
        0 <= i < resolution,
        0 <= j < resolution,
    ensures
        shear_prefix(resolution, grid_index(resolution, i, j)).len() == shear_count(
            resolution,
            i,
            j,
        ),
    decreases i, j,
{
    let n = resolution;
    if j > 0 {
        lemma_shear_count(n, i, j - 1);
        lemma_shear_prefix_step(n, i, j - 1);
        lemma_shear_links_len(n, i, j - 1);
        assert(grid_index(n, i, j - 1) + 1 == grid_index(n, i, j));
        assert(shear_prefix(n, grid_index(n, i, j)).len() == shear_count(n, i, j - 1)
            + shear_links(n, i, j - 1).len());
    } else if i > 0 {
        lemma_shear_count(n, i - 1, n - 1);
        lemma_shear_prefix_step(n, i - 1, n - 1);
        lemma_shear_links_len(n, i - 1, n - 1);
        assert(grid_index(n, i - 1, n - 1) + 1 == grid_index(n, i, 0)) by (nonlinear_arith);
        assert((i - 1) * (2 * (n - 1)) + 2 * (n - 1) == i * (2 * (n - 1))) by (nonlinear_arith);
        assert(shear_prefix(n, grid_index(n, i, 0)).len() == shear_count(n, i - 1, n - 1)
            + shear_links(n, i - 1, n - 1).len());
    } else {
        assert(grid_index(n, 0, 0) == 0) by (nonlinear_arith);
        assert(shear_count(n, 0, 0) == 0) by (nonlinear_arith);
        assert(shear_prefix(n, 0).len() == 0);
    }
}

/// A grid of `resolution` particles per side has `2R(R - 1)` structural
/// springs and `2(R - 1)²` shear springs.
pub proof fn lemma_grid_spring_count(resolution: int)
    requires
        resolution >= 1,
    ensures
        structural_part(resolution).len() == 2 * resolution * (resolution - 1),
        shear_part(resolution).len() == 2 * (resolution - 1) * (resolution - 1),
        grid_links(resolution).len() == 2 * resolution * (resolution - 1) + 2 * (resolution - 1)
            * (resolution - 1),
{
    let n = resolution;
    let last = n - 1;
    lemma_structural_count(n, last, last);
    lemma_shear_count(n, last, last);
    lemma_structural_prefix_step(n, last, last);
    lemma_shear_prefix_step(n, last, last);
    lemma_structural_links_len(n, last, last);
    lemma_shear_links_len(n, last, last);
    assert(grid_index(n, last, last) + 1 == n * n) by (nonlinear_arith)
        requires
            last == n - 1,
    ;
    assert(last * (2 * n - 1) + last == 2 * n * (n - 1)) by (nonlinear_arith)
        requires
            last == n - 1,
    ;
    assert(last * (2 * (n - 1)) == 2 * (n - 1) * (n - 1)) by (nonlinear_arith)
        requires
            last == n - 1,
    ;
}

} // verus!
