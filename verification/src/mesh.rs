use std::collections::HashSet;
use vstd::prelude::*;
use crate::cloth::SimulationError;
use crate::grid::{grid_index, lemma_grid_index_inverse, lemma_plane_index_bound};
use crate::math::Vector3;

verus! {

broadcast use vstd::std_specs::hash::group_hash_axioms;

/// An undirected edge between two vertices, stored with the smaller index
/// first so that `(i, j)` and `(j, i)` are the same edge.
#[derive(Hash, Eq, PartialEq, Structural, Copy, Clone, Debug)]
pub struct Edge(usize, usize);

impl Edge {
    /// The edge between `i0` and `i1` as a mathematical value.
    pub closed spec fn between(i0: usize, i1: usize) -> Edge {
        if i0 < i1 {
            Edge(i0, i1)
        } else {
            Edge(i1, i0)
        }
    }

    pub closed spec fn low(&self) -> usize {
        self.0
    }

    pub closed spec fn high(&self) -> usize {
        self.1
    }

    #[verifier::type_invariant]
    spec fn ordered(&self) -> bool {
        self.0 <= self.1
    }

    pub fn new(i0: usize, i1: usize) -> (e: Self)
        ensures
            e == Self::between(i0, i1),
            e == Self::between(i1, i0),
            e.low() == if i0 < i1 { i0 } else { i1 },
            e.high() == if i0 < i1 { i1 } else { i0 },
    {
        if i0 < i1 {
            Self(i0, i1)
        } else {
            Self(i1, i0)
        }
    }

    #[verifier::when_used_as_spec(low)]
    pub fn v0(&self) -> (v: usize)
        ensures
            v == self.low(),
            v <= self.high(),
    {
        proof {
            use_type_invariant(self);
        }
        self.0
    }

    #[verifier::when_used_as_spec(high)]
    pub fn v1(&self) -> (v: usize)
        ensures
            v == self.high(),
            self.low() <= v,
    {
        proof {
            use_type_invariant(self);
        }
        self.1
    }

    /// An edge does not depend on the order in which its endpoints are given.
    pub proof fn lemma_between_symmetric(i0: usize, i1: usize)
        ensures
            Self::between(i0, i1) == Self::between(i1, i0),
    {
    }

    /// The endpoints of the edge between two vertices are those two
    /// vertices, smaller first.
    pub proof fn lemma_between_endpoints(i0: usize, i1: usize)
        ensures
            Self::between(i0, i1).low() == if i0 < i1 { i0 } else { i1 },
            Self::between(i0, i1).high() == if i0 < i1 { i1 } else { i0 },
    {
    }

    /// Two edges with the same endpoints are the same edge.
    pub proof fn lemma_equal_by_endpoints(a: Edge, b: Edge)
        requires
            a.low() == b.low(),
            a.high() == b.high(),
        ensures
            a == b,
    {
    }
}

/// Both endpoints fit in 32 bits.
spec fn small(e: Edge) -> bool {
    e.0 <= u32::MAX && e.1 <= u32::MAX
}

/// The number under which an edge is looked up in the set of edges seen.
spec fn edge_key(e: Edge) -> u64 {
    (e.0 * 0x1_0000_0000 + e.1) as u64
}

proof fn lemma_key_injective(a: Edge, b: Edge)
    requires
        small(a),
        small(b),
    ensures
        edge_key(a) == edge_key(b) <==> a == b,
{
}

fn key_of(e: &Edge) -> (key: u64)
    requires
        small(*e),
    ensures
        key == edge_key(*e),
{
    (e.0 as u64) * 0x1_0000_0000u64 + (e.1 as u64)
}

/// The three edges of every triangle, triangle after triangle: first to
/// second corner, second to third, third to first. Indices that do not fill
/// a triangle at the end are left out.
pub open spec fn triangle_edges(indices: Seq<u32>) -> Seq<Edge> {
    Seq::new(
        (3 * (indices.len() / 3)) as nat,
        |k: int|
            Edge::between(
                indices[3 * (k / 3) + k % 3] as usize,
                indices[3 * (k / 3) + (k % 3 + 1) % 3] as usize,
            ),
    )
}

/// The elements of `s` in the order of their first occurrence, each once.
pub open spec fn first_occurrences<T>(s: Seq<T>) -> Seq<T>
    decreases s.len(),
{
    if s.len() == 0 {
        Seq::<T>::empty()
    } else {
        let init = first_occurrences(s.drop_last());
        if s.drop_last().contains(s.last()) {
            init
        } else {
            init.push(s.last())
        }
    }
}

/// After a push a sequence holds what it held before and the new element.
pub proof fn lemma_push_contains<T>(s: Seq<T>, v: T, x: T)
    ensures
        s.push(v).contains(x) <==> (s.contains(x) || x == v),
{
    if s.contains(x) {
        let i = choose|i: int| 0 <= i < s.len() && s[i] == x;
        assert(s.push(v)[i] == x);
    }
    if x == v {
        assert(s.push(v)[s.len() as int] == x);
    }
    if s.push(v).contains(x) {
        let i = choose|i: int| 0 <= i < s.push(v).len() && s.push(v)[i] == x;
        if i < s.len() {
            assert(s[i] == x);
        }
    }
}

/// Keeping first occurrences loses no element and adds none.
pub proof fn lemma_first_occurrences_contains<T>(s: Seq<T>, x: T)
    ensures
        first_occurrences(s).contains(x) <==> s.contains(x),
    decreases s.len(),
{
    if s.len() > 0 {
        let init = s.drop_last();
        assert(s == init.push(s.last()));
        lemma_first_occurrences_contains(init, x);
        lemma_push_contains(init, s.last(), x);
        lemma_push_contains(first_occurrences(init), s.last(), x);
    }
}

/// Keeping first occurrences leaves no element twice.
pub proof fn lemma_first_occurrences_unique<T>(s: Seq<T>)
    ensures
        first_occurrences(s).no_duplicates(),
    decreases s.len(),
{
    if s.len() > 0 {
        let init = s.drop_last();
        lemma_first_occurrences_unique(init);
        lemma_first_occurrences_contains(init, s.last());
    }
}

/// The three corners of triangle `t` are three different vertices.
pub open spec fn corners_distinct(indices: Seq<u32>, t: int) -> bool {
    &&& indices[3 * t] != indices[3 * t + 1]
    &&& indices[3 * t + 1] != indices[3 * t + 2]
    &&& indices[3 * t + 2] != indices[3 * t]
}

/// `indices` lists whole triangles over `vertex_count` vertices, none of
/// them degenerate.
pub open spec fn triangles_valid(indices: Seq<u32>, vertex_count: nat) -> bool {
    &&& indices.len() % 3 == 0
    &&& forall|k: int| 0 <= k < indices.len() ==> (#[trigger] indices[k]) < vertex_count
    &&& forall|t: int| 0 <= t < indices.len() / 3 ==> #[trigger] corners_distinct(indices, t)
}

/// Every edge of a valid triangle list joins two different vertices of the
/// mesh.
pub proof fn lemma_triangle_edges_valid(indices: Seq<u32>, vertex_count: nat, k: int)
    requires
        triangles_valid(indices, vertex_count),
        0 <= k < triangle_edges(indices).len(),
    ensures
        triangle_edges(indices)[k].low() < triangle_edges(indices)[k].high() < vertex_count,
{
    let t = k / 3;
    assert(corners_distinct(indices, t));
    let a = indices[3 * t + k % 3];
    let b = indices[3 * t + (k % 3 + 1) % 3];
    assert(a < vertex_count && b < vertex_count);
    assert(a != b);
}

/// A triangle mesh: vertex positions and three vertex indices per triangle.
pub struct Mesh<R> {
    vertices: Vec<Vector3<R>>,
    indices: Vec<u32>,
}

impl<R> Mesh<R> {
    pub closed spec fn vertex_seq(&self) -> Seq<Vector3<R>> {
        self.vertices@
    }

    pub closed spec fn index_seq(&self) -> Seq<u32> {
        self.indices@
    }

    #[verifier::type_invariant]
    pub closed spec fn valid(&self) -> bool {
        triangles_valid(self.indices@, self.vertices@.len())
    }
}

impl<R: Copy> Mesh<R> {
    /// A mesh over the given vertices. The input is turned down exactly when
    /// `indices` does not list whole, non-degenerate triangles over them.
    pub fn new(vertices: Vec<Vector3<R>>, indices: Vec<u32>) -> (result: Result<
        Self,
        SimulationError,
    >)
        ensures
            triangles_valid(indices@, vertices@.len()) ==> (result matches Ok(mesh)
                && mesh.vertex_seq() == vertices@ && mesh.index_seq() == indices@),
            !triangles_valid(indices@, vertices@.len()) ==> result == Err::<Self, SimulationError>(
                SimulationError::InvalidInput,
            ),
    {
        if indices.len() % 3 != 0 {
            return Err(SimulationError::InvalidInput);
        }
        let count: usize = vertices.len();
        let triangles: usize = indices.len() / 3;
        let mut t: usize = 0;
        while t < triangles
            invariant
                t <= triangles,
                triangles == indices@.len() / 3,
                indices@.len() % 3 == 0,
                indices@.len() <= usize::MAX,
                count == vertices@.len(),
                forall|k: int| 0 <= k < 3 * t ==> (#[trigger] indices@[k]) < count,
                forall|u: int| 0 <= u < t ==> #[trigger] corners_distinct(indices@, u),
            decreases triangles - t,
        {
            let i0: u32 = indices[3 * t];
            let i1: u32 = indices[3 * t + 1];
            let i2: u32 = indices[3 * t + 2];
            if i0 as usize >= count || i1 as usize >= count || i2 as usize >= count {
                return Err(SimulationError::InvalidInput);
            }
            if i0 == i1 || i1 == i2 || i2 == i0 {
                assert(!corners_distinct(indices@, t as int));
                return Err(SimulationError::InvalidInput);
            }
            assert forall|k: int| 0 <= k < 3 * (t + 1) implies (#[trigger] indices@[k]) < count by {
                if k >= 3 * t {
                    assert(k == 3 * t || k == 3 * t + 1 || k == 3 * t + 2);
                }
            }
            t = t + 1;
        }
        Ok(Mesh { vertices, indices })
    }

    pub fn vertices(&self) -> (v: &[Vector3<R>])
        ensures
            v@ == self.vertex_seq(),
            triangles_valid(self.index_seq(), v@.len()),
    {
        proof {
            use_type_invariant(self);
        }
        self.vertices.as_slice()
    }

    pub fn indices(&self) -> (v: &[u32])
        ensures
            v@ == self.index_seq(),
            triangles_valid(v@, self.vertex_seq().len()),
    {
        proof {
            use_type_invariant(self);
        }
        self.indices.as_slice()
    }

    /// The edges of the mesh without duplicates, in the order in which the
    /// triangles first mention them.
    pub fn compute_edges(&self) -> (edges: Vec<Edge>)
        ensures
            edges@ == first_occurrences(triangle_edges(self.index_seq())),
            edges@.no_duplicates(),
            forall|k: int|
                0 <= k < edges@.len() ==> (#[trigger] edges@[k]).low() < edges@[k].high()
                    < self.vertex_seq().len(),
    {
        let edges = unique_edges(self.indices.as_slice());
        proof {
            use_type_invariant(self);
            let all = triangle_edges(self.indices@);
            lemma_first_occurrences_unique(all);
            assert forall|k: int| 0 <= k < edges@.len() implies (#[trigger] edges@[k]).low()
                < edges@[k].high() < self.vertices@.len() by {
                assert(edges@.contains(edges@[k]));
                lemma_first_occurrences_contains(all, edges@[k]);
                let m = choose|m: int| 0 <= m < all.len() && all[m] == edges@[k];
                lemma_triangle_edges_valid(self.indices@, self.vertices@.len(), m);
            }
        }
        edges
    }
}

/// The edges of the triangles that `indices` lists, without duplicates, in
/// the order in which the triangles first mention them.
pub fn unique_edges(indices: &[u32]) -> (edges: Vec<Edge>)
    ensures
        edges@ == first_occurrences(triangle_edges(indices@)),
{
    let mut edge_set: HashSet<u64> = HashSet::new();
    let mut edge_vec: Vec<Edge> = Vec::new();
    let triangles: usize = indices.len() / 3;
    let ghost all = triangle_edges(indices@);
    let mut t: usize = 0;
    while t < triangles
        invariant
            t <= triangles,
            triangles == indices@.len() / 3,
            indices@.len() <= usize::MAX,
            all == triangle_edges(indices@),
            edge_vec@ == first_occurrences(all.take(3 * t)),
            forall|e: Edge|
                small(e) ==> (edge_set@.contains(#[trigger] edge_key(e)) <==> all.take(
                    3 * t,
                ).contains(e)),
        decreases triangles - t,
    {
        let i0: usize = indices[t * 3] as usize;
        let i1: usize = indices[t * 3 + 1] as usize;
        let i2: usize = indices[t * 3 + 2] as usize;
        let e0 = Edge::new(i0, i1);
        let e1 = Edge::new(i1, i2);
        let e2 = Edge::new(i2, i0);
        proof {
            assert(all[3 * t] == e0);
            assert(all[3 * t + 1] == e1);
            assert(all[3 * t + 2] == e2);
            assert(all.take(3 * t).push(e0) == all.take(3 * t + 1));
            assert(all.take(3 * t + 1).push(e1) == all.take(3 * t + 2));
            assert(all.take(3 * t + 2).push(e2) == all.take(3 * (t + 1)));
        }
        visit(&mut edge_set, &mut edge_vec, e0, Ghost(all.take(3 * t)));
        visit(&mut edge_set, &mut edge_vec, e1, Ghost(all.take(3 * t + 1)));
        visit(&mut edge_set, &mut edge_vec, e2, Ghost(all.take(3 * t + 2)));
        t = t + 1;
    }
    assert(all.take(3 * triangles) == all);
    edge_vec
}

/// Records `edge` unless it was seen before.
fn visit(
    edge_set: &mut HashSet<u64>,
    edge_vec: &mut Vec<Edge>,
    edge: Edge,
    Ghost(seen): Ghost<Seq<Edge>>,
)
    requires
        small(edge),
        old(edge_vec)@ == first_occurrences(seen),
        forall|e: Edge|
            small(e) ==> (old(edge_set)@.contains(#[trigger] edge_key(e)) <==> seen.contains(e)),
    ensures
        final(edge_vec)@ == first_occurrences(seen.push(edge)),
        forall|e: Edge|
            small(e) ==> (final(edge_set)@.contains(#[trigger] edge_key(e)) <==> seen.push(
                edge,
            ).contains(e)),
{
    let key: u64 = key_of(&edge);
    if !edge_set.contains(&key) {
        edge_set.insert(key);
        edge_vec.push(edge);
    }
    proof {
        assert(seen.push(edge).drop_last() == seen);
        assert forall|e: Edge| small(e) implies (edge_set@.contains(#[trigger] edge_key(e))
            <==> seen.push(edge).contains(e)) by {
            lemma_push_contains(seen, edge, e);
            lemma_key_injective(e, edge);
        }
    }
}

/// Corner `t` of the six triangle corners that cell `(i, j)` of a grid plane
/// contributes. With `i0` the vertex of the cell, `i1` the next in the row,
/// `i2` the one below `i0` in the next row and `i3` the next after `i2`, the
/// two triangles are `(i0, i2, i1)` and `(i1, i2, i3)`.
pub open spec fn cell_corner(height_segments: int, i: int, j: int, t: int) -> int {
    let i0 = grid_index(height_segments + 1, i, j);
    let i1 = i0 + 1;
    let i2 = i0 + height_segments + 1;
    let i3 = i2 + 1;
    if t == 0 {
        i0
    } else if t == 1 || t == 4 {
        i2
    } else if t == 2 || t == 3 {
        i1
    } else {
        i3
    }
}

/// The index buffer of a grid plane: six corners per cell, the cells taken
/// row by row.
pub open spec fn plane_indices(width_segments: int, height_segments: int) -> Seq<int> {
    Seq::new(
        (6 * (width_segments * height_segments)) as nat,
        |k: int|
            cell_corner(
                height_segments,
                (k / 6) / height_segments,
                (k / 6) % height_segments,
                k % 6,
            ),
    )
}

/// Builds a plane of `width_segments` by `height_segments` cells, two
/// triangles per cell. The vertex at row `i`, column `j` has index
/// `i * (height_segments + 1) + j`.
pub struct GridPlaneBuilder {
    pub width_segments: usize,
    pub height_segments: usize,
}

impl GridPlaneBuilder {
    pub fn new(width_segments: usize, height_segments: usize) -> (builder: Self)
        ensures
            builder.width_segments == width_segments,
            builder.height_segments == height_segments,
    {
        Self { width_segments, height_segments }
    }

    /// The number of vertices of the plane.
    pub open spec fn vertex_count(&self) -> int {
        (self.width_segments + 1) * (self.height_segments + 1)
    }

    /// Lays out the vertices and triangulates the cells. `vertex(i, j)`
    /// gives the position of the vertex at row `i`, column `j`. The vertex
    /// indices must fit the 32-bit index buffer.
    pub fn build<R: Copy, F: Fn(usize, usize) -> Vector3<R>>(self, vertex: F) -> (mesh: Mesh<R>)
        requires
            self.vertex_count() <= u32::MAX,
            forall|i: usize, j: usize|
                i <= self.width_segments && j <= self.height_segments ==> call_requires(
                    vertex,
                    (i, j),
                ),
        ensures
            mesh.vertex_seq().len() == self.vertex_count(),
            forall|m: int|
                0 <= m < self.vertex_count() ==> call_ensures(
                    vertex,
                    (
                        (m / (self.height_segments + 1)) as usize,
                        (m % (self.height_segments + 1)) as usize,
                    ),
                    #[trigger] mesh.vertex_seq()[m],
                ),
            mesh.index_seq().map_values(|x: u32| x as int) == plane_indices(
                self.width_segments as int,
                self.height_segments as int,
            ),
    {
        let ws: usize = self.width_segments;
        let hs: usize = self.height_segments;
        assert(ws + 1 <= (ws + 1) * (hs + 1) && hs + 1 <= (ws + 1) * (hs + 1)) by (nonlinear_arith);
        let rows: usize = ws + 1;
        let columns: usize = hs + 1;
        let ghost count = self.vertex_count();
        let mut vertices: Vec<Vector3<R>> = Vec::new();
        let mut i: usize = 0;
        while i < rows
            invariant
                i <= rows,
                rows == ws + 1,
                columns == hs + 1,
                count == rows * columns,
                count <= u32::MAX,
                vertices@.len() == grid_index(columns as int, i as int, 0),
                forall|m: int|
                    0 <= m < vertices@.len() ==> call_ensures(
                        vertex,
                        ((m / columns as int) as usize, (m % columns as int) as usize),
                        #[trigger] vertices@[m],
                    ),
                forall|i: usize, j: usize| i <= ws && j <= hs ==> call_requires(vertex, (i, j)),
            decreases rows - i,
        {
            let mut j: usize = 0;
            while j < columns
                invariant
                    i < rows,
                    j <= columns,
                    rows == ws + 1,
                    columns == hs + 1,
                    count == rows * columns,
                    count <= u32::MAX,
                    vertices@.len() == grid_index(columns as int, i as int, j as int),
                    forall|m: int|
                        0 <= m < vertices@.len() ==> call_ensures(
                            vertex,
                            ((m / columns as int) as usize, (m % columns as int) as usize),
                            #[trigger] vertices@[m],
                        ),
                    forall|i: usize, j: usize|
                        i <= ws && j <= hs ==> call_requires(vertex, (i, j)),
                decreases columns - j,
            {
                proof {
                    lemma_plane_index_bound(rows as int, columns as int, i as int, j as int);
                    lemma_grid_index_inverse(columns as int, i as int, j as int);
                }
                vertices.push(vertex(i, j));
                j = j + 1;
            }
            proof {
                assert(grid_index(columns as int, i as int, columns as int) == grid_index(
                    columns as int,
                    i as int + 1,
                    0,
                )) by (nonlinear_arith);
            }
            i = i + 1;
        }
        assert(vertices@.len() == count) by (nonlinear_arith)
            requires
                vertices@.len() == i * columns + 0,
                i == rows,
                count == rows * columns,
        ;

        let mut indices: Vec<u32> = Vec::new();
        let mut i: usize = 0;
        while i < ws
            invariant
                i <= ws,
                rows == ws + 1,
                columns == hs + 1,
                count == rows * columns,
                count <= u32::MAX,
                indices@.len() == 6 * grid_index(hs as int, i as int, 0),
                forall|k: int|
                    0 <= k < indices@.len() ==> {
                        &&& (#[trigger] indices@[k]) < count
                        &&& indices@[k] == cell_corner(
                            hs as int,
                            (k / 6) / hs as int,
                            (k / 6) % hs as int,
                            k % 6,
                        )
                    },
                forall|t: int|
                    0 <= t < indices@.len() / 3 ==> #[trigger] corners_distinct(indices@, t),
            decreases ws - i,
        {
            let mut j: usize = 0;
            while j < hs
                invariant
                    i < ws,
                    j <= hs,
                    rows == ws + 1,
                    columns == hs + 1,
                    count == rows * columns,
                    count <= u32::MAX,
                    indices@.len() == 6 * grid_index(hs as int, i as int, j as int),
                    forall|k: int|
                        0 <= k < indices@.len() ==> {
                            &&& (#[trigger] indices@[k]) < count
                            &&& indices@[k] == cell_corner(
                                hs as int,
                                (k / 6) / hs as int,
                                (k / 6) % hs as int,
                                k % 6,
                            )
                        },
                    forall|t: int|
                        0 <= t < indices@.len() / 3 ==> #[trigger] corners_distinct(indices@, t),
                decreases hs - j,
            {
                proof {
                    lemma_plane_index_bound(rows as int, columns as int, i as int, j as int);
                    lemma_plane_index_bound(
                        rows as int,
                        columns as int,
                        i as int + 1,
                        j as int + 1,
                    );
                    lemma_grid_index_inverse(hs as int, i as int, j as int);
                }
                let ghost before = indices@;
                let ghost cell = grid_index(hs as int, i as int, j as int);
                let i0: usize = i * columns + j;
                let i1: usize = i0 + 1;
                let i2: usize = i0 + columns;
                let i3: usize = i2 + 1;
                indices.push(i0 as u32);
                indices.push(i2 as u32);
                indices.push(i1 as u32);
                indices.push(i1 as u32);
                indices.push(i2 as u32);
                indices.push(i3 as u32);
                proof {
                    assert(before.len() == 6 * cell);
                    assert forall|k: int| 0 <= k < indices@.len() implies {
                        &&& (#[trigger] indices@[k]) < count
                        &&& indices@[k] == cell_corner(
                            hs as int,
                            (k / 6) / hs as int,
                            (k / 6) % hs as int,
                            k % 6,
                        )
                    } by {
                        if k < before.len() {
                            assert(indices@[k] == before[k]);
                        } else {
                            assert(k / 6 == cell);
                        }
                    }
                    assert forall|t: int| 0 <= t < indices@.len() / 3 implies #[trigger] corners_distinct(
                        indices@,
                        t,
                    ) by {
                        if t < before.len() / 3 {
                            assert(corners_distinct(before, t));
                            assert(indices@[3 * t] == before[3 * t]);
                            assert(indices@[3 * t + 1] == before[3 * t + 1]);
                            assert(indices@[3 * t + 2] == before[3 * t + 2]);
                        } else {
                            assert(t == 2 * cell || t == 2 * cell + 1);
                        }
                    }
                }
                j = j + 1;
            }
            proof {
                assert(grid_index(hs as int, i as int, hs as int) == grid_index(
                    hs as int,
                    i as int + 1,
                    0,
                )) by (nonlinear_arith);
            }
            i = i + 1;
        }
        proof {
            assert(indices@.len() == 6 * (ws * hs)) by (nonlinear_arith)
                requires
                    indices@.len() == 6 * (i * hs + 0),
                    i == ws,
            ;
            assert(indices@.map_values(|x: u32| x as int) =~= plane_indices(ws as int, hs as int));
        }
        Mesh { vertices, indices }
    }

    /// The vertex at row 0, column 0.
    pub fn down_left_vertex_index(&self) -> (index: usize)
        ensures
            index == grid_index(self.height_segments + 1, 0, 0),
    {
        0
    }

    /// The vertex at row 0, last column.
    pub fn top_left_vertex_index(&self) -> (index: usize)
        ensures
            index == grid_index(self.height_segments + 1, 0, self.height_segments as int),
    {
        self.height_segments
    }

    /// The vertex at the last row, column 0.
    pub fn down_right_vertex_index(&self) -> (index: usize)
        requires
            self.vertex_count() <= usize::MAX,
        ensures
            index == grid_index(self.height_segments + 1, self.width_segments as int, 0),
    {
        proof {
            lemma_plane_index_bound(
                self.width_segments + 1,
                self.height_segments + 1,
                self.width_segments as int,
                0,
            );
        }
        self.width_segments * (self.height_segments + 1)
    }

    /// The vertex at the last row, last column.
    pub fn top_right_vertex_index(&self) -> (index: usize)
        requires
            self.vertex_count() <= usize::MAX,
        ensures
            index == grid_index(
                self.height_segments + 1,
                self.width_segments as int,
                self.height_segments as int,
            ),
    {
        proof {
            lemma_plane_index_bound(
                self.width_segments + 1,
                self.height_segments + 1,
                self.width_segments as int,
                self.height_segments as int,
            );
        }
        self.width_segments * (self.height_segments + 1) + self.height_segments
    }
}

} // verus!
