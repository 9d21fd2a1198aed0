use vstd::prelude::*;
use crate::cloth::{copy_of, Cloth, Spring};
use crate::grid::{
    grid_index, grid_links, lemma_grid_index_bound, lemma_grid_index_inverse,
    lemma_grid_spring_count, lemma_shear_prefix_step, lemma_structural_prefix_step, shear_links,
    shear_prefix, structural_links, structural_part, structural_prefix, Link,
};
use crate::math::{
    flatten, flatten_points, lemma_triple_of_flatten, read_triple, triple_at, Vector3,
};
use crate::mesh::{first_occurrences, triangle_edges, Edge, Mesh};

verus! {

/// The endpoints of each spring, in the order of the springs.
pub open spec fn links_of<R>(springs: Seq<Spring<R>>) -> Seq<Link> {
    springs.map_values(|s: Spring<R>| (s.particle_index_0 as int, s.particle_index_1 as int))
}

/// The rest length of `spring` is what `rest_length` gave for the positions
/// of its two endpoints, first endpoint first.
pub open spec fn measured<R, D: Fn(Vector3<R>, Vector3<R>) -> R>(
    spring: Spring<R>,
    positions: Seq<R>,
    rest_length: D,
) -> bool {
    call_ensures(
        rest_length,
        (
            triple_at(positions, spring.particle_index_0 as int),
            triple_at(positions, spring.particle_index_1 as int),
        ),
        spring.rest_length,
    )
}

/// Builds a square cloth of `resolution` by `resolution` particles. The
/// particle at row `i`, column `j` has index `i * resolution + j`.
pub struct ClothBuilder<R> {
    pub resolution: usize,
    pub structural_spring_stiffness: R,
    pub shear_spring_stiffness: R,
    pub particle_mass: R,
}

impl<R: Copy> ClothBuilder<R> {
    /// Lays out the particles and connects them.
    ///
    /// `point(i, j)` gives the position of the particle at row `i`, column
    /// `j`; `rest_length(p, q)` gives the rest length of a spring whose
    /// endpoints lie at `p` and `q`. Every particle gets `particle_mass`.
    /// The springs are the structural ones, cell by cell, followed by the
    /// shear ones, cell by cell; each carries the stiffness of its kind and
    /// the rest length measured between its endpoints.
    pub fn build<P, D>(self, point: P, rest_length: D) -> (cloth: Cloth<R>) where
        P: Fn(usize, usize) -> Vector3<R>,
        D: Fn(Vector3<R>, Vector3<R>) -> R,

        requires
            3 * self.resolution * self.resolution <= usize::MAX,
            forall|i: usize, j: usize|
                i < self.resolution && j < self.resolution ==> call_requires(point, (i, j)),
            forall|p: Vector3<R>, q: Vector3<R>| call_requires(rest_length, (p, q)),
        ensures
            cloth.wf(),
            cloth.particle_count() == self.resolution * self.resolution,
            cloth.particle_masses@ == Seq::new(
                (self.resolution * self.resolution) as nat,
                |k: int| self.particle_mass,
            ),
            cloth.prev_particle_positions@ == cloth.particle_positions@,
            cloth.attachments@.len() == 0,
            forall|m: int|
                0 <= m < self.resolution * self.resolution ==> call_ensures(
                    point,
                    ((m / self.resolution as int) as usize, (m % self.resolution as int) as usize),
                    #[trigger] cloth.position(m),
                ),
            links_of(cloth.springs@) == grid_links(self.resolution as int),
            self.resolution >= 1 ==> cloth.springs@.len() == 2 * self.resolution * (self.resolution
                - 1) + 2 * (self.resolution - 1) * (self.resolution - 1),
            forall|k: int|
                0 <= k < cloth.springs@.len() ==> measured(
                    #[trigger] cloth.springs@[k],
                    cloth.particle_positions@,
                    rest_length,
                ),
            forall|k: int|
                0 <= k < cloth.springs@.len() ==> (#[trigger] cloth.springs@[k]).stiffness == (if k
                    < structural_part(self.resolution as int).len() {
                    self.structural_spring_stiffness
                } else {
                    self.shear_spring_stiffness
                }),
    {
        let n: usize = self.resolution;
        assert(n * n <= usize::MAX && 3 * (n * n) <= usize::MAX) by (nonlinear_arith)
            requires
                3 * n * n <= usize::MAX,
        ;
        let count: usize = n * n;

        let mut vertices: Vec<R> = Vec::new();
        let mut masses: Vec<R> = Vec::new();
        let mut i: usize = 0;
        let mut index: usize = 0;
        while i < n
            invariant
                i <= n,
                count == n * n,
                3 * count <= usize::MAX,
                index == grid_index(n as int, i as int, 0),
                index <= count,
                vertices@.len() == 3 * index,
                masses@ == Seq::new(index as nat, |k: int| self.particle_mass),
                forall|m: int|
                    0 <= m < index ==> call_ensures(
                        point,
                        ((m / n as int) as usize, (m % n as int) as usize),
                        #[trigger] triple_at(vertices@, m),
                    ),
                forall|i: usize, j: usize| i < n && j < n ==> call_requires(point, (i, j)),
            decreases n - i,
        {
            let mut j: usize = 0;
            while j < n
                invariant
                    i < n,
                    j <= n,
                    count == n * n,
                    3 * count <= usize::MAX,
                    index == grid_index(n as int, i as int, j as int),
                    index <= count,
                    vertices@.len() == 3 * index,
                    masses@ == Seq::new(index as nat, |k: int| self.particle_mass),
                    forall|m: int|
                        0 <= m < index ==> call_ensures(
                            point,
                            ((m / n as int) as usize, (m % n as int) as usize),
                            #[trigger] triple_at(vertices@, m),
                        ),
                    forall|i: usize, j: usize| i < n && j < n ==> call_requires(point, (i, j)),
                decreases n - j,
            {
                proof {
                    lemma_grid_index_bound(n as int, i as int, j as int);
                    lemma_grid_index_inverse(n as int, i as int, j as int);
                }
                let ghost before = vertices@;
                let p = point(i, j);
                vertices.push(p.x);
                vertices.push(p.y);
                vertices.push(p.z);
                masses.push(self.particle_mass);
                assert forall|m: int| 0 <= m < index + 1 implies call_ensures(
                    point,
                    ((m / n as int) as usize, (m % n as int) as usize),
                    #[trigger] triple_at(vertices@, m),
                ) by {
                    if m < index {
                        assert(triple_at(vertices@, m) == triple_at(before, m));
                    } else {
                        assert(triple_at(vertices@, m) == p);
                    }
                }
                assert(masses@ == Seq::new((index + 1) as nat, |k: int| self.particle_mass));
                index = index + 1;
                j = j + 1;
            }
            proof {
                assert(grid_index(n as int, i as int, n as int) == grid_index(
                    n as int,
                    i as int + 1,
                    0,
                )) by (nonlinear_arith);
            }
            i = i + 1;
        }
        assert(index == count) by (nonlinear_arith)
            requires
                index == i * n + 0,
                i == n,
                count == n * n,
        ;

        let mut springs: Vec<Spring<R>> = Vec::new();
        assert(links_of(springs@) == structural_prefix(n as int, 0));
        i = 0;
        index = 0;
        while i < n
            invariant
                i <= n,
                count == n * n,
                index == grid_index(n as int, i as int, 0),
                index <= count,
                vertices@.len() == 3 * count,
                3 * count <= usize::MAX,
                links_of(springs@) == structural_prefix(n as int, index as int),
                forall|k: int|
                    0 <= k < springs@.len() ==> {
                        &&& (#[trigger] springs@[k]).connects(count as nat)
                        &&& springs@[k].stiffness == self.structural_spring_stiffness
                        &&& measured(springs@[k], vertices@, rest_length)
                    },
                forall|p: Vector3<R>, q: Vector3<R>| call_requires(rest_length, (p, q)),
            decreases n - i,
        {
            let mut j: usize = 0;
            while j < n
                invariant
                    i < n,
                    j <= n,
                    count == n * n,
                    index == grid_index(n as int, i as int, j as int),
                    index <= count,
                    vertices@.len() == 3 * count,
                    3 * count <= usize::MAX,
                    links_of(springs@) == structural_prefix(n as int, index as int),
                    forall|k: int|
                        0 <= k < springs@.len() ==> {
                            &&& (#[trigger] springs@[k]).connects(count as nat)
                            &&& springs@[k].stiffness == self.structural_spring_stiffness
                            &&& measured(springs@[k], vertices@, rest_length)
                        },
                    forall|p: Vector3<R>, q: Vector3<R>| call_requires(rest_length, (p, q)),
                decreases n - j,
            {
                proof {
                    lemma_grid_index_bound(n as int, i as int, j as int);
                    lemma_structural_prefix_step(n as int, i as int, j as int);
                }
                let ghost before = links_of(springs@);
                if i + 1 < n {
                    proof {
                        lemma_grid_index_bound(n as int, i as int + 1, j as int);
                    }
                    let index1: usize = index + n;
                    let length = rest_length(
                        read_triple(&vertices, index),
                        read_triple(&vertices, index1),
                    );
                    springs.push(
                        Spring {
                            particle_index_0: index,
                            particle_index_1: index1,
                            stiffness: self.structural_spring_stiffness,
                            rest_length: length,
                        },
                    );
                }
                if j + 1 < n {
                    proof {
                        lemma_grid_index_bound(n as int, i as int, j as int + 1);
                    }
                    let index1: usize = index + 1;
                    let length = rest_length(
                        read_triple(&vertices, index),
                        read_triple(&vertices, index1),
                    );
                    springs.push(
                        Spring {
                            particle_index_0: index,
                            particle_index_1: index1,
                            stiffness: self.structural_spring_stiffness,
                            rest_length: length,
                        },
                    );
                }
                assert(links_of(springs@) == before + structural_links(
                    n as int,
                    i as int,
                    j as int,
                ));
                index = index + 1;
                j = j + 1;
            }
            proof {
                assert(grid_index(n as int, i as int, n as int) == grid_index(
                    n as int,
                    i as int + 1,
                    0,
                )) by (nonlinear_arith);
            }
            i = i + 1;
        }
        assert(index == count) by (nonlinear_arith)
            requires
                index == i * n + 0,
                i == n,
                count == n * n,
        ;

        let ghost structural = springs@.len();
        assert(links_of(springs@) == structural_part(n as int) + shear_prefix(n as int, 0));
        i = 0;
        index = 0;
        while i < n
            invariant
                i <= n,
                count == n * n,
                index == grid_index(n as int, i as int, 0),
                index <= count,
                vertices@.len() == 3 * count,
                3 * count <= usize::MAX,
                structural == structural_part(n as int).len(),
                structural <= springs@.len(),
                links_of(springs@) == structural_part(n as int) + shear_prefix(
                    n as int,
                    index as int,
                ),
                forall|k: int|
                    0 <= k < springs@.len() ==> {
                        &&& (#[trigger] springs@[k]).connects(count as nat)
                        &&& springs@[k].stiffness == (if k < structural {
                            self.structural_spring_stiffness
                        } else {
                            self.shear_spring_stiffness
                        })
                        &&& measured(springs@[k], vertices@, rest_length)
                    },
                forall|p: Vector3<R>, q: Vector3<R>| call_requires(rest_length, (p, q)),
            decreases n - i,
        {
            let mut j: usize = 0;
            while j < n
                invariant
                    i < n,
                    j <= n,
                    count == n * n,
                    index == grid_index(n as int, i as int, j as int),
                    index <= count,
                    vertices@.len() == 3 * count,
                    3 * count <= usize::MAX,
                    structural == structural_part(n as int).len(),
                    structural <= springs@.len(),
                    links_of(springs@) == structural_part(n as int) + shear_prefix(
                        n as int,
                        index as int,
                    ),
                    forall|k: int|
                        0 <= k < springs@.len() ==> {
                            &&& (#[trigger] springs@[k]).connects(count as nat)
                            &&& springs@[k].stiffness == (if k < structural {
                                self.structural_spring_stiffness
                            } else {
                                self.shear_spring_stiffness
                            })
                            &&& measured(springs@[k], vertices@, rest_length)
                        },
                    forall|p: Vector3<R>, q: Vector3<R>| call_requires(rest_length, (p, q)),
                decreases n - j,
            {
                proof {
                    lemma_grid_index_bound(n as int, i as int, j as int);
                    lemma_shear_prefix_step(n as int, i as int, j as int);
                }
                let ghost before = links_of(springs@);
                if i + 1 < n && j + 1 < n {
                    proof {
                        lemma_grid_index_bound(n as int, i as int + 1, j as int + 1);
                    }
                    let index1: usize = index + n + 1;
                    let length = rest_length(
                        read_triple(&vertices, index),
                        read_triple(&vertices, index1),
                    );
                    springs.push(
                        Spring {
                            particle_index_0: index,
                            particle_index_1: index1,
                            stiffness: self.shear_spring_stiffness,
                            rest_length: length,
                        },
                    );
                }
                if i + 1 < n && j > 0 {
                    proof {
                        lemma_grid_index_bound(n as int, i as int + 1, j as int - 1);
                    }
                    let index1: usize = index + n - 1;
                    let length = rest_length(
                        read_triple(&vertices, index),
                        read_triple(&vertices, index1),
                    );
                    springs.push(
                        Spring {
                            particle_index_0: index,
                            particle_index_1: index1,
                            stiffness: self.shear_spring_stiffness,
                            rest_length: length,
                        },
                    );
                }
                assert(links_of(springs@) == before + shear_links(n as int, i as int, j as int));
                index = index + 1;
                j = j + 1;
            }
            proof {
                assert(grid_index(n as int, i as int, n as int) == grid_index(
                    n as int,
                    i as int + 1,
                    0,
                )) by (nonlinear_arith);
            }
            i = i + 1;
        }
        assert(index == count) by (nonlinear_arith)
            requires
                index == i * n + 0,
                i == n,
                count == n * n,
        ;

        let prev_particle_positions = copy_of(vertices.as_slice());
        let cloth = Cloth {
            particle_masses: masses,
            particle_positions: vertices,
            prev_particle_positions,
            springs,
            attachments: Vec::new(),
        };
        assert(cloth.particle_count() == count);
        proof {
            if n >= 1 {
                lemma_grid_spring_count(n as int);
            }
            assert(links_of(cloth.springs@).len() == cloth.springs@.len());
        }
        cloth
    }

    /// The particle at row 0, column 0.
    pub fn down_left_vertex_index(&self) -> (index: usize)
        ensures
            index == grid_index(self.resolution as int, 0, 0),
    {
        0
    }

    /// The particle at row 0, last column.
    pub fn top_left_vertex_index(&self) -> (index: usize)
        requires
            self.resolution >= 1,
        ensures
            index == grid_index(self.resolution as int, 0, self.resolution - 1),
    {
        self.resolution - 1
    }

    /// The particle at the last row, column 0.
    pub fn down_right_vertex_index(&self) -> (index: usize)
        requires
            self.resolution >= 1,
            self.resolution * self.resolution <= usize::MAX,
        ensures
            index == grid_index(self.resolution as int, self.resolution - 1, 0),
    {
        assert(self.resolution * (self.resolution - 1) <= self.resolution * self.resolution)
            by (nonlinear_arith)
            requires
                self.resolution >= 1,
        ;
        assert(self.resolution * (self.resolution - 1) == (self.resolution - 1) * self.resolution)
            by (nonlinear_arith);
        self.resolution * (self.resolution - 1)
    }

    /// The particle at the last row, last column.
    pub fn top_right_vertex_index(&self) -> (index: usize)
        requires
            self.resolution >= 1,
            self.resolution * self.resolution <= usize::MAX,
        ensures
            index == grid_index(self.resolution as int, self.resolution - 1, self.resolution - 1),
    {
        assert(self.resolution * self.resolution >= 1 && self.resolution * self.resolution - 1 == (
        self.resolution - 1) * self.resolution + (self.resolution - 1)) by (nonlinear_arith)
            requires
                self.resolution >= 1,
        ;
        self.resolution * self.resolution - 1
    }
}

/// Builds a cloth whose particles are the vertices of a triangle mesh and
/// whose springs are its edges.
pub struct ClothFromMeshBuilder<'a, R> {
    pub mesh: &'a Mesh<R>,
    pub particle_mass: R,
    pub spring_stiffness: R,
}

impl<'a, R: Copy> ClothFromMeshBuilder<'a, R> {
    /// The edges of the mesh, each once, in the order in which the triangles
    /// first mention them.
    pub open spec fn edges(&self) -> Seq<Edge> {
        first_occurrences(triangle_edges(self.mesh.index_seq()))
    }

    /// One particle of mass `particle_mass` per vertex, at the position of
    /// the vertex; one spring of stiffness `spring_stiffness` per edge, from
    /// the smaller vertex index to the larger, with the rest length that
    /// `rest_length` gives for the positions of its endpoints.
    pub fn build<D: Fn(Vector3<R>, Vector3<R>) -> R>(self, rest_length: D) -> (cloth: Cloth<R>)
        requires
            forall|p: Vector3<R>, q: Vector3<R>| call_requires(rest_length, (p, q)),
        ensures
            cloth.wf(),
            cloth.particle_positions@ == flatten(self.mesh.vertex_seq()),
            cloth.prev_particle_positions@ == cloth.particle_positions@,
            cloth.particle_masses@ == Seq::new(
                self.mesh.vertex_seq().len(),
                |k: int| self.particle_mass,
            ),
            cloth.attachments@.len() == 0,
            cloth.springs@.len() == self.edges().len(),
            forall|k: int|
                0 <= k < cloth.springs@.len() ==> {
                    &&& (#[trigger] cloth.springs@[k]).particle_index_0 == self.edges()[k].low()
                    &&& cloth.springs@[k].particle_index_1 == self.edges()[k].high()
                    &&& cloth.springs@[k].stiffness == self.spring_stiffness
                    &&& measured(cloth.springs@[k], cloth.particle_positions@, rest_length)
                },
    {
        let vertices = self.mesh.vertices();
        let num_particles: usize = vertices.len();
        let particle_positions = flatten_points(vertices);
        let prev_particle_positions = flatten_points(vertices);
        let mut particle_masses: Vec<R> = Vec::new();
        let mut v: usize = 0;
        while v < num_particles
            invariant
                v <= num_particles,
                particle_masses@ == Seq::new(v as nat, |k: int| self.particle_mass),
            decreases num_particles - v,
        {
            particle_masses.push(self.particle_mass);
            assert(particle_masses@ == Seq::new((v + 1) as nat, |k: int| self.particle_mass));
            v = v + 1;
        }
        let edges = self.mesh.compute_edges();
        let mut springs: Vec<Spring<R>> = Vec::new();
        let mut e: usize = 0;
        while e < edges.len()
            invariant
                e <= edges@.len(),
                e == springs@.len(),
                edges@ == self.edges(),
                vertices@ == self.mesh.vertex_seq(),
                num_particles == vertices@.len(),
                forall|k: int|
                    0 <= k < edges@.len() ==> (#[trigger] edges@[k]).low() < edges@[k].high()
                        < num_particles,
                particle_positions@ == flatten(vertices@),
                forall|k: int|
                    0 <= k < springs@.len() ==> {
                        &&& (#[trigger] springs@[k]).particle_index_0 == edges@[k].low()
                        &&& springs@[k].particle_index_1 == edges@[k].high()
                        &&& springs@[k].connects(num_particles as nat)
                        &&& springs@[k].stiffness == self.spring_stiffness
                        &&& measured(springs@[k], particle_positions@, rest_length)
                    },
                forall|p: Vector3<R>, q: Vector3<R>| call_requires(rest_length, (p, q)),
            decreases edges@.len() - e,
        {
            let edge = &edges[e];
            let index0: usize = edge.v0();
            let index1: usize = edge.v1();
            proof {
                lemma_triple_of_flatten(vertices@, index0 as int);
                lemma_triple_of_flatten(vertices@, index1 as int);
            }
            let head = vertices[index0];
            let tail = vertices[index1];
            let length = rest_length(head, tail);
            springs.push(
                Spring {
                    particle_index_0: index0,
                    particle_index_1: index1,
                    stiffness: self.spring_stiffness,
                    rest_length: length,
                },
            );
            e = e + 1;
        }
        Cloth {
            particle_masses,
            particle_positions,
            prev_particle_positions,
            springs,
            attachments: Vec::new(),
        }
    }
}

} // verus!
