use vstd::prelude::*;
use crate::cloth::{copy_of, Attachment, Cloth, SimulationError, Spring};
use crate::math::{filled, read_triple, triple_at, write_triple, Vector3};

verus! {

/// What the local projection leaves in the entry of `spring`: the vector
/// that `project` gave for the positions of the two endpoints and the rest
/// length, or, where `project` gave none, what the entry held before.
pub open spec fn project_outcome<R, P: Fn(Vector3<R>, Vector3<R>, R) -> Option<Vector3<R>>>(
    project: P,
    spring: Spring<R>,
    positions: Seq<R>,
    before: Vector3<R>,
    after: Vector3<R>,
) -> bool {
    let args = (
        triple_at(positions, spring.particle_index_0 as int),
        triple_at(positions, spring.particle_index_1 as int),
        spring.rest_length,
    );
    call_ensures(project, args, Some(after)) || (call_ensures(project, args, None::<Vector3<R>>)
        && after == before)
}

/// `after` is the vector `d` of a local projection that started from
/// `before`: the entry of each attachment is its target, and the entry of
/// each spring is the outcome of `project` at `positions`. Entries follow
/// the constraint order, attachments first.
pub open spec fn projected<R, P: Fn(Vector3<R>, Vector3<R>, R) -> Option<Vector3<R>>>(
    attachments: Seq<Attachment<R>>,
    springs: Seq<Spring<R>>,
    positions: Seq<R>,
    project: P,
    before: Seq<R>,
    after: Seq<R>,
) -> bool {
    &&& after.len() == 3 * (attachments.len() + springs.len())
    &&& forall|c: int|
        0 <= c < attachments.len() ==> triple_at(after, c) == (
        #[trigger] attachments[c]).target_position
    &&& forall|s: int|
        0 <= s < springs.len() ==> project_outcome(
            project,
            #[trigger] springs[s],
            positions,
            triple_at(before, attachments.len() + s),
            triple_at(after, attachments.len() + s),
        )
}

/// The local step: fills `vector_d` constraint by constraint. A spring for
/// which `project` gives no direction keeps its previous entry.
pub fn compute_vector_d<R: Copy, P: Fn(Vector3<R>, Vector3<R>, R) -> Option<Vector3<R>>>(
    cloth: &Cloth<R>,
    vector_d: &mut Vec<R>,
    project: &P,
)
    requires
        cloth.wf(),
        old(vector_d)@.len() == 3 * cloth.constraint_count(),
        forall|p: Vector3<R>, q: Vector3<R>, l: R| call_requires(*project, (p, q, l)),
    ensures
        projected(
            cloth.attachments@,
            cloth.springs@,
            cloth.particle_positions@,
            *project,
            old(vector_d)@,
            final(vector_d)@,
        ),
{
    let ghost before = vector_d@;
    let len: usize = vector_d.len();
    let attachments: usize = cloth.attachments.len();
    let mut c: usize = 0;
    while c < attachments
        invariant
            c <= attachments,
            attachments == cloth.attachments@.len(),
            vector_d@.len() == 3 * cloth.constraint_count(),
            vector_d@.len() == before.len(),
            forall|m: int|
                0 <= m < c ==> triple_at(vector_d@, m) == (
                #[trigger] cloth.attachments@[m]).target_position,
            forall|k: int| 3 * c <= k < before.len() ==> vector_d@[k] == before[k],
        decreases attachments - c,
    {
        let ghost current = vector_d@;
        write_triple(vector_d, c, cloth.attachments[c].target_position);
        assert forall|m: int| 0 <= m < c + 1 implies triple_at(vector_d@, m) == (
        #[trigger] cloth.attachments@[m]).target_position by {
            if m < c {
                assert(triple_at(vector_d@, m) == triple_at(current, m));
            }
        }
        c = c + 1;
    }
    let mut s: usize = 0;
    while s < cloth.springs.len()
        invariant
            s <= cloth.springs@.len(),
            cloth.wf(),
            len == before.len(),
            attachments == cloth.attachments@.len(),
            vector_d@.len() == 3 * cloth.constraint_count(),
            vector_d@.len() == before.len(),
            forall|m: int|
                0 <= m < attachments ==> triple_at(vector_d@, m) == (
                #[trigger] cloth.attachments@[m]).target_position,
            forall|m: int|
                0 <= m < s ==> project_outcome(
                    *project,
                    #[trigger] cloth.springs@[m],
                    cloth.particle_positions@,
                    triple_at(before, attachments + m),
                    triple_at(vector_d@, attachments + m),
                ),
            forall|k: int| 3 * (attachments + s) <= k < before.len() ==> vector_d@[k] == before[k],
            forall|p: Vector3<R>, q: Vector3<R>, l: R| call_requires(*project, (p, q, l)),
        decreases cloth.springs@.len() - s,
    {
        let spring = &cloth.springs[s];
        assert(spring.connects(cloth.particle_count()));
        let head = read_triple(&cloth.particle_positions, spring.particle_index_0);
        let tail = read_triple(&cloth.particle_positions, spring.particle_index_1);
        let ghost current = vector_d@;
        assert(triple_at(current, attachments + s) == triple_at(before, attachments + s));
        match project(head, tail, spring.rest_length) {
            Some(d) => {
                write_triple(vector_d, attachments + s, d);
            },
            None => {},
        }
        assert forall|m: int| 0 <= m < attachments implies triple_at(vector_d@, m) == (
        #[trigger] cloth.attachments@[m]).target_position by {
            assert(triple_at(vector_d@, m) == triple_at(current, m));
        }
        assert forall|m: int| 0 <= m < s + 1 implies project_outcome(
            *project,
            #[trigger] cloth.springs@[m],
            cloth.particle_positions@,
            triple_at(before, attachments + m),
            triple_at(vector_d@, attachments + m),
        ) by {
            if m < s {
                assert(triple_at(vector_d@, attachments + m) == triple_at(
                    current,
                    attachments + m,
                ));
            }
        }
        s = s + 1;
    }
}

/// Where a particle at `before` is after `collider` has acted on it: at the
/// point that `collide` gave, or, where `collide` gave none, where it was.
pub open spec fn collide_outcome<R, C, K: Fn(&C, Vector3<R>) -> Option<Vector3<R>>>(
    collide: K,
    collider: C,
    before: Vector3<R>,
    after: Vector3<R>,
) -> bool {
    call_ensures(collide, (&collider, before), Some(after)) || (call_ensures(
        collide,
        (&collider, before),
        None::<Vector3<R>>,
    ) && after == before)
}

/// `after` holds the positions `before` after one collider has acted on
/// every particle.
pub open spec fn collider_pass<R, C, K: Fn(&C, Vector3<R>) -> Option<Vector3<R>>>(
    collide: K,
    collider: C,
    before: Seq<R>,
    after: Seq<R>,
) -> bool {
    &&& after.len() == before.len()
    &&& forall|i: int|
        0 <= i < before.len() / 3 ==> collide_outcome(
            collide,
            collider,
            triple_at(before, i),
            #[trigger] triple_at(after, i),
        )
    &&& forall|k: int| 3 * (before.len() / 3) <= k < before.len() ==> after[k] == before[k]
}

/// `history` lists the positions before the first collider and after each
/// collider in turn, from `before` to `after`.
pub open spec fn sweep_history<R, C, K: Fn(&C, Vector3<R>) -> Option<Vector3<R>>>(
    colliders: Seq<C>,
    collide: K,
    before: Seq<R>,
    after: Seq<R>,
    history: Seq<Seq<R>>,
) -> bool {
    &&& history.len() == colliders.len() + 1
    &&& history[0] == before
    &&& history[colliders.len() as int] == after
    &&& forall|k: int|
        0 <= k < colliders.len() ==> collider_pass(
            collide,
            #[trigger] colliders[k],
            history[k],
            history[k + 1],
        )
}

/// `after` holds the positions `before` after the collision pass: the
/// colliders act in their order, each on every particle.
pub open spec fn swept<R, C, K: Fn(&C, Vector3<R>) -> Option<Vector3<R>>>(
    colliders: Seq<C>,
    collide: K,
    before: Seq<R>,
    after: Seq<R>,
) -> bool {
    exists|history: Seq<Seq<R>>| sweep_history(colliders, collide, before, after, history)
}

/// The collision pass: for each collider in insertion order, for each
/// particle in index order, the particle moves to where `collide` puts it
/// and stays where it is when `collide` gives no point.
pub fn solve_collision<R: Copy, C, K: Fn(&C, Vector3<R>) -> Option<Vector3<R>>>(
    positions: &mut Vec<R>,
    colliders: &Vec<C>,
    collide: &K,
)
    requires
        forall|c: &C, p: Vector3<R>| call_requires(*collide, (c, p)),
    ensures
        swept(colliders@, *collide, old(positions)@, final(positions)@),
        final(positions)@.len() == old(positions)@.len(),
{
    let ghost before = positions@;
    let ghost mut history: Seq<Seq<R>> = seq![before];
    let particles: usize = positions.len() / 3;
    let mut k: usize = 0;
    while k < colliders.len()
        invariant
            k <= colliders@.len(),
            particles == before.len() / 3,
            positions@.len() == before.len(),
            history.len() == k + 1,
            history[0] == before,
            history[k as int] == positions@,
            forall|m: int|
                0 <= m < k ==> collider_pass(
                    *collide,
                    #[trigger] colliders@[m],
                    history[m],
                    history[m + 1],
                ),
            forall|c: &C, p: Vector3<R>| call_requires(*collide, (c, p)),
        decreases colliders@.len() - k,
    {
        let collider = &colliders[k];
        let ghost start = positions@;
        let mut i: usize = 0;
        while i < particles
            invariant
                i <= particles,
                particles == start.len() / 3,
                positions@.len() == start.len(),
                *collider == colliders@[k as int],
                forall|j: int|
                    0 <= j < i ==> collide_outcome(
                        *collide,
                        *collider,
                        triple_at(start, j),
                        #[trigger] triple_at(positions@, j),
                    ),
                forall|n: int| 3 * i <= n < start.len() ==> positions@[n] == start[n],
                forall|c: &C, p: Vector3<R>| call_requires(*collide, (c, p)),
            decreases particles - i,
        {
            let len: usize = positions.len();
            let point = read_triple(positions, i);
            let ghost current = positions@;
            assert(point == triple_at(start, i as int));
            match collide(collider, point) {
                Some(new_point) => {
                    write_triple(positions, i, new_point);
                },
                None => {},
            }
            assert forall|j: int| 0 <= j < i + 1 implies collide_outcome(
                *collide,
                *collider,
                triple_at(start, j),
                #[trigger] triple_at(positions@, j),
            ) by {
                if j < i {
                    assert(triple_at(positions@, j) == triple_at(current, j));
                }
            }
            i = i + 1;
        }
        proof {
            let ghost previous = history;
            history = history.push(positions@);
            assert forall|m: int| 0 <= m < k + 1 implies collider_pass(
                *collide,
                #[trigger] colliders@[m],
                history[m],
                history[m + 1],
            ) by {
                if m < k {
                    assert(history[m] == previous[m]);
                    assert(history[m + 1] == previous[m + 1]);
                }
            }
        }
        k = k + 1;
    }
    assert(sweep_history(colliders@, *collide, before, positions@, history));
}

/// The solver: the cloth it owns, the scratch vector `d`, the external
/// impulse term, and the assembled system that the numerical kernels work
/// with. `C` is the type of a collider, `F` that of the assembled system;
/// neither is inspected here.
pub struct FastMassSpringSolver<R, C, F> {
    cloth: Cloth<R>,
    vector_d: Vec<R>,
    impulse_term: Vec<R>,
    time_step: R,
    num_iterations: usize,
    colliders: Vec<C>,
    system: F,
}

impl<R: Copy, C, F> FastMassSpringSolver<R, C, F> {
    pub closed spec fn spec_cloth(&self) -> &Cloth<R> {
        &self.cloth
    }

    pub closed spec fn spec_time_step(&self) -> R {
        self.time_step
    }

    /// The scratch vector `d`, three entries per constraint.
    pub closed spec fn vector_d(&self) -> Vec<R> {
        self.vector_d
    }

    /// The external impulse term, three entries per particle.
    pub closed spec fn impulse_term(&self) -> Vec<R> {
        self.impulse_term
    }

    /// The number of local/global iterations of a step.
    pub closed spec fn iterations(&self) -> usize {
        self.num_iterations
    }

    /// The colliders in insertion order.
    pub closed spec fn colliders(&self) -> Seq<C> {
        self.colliders@
    }

    /// The assembled system.
    pub closed spec fn system(&self) -> F {
        self.system
    }

    /// The cloth is well formed and the two vectors have its dimensions.
    pub open spec fn wf(&self) -> bool {
        &&& self.spec_cloth().wf()
        &&& self.vector_d()@.len() == 3 * self.spec_cloth().constraint_count()
        &&& self.impulse_term()@.len() == self.spec_cloth().particle_positions@.len()
    }

    /// Everything but positions, previous positions and `d` is as in `pre`.
    pub open spec fn kept(&self, pre: &Self) -> bool {
        &&& self.spec_cloth().particle_masses@ == pre.spec_cloth().particle_masses@
        &&& self.spec_cloth().springs@ == pre.spec_cloth().springs@
        &&& self.spec_cloth().attachments@ == pre.spec_cloth().attachments@
        &&& self.impulse_term()@ == pre.impulse_term()@
        &&& self.spec_time_step() == pre.spec_time_step()
        &&& self.iterations() == pre.iterations()
        &&& self.colliders() == pre.colliders()
        &&& self.system() == pre.system()
    }

    /// Takes ownership of `cloth` and has `assemble` build the system for it
    /// and the time step. A cloth that is not well formed is turned down
    /// before anything is assembled; otherwise the constructor fails exactly
    /// when `assemble` does, with its error. The new solver makes two
    /// iterations per step, has no colliders, and its vector `d` and impulse
    /// term hold `zero` everywhere.
    pub fn new<A: FnOnce(&Cloth<R>, R) -> Result<F, SimulationError>>(
        cloth: Cloth<R>,
        time_step: R,
        zero: R,
        assemble: A,
    ) -> (result: Result<Self, SimulationError>)
        requires
            3 * cloth.constraint_count() <= usize::MAX,
            cloth.wf() ==> call_requires(assemble, (&cloth, time_step)),
        ensures
            !cloth.wf() ==> (result matches Err(e) && e == SimulationError::InvalidInput),
            cloth.wf() ==> match result {
                Ok(solver) => {
                    &&& call_ensures(
                        assemble,
                        (&cloth, time_step),
                        Ok::<F, SimulationError>(solver.system()),
                    )
                    &&& solver.wf()
                    &&& *solver.spec_cloth() == cloth
                    &&& solver.spec_time_step() == time_step
                    &&& solver.iterations() == 2
                    &&& solver.colliders().len() == 0
                    &&& solver.vector_d()@ == Seq::new(
                        3 * cloth.constraint_count(),
                        |k: int| zero,
                    )
                    &&& solver.impulse_term()@ == Seq::new(
                        cloth.particle_positions@.len(),
                        |k: int| zero,
                    )
                },
                Err(e) => call_ensures(assemble, (&cloth, time_step), Err::<F, SimulationError>(e)),
            },
    {
        match cloth.validate() {
            Err(e) => {
                return Err(e);
            },
            Ok(()) => {},
        }
        match assemble(&cloth, time_step) {
            Err(e) => Err(e),
            Ok(system) => {
                let num_constraints: usize = cloth.num_constraints();
                let vector_d = filled(zero, 3 * num_constraints);
                let impulse_term = filled(zero, cloth.particle_positions.len());
                Ok(
                    FastMassSpringSolver {
                        cloth,
                        vector_d,
                        impulse_term,
                        time_step,
                        num_iterations: 2,
                        colliders: Vec::new(),
                        system,
                    },
                )
            },
        }
    }

    pub fn set_num_iterations(&mut self, num_iterations: usize)
        requires
            old(self).wf(),
        ensures
            final(self).wf(),
            final(self).iterations() == num_iterations,
            *final(self).spec_cloth() == *old(self).spec_cloth(),
            final(self).vector_d() == old(self).vector_d(),
            final(self).impulse_term() == old(self).impulse_term(),
            final(self).spec_time_step() == old(self).spec_time_step(),
            final(self).colliders() == old(self).colliders(),
            final(self).system() == old(self).system(),
    {
        self.num_iterations = num_iterations;
    }

    /// Sets the external impulse term: the triple of particle `i` becomes
    /// what `impulse` gives for the mass of particle `i`.
    pub fn set_gravity<G: Fn(R) -> Vector3<R>>(&mut self, impulse: &G)
        requires
            old(self).wf(),
            forall|mass: R| call_requires(*impulse, (mass,)),
        ensures
            final(self).wf(),
            final(self).impulse_term()@.len() == old(self).impulse_term()@.len(),
            forall|i: int|
                0 <= i < old(self).spec_cloth().particle_masses@.len() ==> call_ensures(
                    *impulse,
                    (old(self).spec_cloth().particle_masses@[i],),
                    #[trigger] triple_at(final(self).impulse_term()@, i),
                ),
            *final(self).spec_cloth() == *old(self).spec_cloth(),
            final(self).vector_d() == old(self).vector_d(),
            final(self).spec_time_step() == old(self).spec_time_step(),
            final(self).iterations() == old(self).iterations(),
            final(self).colliders() == old(self).colliders(),
            final(self).system() == old(self).system(),
    {
        let particles: usize = self.cloth.particle_masses.len();
        let mut i: usize = 0;
        while i < particles
            invariant
                i <= particles,
                particles == self.cloth.particle_masses@.len(),
                self.wf(),
                self.cloth == old(self).cloth,
                self.vector_d == old(self).vector_d,
                self.time_step == old(self).time_step,
                self.num_iterations == old(self).num_iterations,
                self.colliders == old(self).colliders,
                self.system == old(self).system,
                forall|j: int|
                    0 <= j < i ==> call_ensures(
                        *impulse,
                        (self.cloth.particle_masses@[j],),
                        #[trigger] triple_at(self.impulse_term@, j),
                    ),
                forall|mass: R| call_requires(*impulse, (mass,)),
            decreases particles - i,
        {
            let ghost current = self.impulse_term@;
            let value = impulse(self.cloth.particle_masses[i]);
            write_triple(&mut self.impulse_term, i, value);
            assert forall|j: int| 0 <= j < i + 1 implies call_ensures(
                *impulse,
                (self.cloth.particle_masses@[j],),
                #[trigger] triple_at(self.impulse_term@, j),
            ) by {
                if j < i {
                    assert(triple_at(self.impulse_term@, j) == triple_at(current, j));
                }
            }
            i = i + 1;
        }
    }

    #[verifier::when_used_as_spec(spec_cloth)]
    pub fn cloth(&self) -> (cloth: &Cloth<R>)
        ensures
            cloth == self.spec_cloth(),
    {
        &self.cloth
    }

    #[verifier::when_used_as_spec(spec_time_step)]
    pub fn time_step(&self) -> (h: R)
        ensures
            h == self.spec_time_step(),
    {
        self.time_step
    }

    /// Appends `collider` after the colliders already present.
    pub fn add_collider(&mut self, collider: C)
        requires
            old(self).wf(),
        ensures
            final(self).wf(),
            final(self).colliders() == old(self).colliders().push(collider),
            *final(self).spec_cloth() == *old(self).spec_cloth(),
            final(self).vector_d() == old(self).vector_d(),
            final(self).impulse_term() == old(self).impulse_term(),
            final(self).spec_time_step() == old(self).spec_time_step(),
            final(self).iterations() == old(self).iterations(),
            final(self).system() == old(self).system(),
    {
        self.colliders.push(collider);
    }

    /// Iteration `m` of a step: the local projection at the positions
    /// `xs[m]` takes `d` from `ds[m]` to `ds[m + 1]`, and the global solve
    /// for `ds[m + 1]` gives the positions `xs[m + 1]`.
    pub open spec fn round<
        B,
        P: Fn(Vector3<R>, Vector3<R>, R) -> Option<Vector3<R>>,
        S: Fn(&F, &B, &Vec<R>) -> Vec<R>,
    >(&self, project: P, solve: S, term: B, xs: Seq<Vec<R>>, ds: Seq<Vec<R>>, m: int) -> bool {
        &&& projected(
            self.spec_cloth().attachments@,
            self.spec_cloth().springs@,
            xs[m]@,
            project,
            ds[m]@,
            ds[m + 1]@,
        )
        &&& call_ensures(solve, (&self.system(), &term, &ds[m + 1]), xs[m + 1])
    }

    /// `post` is the solver `self` after one step in which `term` was the
    /// inertial term, `xs` the positions and `ds` the vector `d` before the
    /// first iteration and after each one.
    pub open spec fn step_trace<
        B,
        I: FnOnce(&F, &Cloth<R>, &Vec<R>) -> B,
        P: Fn(Vector3<R>, Vector3<R>, R) -> Option<Vector3<R>>,
        S: Fn(&F, &B, &Vec<R>) -> Vec<R>,
        K: Fn(&C, Vector3<R>) -> Option<Vector3<R>>,
    >(
        &self,
        post: &Self,
        inertial: I,
        project: P,
        solve: S,
        collide: K,
        term: B,
        xs: Seq<Vec<R>>,
        ds: Seq<Vec<R>>,
    ) -> bool {
        let n = self.iterations() as int;
        &&& call_ensures(inertial, (&self.system(), self.spec_cloth(), &self.impulse_term()), term)
        &&& xs.len() == n + 1
        &&& ds.len() == n + 1
        &&& xs[0]@ == self.spec_cloth().particle_positions@
        &&& ds[0]@ == self.vector_d()@
        &&& forall|m: int| 0 <= m < n ==> #[trigger] self.round(project, solve, term, xs, ds, m)
        &&& swept(self.colliders(), collide, xs[n]@, post.spec_cloth().particle_positions@)
        &&& post.spec_cloth().prev_particle_positions@ == self.spec_cloth().particle_positions@
        &&& post.vector_d()@ == ds[n]@
        &&& post.kept(self)
    }

    /// `post` is the solver `self` after one step with these kernels: the
    /// inertial term is computed from the state before the step, the
    /// positions before the step become the previous positions, the
    /// iterations alternate local projection and global solve, and the
    /// collision pass acts on the positions of the last iteration.
    pub open spec fn stepped<
        B,
        I: FnOnce(&F, &Cloth<R>, &Vec<R>) -> B,
        P: Fn(Vector3<R>, Vector3<R>, R) -> Option<Vector3<R>>,
        S: Fn(&F, &B, &Vec<R>) -> Vec<R>,
        K: Fn(&C, Vector3<R>) -> Option<Vector3<R>>,
    >(&self, post: &Self, inertial: I, project: P, solve: S, collide: K) -> bool {
        exists|term: B, xs: Seq<Vec<R>>, ds: Seq<Vec<R>>|
            self.step_trace(post, inertial, project, solve, collide, term, xs, ds)
    }

    /// Advances the cloth by one time step.
    ///
    /// `inertial` computes the inertial term from the system, the cloth and
    /// the impulse term: the momentum that the particles carry over, damped
    /// as the kernel sees fit, and the external impulse. `project` gives the entry of `d` for a spring from
    /// the positions of its endpoints and its rest length, or none where
    /// the direction is undefined; `solve` gives the new positions from the
    /// system, the inertial term and `d`, three scalars per particle;
    /// `collide` gives the point to which a collider moves a particle, or
    /// none where it leaves the particle alone.
    pub fn step<
        B,
        I: FnOnce(&F, &Cloth<R>, &Vec<R>) -> B,
        P: Fn(Vector3<R>, Vector3<R>, R) -> Option<Vector3<R>>,
        S: Fn(&F, &B, &Vec<R>) -> Vec<R>,
        K: Fn(&C, Vector3<R>) -> Option<Vector3<R>>,
    >(&mut self, inertial: I, project: &P, solve: &S, collide: &K)
        requires
            old(self).wf(),
            call_requires(
                inertial,
                (&old(self).system(), old(self).spec_cloth(), &old(self).impulse_term()),
            ),
            forall|p: Vector3<R>, q: Vector3<R>, l: R| call_requires(*project, (p, q, l)),
            forall|b: &B, d: &Vec<R>|
                d@.len() == old(self).vector_d()@.len() ==> call_requires(
                    *solve,
                    (&old(self).system(), b, d),
                ),
            forall|b: &B, d: &Vec<R>, x: Vec<R>|
                call_ensures(*solve, (&old(self).system(), b, d), x) ==> x@.len() == old(
                    self,
                ).spec_cloth().particle_positions@.len(),
            forall|c: &C, p: Vector3<R>| call_requires(*collide, (c, p)),
        ensures
            final(self).wf(),
            old(self).stepped(final(self), inertial, *project, *solve, *collide),
    {
        let ghost pre = *old(self);
        let term = inertial(&self.system, &self.cloth, &self.impulse_term);
        self.cloth.prev_particle_positions = copy_of(self.cloth.particle_positions.as_slice());
        let ghost mut xs: Seq<Vec<R>> = seq![pre.cloth.particle_positions];
        let ghost mut ds: Seq<Vec<R>> = seq![pre.vector_d];
        let mut n: usize = 0;
        while n < self.num_iterations
            invariant
                n <= self.num_iterations,
                pre.wf(),
                self.wf(),
                self.kept(&pre),
                self.cloth.prev_particle_positions@ == pre.cloth.particle_positions@,
                self.cloth.particle_positions@.len() == pre.cloth.particle_positions@.len(),
                xs.len() == n + 1,
                ds.len() == n + 1,
                xs[0]@ == pre.cloth.particle_positions@,
                ds[0]@ == pre.vector_d@,
                xs[n as int]@ == self.cloth.particle_positions@,
                ds[n as int]@ == self.vector_d@,
                forall|m: int| 0 <= m < n ==> #[trigger] pre.round(*project, *solve, term, xs, ds, m),
                forall|p: Vector3<R>, q: Vector3<R>, l: R| call_requires(*project, (p, q, l)),
                forall|b: &B, d: &Vec<R>|
                    d@.len() == pre.vector_d@.len() ==> call_requires(*solve, (&pre.system, b, d)),
                forall|b: &B, d: &Vec<R>, x: Vec<R>|
                    call_ensures(*solve, (&pre.system, b, d), x) ==> x@.len()
                        == pre.cloth.particle_positions@.len(),
            decreases self.num_iterations - n,
        {
            compute_vector_d(&self.cloth, &mut self.vector_d, project);
            let x = solve(&self.system, &term, &self.vector_d);
            proof {
                let ghost old_xs = xs;
                let ghost old_ds = ds;
                ds = ds.push(self.vector_d);
                xs = xs.push(x);
                assert forall|m: int| 0 <= m < n + 1 implies #[trigger] pre.round(
                    *project,
                    *solve,
                    term,
                    xs,
                    ds,
                    m,
                ) by {
                    if m < n {
                        assert(pre.round(*project, *solve, term, old_xs, old_ds, m));
                        assert(xs[m] == old_xs[m] && xs[m + 1] == old_xs[m + 1]);
                        assert(ds[m] == old_ds[m] && ds[m + 1] == old_ds[m + 1]);
                    }
                }
            }
            self.cloth.particle_positions = x;
            n = n + 1;
        }
        solve_collision(&mut self.cloth.particle_positions, &self.colliders, collide);
        proof {
            assert(pre.step_trace(&*self, inertial, *project, *solve, *collide, term, xs, ds));
        }
    }
}

/// `project` gives one answer for each input.
pub open spec fn project_is_function<R, P: Fn(Vector3<R>, Vector3<R>, R) -> Option<Vector3<R>>>(
    project: P,
) -> bool {
    forall|p: Vector3<R>, q: Vector3<R>, l: R, a: Option<Vector3<R>>, b: Option<Vector3<R>>|
        #![trigger call_ensures(project, (p, q, l), a), call_ensures(project, (p, q, l), b)]
        call_ensures(project, (p, q, l), a) && call_ensures(project, (p, q, l), b) ==> a == b
}

/// `collide` gives one answer for each input.
pub open spec fn collide_is_function<R, C, K: Fn(&C, Vector3<R>) -> Option<Vector3<R>>>(
    collide: K,
) -> bool {
    forall|c: &C, p: Vector3<R>, a: Option<Vector3<R>>, b: Option<Vector3<R>>|
        #![trigger call_ensures(collide, (c, p), a), call_ensures(collide, (c, p), b)]
        call_ensures(collide, (c, p), a) && call_ensures(collide, (c, p), b) ==> a == b
}

/// `solve` gives positions that depend only on the system, the inertial
/// term and the contents of `d`.
pub open spec fn solve_is_function<R, F, B, S: Fn(&F, &B, &Vec<R>) -> Vec<R>>(solve: S) -> bool {
    forall|system: &F, term: &B, d1: &Vec<R>, d2: &Vec<R>, x1: Vec<R>, x2: Vec<R>|
        #![trigger call_ensures(solve, (system, term, d1), x1), call_ensures(solve, (system, term, d2), x2)]
        d1@ == d2@ && call_ensures(solve, (system, term, d1), x1) && call_ensures(
            solve,
            (system, term, d2),
            x2,
        ) ==> x1@ == x2@
}

/// The two cloths hold the same particles and constraints.
pub open spec fn same_cloth<R>(first: &Cloth<R>, second: &Cloth<R>) -> bool {
    &&& first.particle_masses@ == second.particle_masses@
    &&& first.particle_positions@ == second.particle_positions@
    &&& first.prev_particle_positions@ == second.prev_particle_positions@
    &&& first.springs@ == second.springs@
    &&& first.attachments@ == second.attachments@
}

/// `inertial` gives an inertial term that depends only on the system and
/// the contents of the cloth and of the impulse term.
pub open spec fn inertial_is_function<R, F, B, I: FnOnce(&F, &Cloth<R>, &Vec<R>) -> B>(
    inertial: I,
) -> bool {
    forall|system: &F, c1: &Cloth<R>, c2: &Cloth<R>, i1: &Vec<R>, i2: &Vec<R>, t1: B, t2: B|
        #![trigger call_ensures(inertial, (system, c1, i1), t1), call_ensures(inertial, (system, c2, i2), t2)]
        same_cloth(c1, c2) && i1@ == i2@ && call_ensures(inertial, (system, c1, i1), t1)
            && call_ensures(inertial, (system, c2, i2), t2) ==> t1 == t2
}

/// After the collision pass every particle is where the last collider put
/// it or left it: whatever holds of every point that the last collider puts
/// a particle at, and of every point at which it leaves one alone, holds of
/// every particle.
pub proof fn lemma_sweep_ends_with_last_collider<
    R,
    C,
    K: Fn(&C, Vector3<R>) -> Option<Vector3<R>>,
>(colliders: Seq<C>, collide: K, before: Seq<R>, after: Seq<R>, clear: spec_fn(Vector3<R>) -> bool)
    requires
        swept(colliders, collide, before, after),
        colliders.len() > 0,
        forall|p: Vector3<R>, q: Vector3<R>| #[trigger]
            collide_outcome(collide, colliders.last(), p, q) ==> clear(q),
    ensures
        forall|i: int| 0 <= i < after.len() / 3 ==> clear(#[trigger] triple_at(after, i)),
{
    let history = choose|history: Seq<Seq<R>>|
        sweep_history(colliders, collide, before, after, history);
    let last = colliders.len() - 1;
    assert(collider_pass(collide, colliders[last], history[last], history[last + 1]));
    assert forall|i: int| 0 <= i < after.len() / 3 implies clear(#[trigger] triple_at(after, i)) by {
        assert(collide_outcome(
            collide,
            colliders.last(),
            triple_at(history[last], i),
            triple_at(after, i),
        ));
    }
}

/// A collider that acts in one way takes equal positions to equal positions.
pub proof fn lemma_pass_is_function<R, C, K: Fn(&C, Vector3<R>) -> Option<Vector3<R>>>(
    collide: K,
    collider: C,
    before: Seq<R>,
    first: Seq<R>,
    second: Seq<R>,
)
    requires
        collide_is_function::<R, C, K>(collide),
        collider_pass(collide, collider, before, first),
        collider_pass(collide, collider, before, second),
    ensures
        first == second,
{
    assert forall|k: int| 0 <= k < first.len() implies first[k] == second[k] by {
        if k < 3 * (before.len() / 3) {
            let i = k / 3;
            let start = triple_at(before, i);
            let t1 = triple_at(first, i);
            let t2 = triple_at(second, i);
            assert(collide_outcome(collide, collider, start, t1));
            assert(collide_outcome(collide, collider, start, t2));
            if call_ensures(collide, (&collider, start), Some(t1)) {
                if call_ensures(collide, (&collider, start), Some(t2)) {
                    assert(Some(t1) == Some(t2));
                } else {
                    assert(Some(t1) == None::<Vector3<R>>);
                }
            } else {
                if call_ensures(collide, (&collider, start), Some(t2)) {
                    assert(Some(t2) == None::<Vector3<R>>);
                }
            }
            assert(t1 == t2);
            assert(k == 3 * i || k == 3 * i + 1 || k == 3 * i + 2);
        }
    }
    assert(first =~= second);
}

/// A collision pass with a collider function that acts in one way has one
/// result.
pub proof fn lemma_sweep_is_function<R, C, K: Fn(&C, Vector3<R>) -> Option<Vector3<R>>>(
    colliders: Seq<C>,
    collide: K,
    before: Seq<R>,
    first: Seq<R>,
    second: Seq<R>,
)
    requires
        collide_is_function::<R, C, K>(collide),
        swept(colliders, collide, before, first),
        swept(colliders, collide, before, second),
    ensures
        first == second,
{
    let h1 = choose|history: Seq<Seq<R>>|
        sweep_history(colliders, collide, before, first, history);
    let h2 = choose|history: Seq<Seq<R>>|
        sweep_history(colliders, collide, before, second, history);
    lemma_histories_agree(colliders, collide, before, first, second, h1, h2, colliders.len() as int);
}

proof fn lemma_histories_agree<R, C, K: Fn(&C, Vector3<R>) -> Option<Vector3<R>>>(
    colliders: Seq<C>,
    collide: K,
    before: Seq<R>,
    first: Seq<R>,
    second: Seq<R>,
    h1: Seq<Seq<R>>,
    h2: Seq<Seq<R>>,
    k: int,
)
    requires
        collide_is_function::<R, C, K>(collide),
        sweep_history(colliders, collide, before, first, h1),
        sweep_history(colliders, collide, before, second, h2),
        0 <= k <= colliders.len(),
    ensures
        h1[k] == h2[k],
    decreases k,
{
    if k > 0 {
        lemma_histories_agree(colliders, collide, before, first, second, h1, h2, k - 1);
        assert(collider_pass(collide, colliders[k - 1], h1[k - 1], h1[k - 1 + 1]));
        assert(collider_pass(collide, colliders[k - 1], h2[k - 1], h2[k - 1 + 1]));
        lemma_pass_is_function(collide, colliders[k - 1], h1[k - 1], h1[k], h2[k]);
    }
}

/// A local projection with a projection function that acts in one way has
/// one result.
pub proof fn lemma_projected_is_function<
    R,
    P: Fn(Vector3<R>, Vector3<R>, R) -> Option<Vector3<R>>,
>(
    attachments: Seq<Attachment<R>>,
    springs: Seq<Spring<R>>,
    positions: Seq<R>,
    project: P,
    before: Seq<R>,
    first: Seq<R>,
    second: Seq<R>,
)
    requires
        project_is_function::<R, P>(project),
        projected(attachments, springs, positions, project, before, first),
        projected(attachments, springs, positions, project, before, second),
    ensures
        first == second,
{
    assert forall|k: int| 0 <= k < first.len() implies first[k] == second[k] by {
        let c = k / 3;
        let t1 = triple_at(first, c);
        let t2 = triple_at(second, c);
        if c < attachments.len() {
            assert(t1 == attachments[c].target_position);
            assert(t2 == attachments[c].target_position);
        } else {
            let s = c - attachments.len();
            let spring = springs[s];
            let start = triple_at(before, attachments.len() + s);
            assert(project_outcome(project, spring, positions, start, t1));
            assert(project_outcome(project, spring, positions, start, t2));
            let args = (
                triple_at(positions, spring.particle_index_0 as int),
                triple_at(positions, spring.particle_index_1 as int),
                spring.rest_length,
            );
            if call_ensures(project, args, Some(t1)) {
                if call_ensures(project, args, Some(t2)) {
                    assert(Some(t1) == Some(t2));
                } else {
                    assert(Some(t1) == None::<Vector3<R>>);
                }
            } else {
                if call_ensures(project, args, Some(t2)) {
                    assert(Some(t2) == None::<Vector3<R>>);
                }
            }
        }
        assert(t1 == t2);
        assert(k == 3 * c || k == 3 * c + 1 || k == 3 * c + 2);
    }
    assert(first =~= second);
}

impl<R: Copy, C, F> FastMassSpringSolver<R, C, F> {
    /// The two solvers hold the same cloth, vectors, settings, colliders and
    /// system.
    pub open spec fn same_state(&self, other: &Self) -> bool {
        &&& same_cloth(self.spec_cloth(), other.spec_cloth())
        &&& self.vector_d()@ == other.vector_d()@
        &&& self.impulse_term()@ == other.impulse_term()@
        &&& self.spec_time_step() == other.spec_time_step()
        &&& self.iterations() == other.iterations()
        &&& self.colliders() == other.colliders()
        &&& self.system() == other.system()
    }

    /// A step is deterministic: with kernels that give one answer for each
    /// input, two solvers in the same state are in the same state after a
    /// step.
    pub proof fn lemma_step_is_deterministic<
        B,
        I: FnOnce(&F, &Cloth<R>, &Vec<R>) -> B,
        P: Fn(Vector3<R>, Vector3<R>, R) -> Option<Vector3<R>>,
        S: Fn(&F, &B, &Vec<R>) -> Vec<R>,
        K: Fn(&C, Vector3<R>) -> Option<Vector3<R>>,
    >(
        first: &Self,
        second: &Self,
        first_after: &Self,
        second_after: &Self,
        inertial: I,
        project: P,
        solve: S,
        collide: K,
    )
        requires
            first.same_state(second),
            first.stepped(first_after, inertial, project, solve, collide),
            second.stepped(second_after, inertial, project, solve, collide),
            inertial_is_function::<R, F, B, I>(inertial),
            project_is_function::<R, P>(project),
            solve_is_function::<R, F, B, S>(solve),
            collide_is_function::<R, C, K>(collide),
        ensures
            first_after.same_state(second_after),
    {
        let (t1, xs1, ds1) = choose|term: B, xs: Seq<Vec<R>>, ds: Seq<Vec<R>>|
            first.step_trace(first_after, inertial, project, solve, collide, term, xs, ds);
        let (t2, xs2, ds2) = choose|term: B, xs: Seq<Vec<R>>, ds: Seq<Vec<R>>|
            second.step_trace(second_after, inertial, project, solve, collide, term, xs, ds);
        assert(t1 == t2);
        let n = first.iterations() as int;
        Self::lemma_rounds_agree(first, second, project, solve, t1, xs1, ds1, xs2, ds2, n);
        lemma_sweep_is_function(
            first.colliders(),
            collide,
            xs1[n]@,
            first_after.spec_cloth().particle_positions@,
            second_after.spec_cloth().particle_positions@,
        );
    }

    proof fn lemma_rounds_agree<
        B,
        P: Fn(Vector3<R>, Vector3<R>, R) -> Option<Vector3<R>>,
        S: Fn(&F, &B, &Vec<R>) -> Vec<R>,
    >(
        first: &Self,
        second: &Self,
        project: P,
        solve: S,
        term: B,
        xs1: Seq<Vec<R>>,
        ds1: Seq<Vec<R>>,
        xs2: Seq<Vec<R>>,
        ds2: Seq<Vec<R>>,
        m: int,
    )
        requires
            first.same_state(second),
            project_is_function::<R, P>(project),
            solve_is_function::<R, F, B, S>(solve),
            0 <= m <= first.iterations(),
            xs1[0]@ == xs2[0]@,
            ds1[0]@ == ds2[0]@,
            forall|k: int|
                0 <= k < first.iterations() ==> #[trigger] first.round(
                    project,
                    solve,
                    term,
                    xs1,
                    ds1,
                    k,
                ),
            forall|k: int|
                0 <= k < first.iterations() ==> #[trigger] second.round(
                    project,
                    solve,
                    term,
                    xs2,
                    ds2,
                    k,
                ),
        ensures
            xs1[m]@ == xs2[m]@,
            ds1[m]@ == ds2[m]@,
        decreases m,
    {
        if m > 0 {
            Self::lemma_rounds_agree(
                first,
                second,
                project,
                solve,
                term,
                xs1,
                ds1,
                xs2,
                ds2,
                m - 1,
            );
            assert(first.round(project, solve, term, xs1, ds1, m - 1));
            assert(second.round(project, solve, term, xs2, ds2, m - 1));
            lemma_projected_is_function(
                first.spec_cloth().attachments@,
                first.spec_cloth().springs@,
                xs1[m - 1]@,
                project,
                ds1[m - 1]@,
                ds1[m - 1 + 1]@,
                ds2[m - 1 + 1]@,
            );
        }
    }
}

} // verus!
