use vstd::prelude::*;
use crate::math::{triple_at, Vector3};

verus! {

/// Why an input was turned down.
#[derive(Clone, Copy, Debug, PartialEq, Eq, Structural)]
pub enum SimulationError {
    /// Lengths that do not match, or a particle index that names no particle.
    InvalidInput,
    /// The system matrix could not be factorized.
    SingularSystem,
}

/// A Hookean constraint between two particles.
#[derive(Clone, Copy, Debug)]
pub struct Spring<R> {
    pub particle_index_0: usize,
    pub particle_index_1: usize,
    pub stiffness: R,
    pub rest_length: R,
}

/// A zero-length spring from a particle to a fixed position in the world.
#[derive(Clone, Copy, Debug)]
pub struct Attachment<R> {
    pub particle_index: usize,
    pub target_position: Vector3<R>,
    pub stiffness: R,
}

/// The particle system: masses, current and previous positions as
/// concatenated `(x, y, z)` triples, and the two constraint lists.
pub struct Cloth<R> {
    pub particle_masses: Vec<R>,
    pub particle_positions: Vec<R>,
    pub prev_particle_positions: Vec<R>,
    pub springs: Vec<Spring<R>>,
    pub attachments: Vec<Attachment<R>>,
}

impl<R: Copy> Spring<R> {
    /// Both endpoints name one of `particles` particles, and they differ.
    pub open spec fn connects(&self, particles: nat) -> bool {
        &&& self.particle_index_0 < particles
        &&& self.particle_index_1 < particles
        &&& self.particle_index_0 != self.particle_index_1
    }
}

impl<R: Copy> Cloth<R> {
    /// The number of particles as a mathematical integer.
    pub open spec fn particle_count(&self) -> nat {
        self.particle_positions@.len() / 3
    }

    /// The number of constraints, attachments and springs together.
    pub open spec fn constraint_count(&self) -> nat {
        self.attachments@.len() + self.springs@.len()
    }

    /// The three vectors agree on the number of particles.
    pub open spec fn lengths_agree(&self) -> bool {
        &&& self.particle_positions@.len() == 3 * self.particle_masses@.len()
        &&& self.prev_particle_positions@.len() == self.particle_positions@.len()
    }

    /// Every spring joins two different particles of this cloth and every
    /// attachment holds one of them.
    pub open spec fn indices_valid(&self) -> bool {
        &&& forall|k: int|
            0 <= k < self.springs@.len() ==> (#[trigger] self.springs@[k]).connects(
                self.particle_count(),
            )
        &&& forall|k: int|
            0 <= k < self.attachments@.len() ==> (#[trigger] self.attachments@[k]).particle_index
                < self.particle_count()
    }

    /// The invariant a solver relies on.
    pub open spec fn wf(&self) -> bool {
        self.lengths_agree() && self.indices_valid()
    }

    /// The position of particle `index`.
    pub open spec fn position(&self, index: int) -> Vector3<R> {
        triple_at(self.particle_positions@, index)
    }

    /// A cloth of unconnected particles at rest: no springs, no attachments,
    /// previous positions equal to the current ones. The input is turned
    /// down exactly when `positions` does not hold three scalars per mass.
    pub fn from_slice(masses: &[R], positions: &[R]) -> (result: Result<Self, SimulationError>)
        ensures
            masses@.len() * 3 != positions@.len() ==> result == Err::<Self, SimulationError>(
                SimulationError::InvalidInput,
            ),
            masses@.len() * 3 == positions@.len() ==> (result matches Ok(cloth) && {
                &&& cloth.particle_masses@ == masses@
                &&& cloth.particle_positions@ == positions@
                &&& cloth.prev_particle_positions@ == positions@
                &&& cloth.springs@.len() == 0
                &&& cloth.attachments@.len() == 0
                &&& cloth.wf()
            }),
    {
        if positions.len() % 3 != 0 || positions.len() / 3 != masses.len() {
            return Err(SimulationError::InvalidInput);
        }
        let particle_masses = copy_of(masses);
        let particle_positions = copy_of(positions);
        let prev_particle_positions = copy_of(positions);
        Ok(
            Cloth {
                particle_masses,
                particle_positions,
                prev_particle_positions,
                springs: Vec::new(),
                attachments: Vec::new(),
            },
        )
    }

    /// Appends `springs` after the springs already present, in order.
    pub fn add_springs(&mut self, springs: Vec<Spring<R>>)
        ensures
            final(self).springs@ == old(self).springs@ + springs@,
            final(self).attachments@ == old(self).attachments@,
            final(self).particle_masses@ == old(self).particle_masses@,
            final(self).particle_positions@ == old(self).particle_positions@,
            final(self).prev_particle_positions@ == old(self).prev_particle_positions@,
    {
        let mut k: usize = 0;
        while k < springs.len()
            invariant
                k <= springs@.len(),
                self.springs@ == old(self).springs@ + springs@.take(k as int),
                self.attachments@ == old(self).attachments@,
                self.particle_masses@ == old(self).particle_masses@,
                self.particle_positions@ == old(self).particle_positions@,
                self.prev_particle_positions@ == old(self).prev_particle_positions@,
            decreases springs@.len() - k,
        {
            self.springs.push(springs[k]);
            k = k + 1;
        }
        assert(springs@.take(springs@.len() as int) == springs@);
    }

    /// Appends `attachments` after the attachments already present, in order.
    pub fn add_attachments(&mut self, attachments: Vec<Attachment<R>>)
        ensures
            final(self).attachments@ == old(self).attachments@ + attachments@,
            final(self).springs@ == old(self).springs@,
            final(self).particle_masses@ == old(self).particle_masses@,
            final(self).particle_positions@ == old(self).particle_positions@,
            final(self).prev_particle_positions@ == old(self).prev_particle_positions@,
    {
        let mut k: usize = 0;
        while k < attachments.len()
            invariant
                k <= attachments@.len(),
                self.attachments@ == old(self).attachments@ + attachments@.take(k as int),
                self.springs@ == old(self).springs@,
                self.particle_masses@ == old(self).particle_masses@,
                self.particle_positions@ == old(self).particle_positions@,
                self.prev_particle_positions@ == old(self).prev_particle_positions@,
            decreases attachments@.len() - k,
        {
            self.attachments.push(attachments[k]);
            k = k + 1;
        }
        assert(attachments@.take(attachments@.len() as int) == attachments@);
    }

    #[verifier::when_used_as_spec(particle_count_usize)]
    pub fn num_particles(&self) -> (n: usize)
        ensures
            n == self.particle_count(),
    {
        self.particle_positions.len() / 3
    }

    pub fn num_springs(&self) -> (n: usize)
        ensures
            n == self.springs@.len(),
    {
        self.springs.len()
    }

    /// The number of constraints. The two lists together must not hold more
    /// entries than a `usize` can count.
    pub fn num_constraints(&self) -> (n: usize)
        requires
            self.constraint_count() <= usize::MAX,
        ensures
            n == self.constraint_count(),
    {
        self.num_springs() + self.attachments.len()
    }

    pub fn get_particle_position(&self, index: usize) -> (p: Vector3<R>)
        requires
            index < self.particle_count(),
        ensures
            p == self.position(index as int),
    {
        let len: usize = self.particle_positions.len();
        assert(index * 3 + 2 < len);
        let x = self.particle_positions[index * 3];
        let y = self.particle_positions[index * 3 + 1];
        let z = self.particle_positions[index * 3 + 2];
        Vector3::new(x, y, z)
    }

    pub open spec fn particle_count_usize(&self) -> usize {
        (self.particle_positions@.len() / 3) as usize
    }

    /// Checks the invariant that a solver relies on, and turns the cloth
    /// down exactly when it fails.
    pub fn validate(&self) -> (result: Result<(), SimulationError>)
        ensures
            self.wf() ==> result == Ok::<(), SimulationError>(()),
            !self.wf() ==> result == Err::<(), SimulationError>(SimulationError::InvalidInput),
    {
        if self.particle_positions.len() % 3 != 0 || self.particle_positions.len() / 3
            != self.particle_masses.len() || self.prev_particle_positions.len()
            != self.particle_positions.len() {
            return Err(SimulationError::InvalidInput);
        }
        let particles: usize = self.particle_positions.len() / 3;
        let mut k: usize = 0;
        while k < self.springs.len()
            invariant
                k <= self.springs@.len(),
                particles == self.particle_count(),
                forall|m: int|
                    0 <= m < k ==> (#[trigger] self.springs@[m]).connects(self.particle_count()),
            decreases self.springs@.len() - k,
        {
            let spring = &self.springs[k];
            if spring.particle_index_0 >= particles || spring.particle_index_1 >= particles
                || spring.particle_index_0 == spring.particle_index_1 {
                assert(!self.springs@[k as int].connects(self.particle_count()));
                return Err(SimulationError::InvalidInput);
            }
            k = k + 1;
        }
        let mut a: usize = 0;
        while a < self.attachments.len()
            invariant
                a <= self.attachments@.len(),
                particles == self.particle_count(),
                forall|m: int|
                    0 <= m < a ==> (#[trigger] self.attachments@[m]).particle_index
                        < self.particle_count(),
            decreases self.attachments@.len() - a,
        {
            if self.attachments[a].particle_index >= particles {
                assert(!(self.attachments@[a as int].particle_index < self.particle_count()));
                return Err(SimulationError::InvalidInput);
            }
            a = a + 1;
        }
        Ok(())
    }
}

/// A vector holding the elements of `source` in order.
pub fn copy_of<R: Copy>(source: &[R]) -> (copy: Vec<R>)
    ensures
        copy@ == source@,
{
    let mut copy: Vec<R> = Vec::with_capacity(source.len());
    let mut k: usize = 0;
    while k < source.len()
        invariant
            k <= source@.len(),
            copy@ == source@.take(k as int),
        decreases source@.len() - k,
    {
        copy.push(source[k]);
        k = k + 1;
    }
    assert(source@.take(source@.len() as int) == source@);
    copy
}

} // verus!
