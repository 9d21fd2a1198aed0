use vstd::prelude::*;
use crate::cloth::{Attachment, Cloth, Spring};

verus! {

/// One 3x3 block `±value·I₃` of a block matrix, at block row `row` and block
/// column `column`.
#[derive(Clone, Copy, Debug)]
pub struct BlockTerm<R> {
    pub row: usize,
    pub column: usize,
    pub value: R,
    pub negated: bool,
}

/// The constraint at a position of the constraint order: the attachments in
/// their order, then the springs in theirs.
#[derive(Clone, Copy, Debug, PartialEq, Eq, Structural)]
pub enum Constraint {
    /// The attachment at this position of the attachment list.
    Attachment(usize),
    /// The spring at this position of the spring list.
    Spring(usize),
}

/// The constraint with number `index` among `attachments` attachments
/// followed by springs.
pub open spec fn constraint_at(attachments: nat, index: nat) -> Constraint {
    if index < attachments {
        Constraint::Attachment(index as usize)
    } else {
        Constraint::Spring((index - attachments) as usize)
    }
}

/// The blocks of the mass matrix: `mᵢ·I₃` on the diagonal at particle `i`.
pub open spec fn mass_terms<R>(masses: Seq<R>) -> Seq<BlockTerm<R>> {
    Seq::new(
        masses.len(),
        |i: int| BlockTerm { row: i as usize, column: i as usize, value: masses[i], negated: false },
    )
}

/// What the attachments add to the Laplacian: `k·I₃` on the diagonal at the
/// attached particle.
pub open spec fn attachment_laplacian<R>(attachments: Seq<Attachment<R>>) -> Seq<BlockTerm<R>> {
    Seq::new(
        attachments.len(),
        |c: int|
            BlockTerm {
                row: attachments[c].particle_index,
                column: attachments[c].particle_index,
                value: attachments[c].stiffness,
                negated: false,
            },
    )
}

/// Term `part` (0 to 3) of what a spring between `a` and `b` adds to the
/// Laplacian: `k·I₃` at `(a, a)` and at `(b, b)`, then `−k·I₃` at `(a, b)`
/// and at `(b, a)`.
pub open spec fn spring_laplacian_term<R>(spring: Spring<R>, part: int) -> BlockTerm<R> {
    let a = spring.particle_index_0;
    let b = spring.particle_index_1;
    if part == 0 {
        BlockTerm { row: a, column: a, value: spring.stiffness, negated: false }
    } else if part == 1 {
        BlockTerm { row: b, column: b, value: spring.stiffness, negated: false }
    } else if part == 2 {
        BlockTerm { row: a, column: b, value: spring.stiffness, negated: true }
    } else {
        BlockTerm { row: b, column: a, value: spring.stiffness, negated: true }
    }
}

/// What the springs add to the Laplacian, four terms per spring.
pub open spec fn spring_laplacian<R>(springs: Seq<Spring<R>>) -> Seq<BlockTerm<R>> {
    Seq::new(4 * springs.len(), |k: int| spring_laplacian_term(springs[k / 4], k % 4))
}

/// The terms whose sum, block by block, is the Laplacian.
pub open spec fn laplacian_terms<R>(cloth: &Cloth<R>) -> Seq<BlockTerm<R>> {
    attachment_laplacian(cloth.attachments@) + spring_laplacian(cloth.springs@)
}

/// The block of the Jacobian for an attachment: `k·I₃` at the attached
/// particle, in the column of the attachment.
pub open spec fn attachment_jacobian<R>(attachments: Seq<Attachment<R>>) -> Seq<BlockTerm<R>> {
    Seq::new(
        attachments.len(),
        |c: int|
            BlockTerm {
                row: attachments[c].particle_index,
                column: c as usize,
                value: attachments[c].stiffness,
                negated: false,
            },
    )
}

/// The two blocks of the Jacobian for each spring, in the column of the
/// spring, which follows `offset` earlier columns: `k·I₃` at the first
/// endpoint, then `−k·I₃` at the second.
pub open spec fn spring_jacobian<R>(springs: Seq<Spring<R>>, offset: nat) -> Seq<BlockTerm<R>> {
    Seq::new(
        2 * springs.len(),
        |k: int|
            if k % 2 == 0 {
                BlockTerm {
                    row: springs[k / 2].particle_index_0,
                    column: (offset + k / 2) as usize,
                    value: springs[k / 2].stiffness,
                    negated: false,
                }
            } else {
                BlockTerm {
                    row: springs[k / 2].particle_index_1,
                    column: (offset + k / 2) as usize,
                    value: springs[k / 2].stiffness,
                    negated: true,
                }
            },
    )
}

/// The blocks of the Jacobian, written in this order; every other block is
/// zero. Column `c` belongs to constraint `c` of the constraint order.
pub open spec fn jacobian_terms<R>(cloth: &Cloth<R>) -> Seq<BlockTerm<R>> {
    attachment_jacobian(cloth.attachments@) + spring_jacobian(
        cloth.springs@,
        cloth.attachments@.len(),
    )
}

impl<R: Copy> Cloth<R> {
    /// The constraint with number `index`: attachments come first, springs
    /// after them.
    pub fn constraint(&self, index: usize) -> (constraint: Constraint)
        requires
            index < self.constraint_count(),
        ensures
            constraint == constraint_at(self.attachments@.len(), index as nat),
            constraint matches Constraint::Attachment(a) ==> a < self.attachments@.len(),
            constraint matches Constraint::Spring(s) ==> s < self.springs@.len(),
    {
        if index < self.attachments.len() {
            Constraint::Attachment(index)
        } else {
            Constraint::Spring(index - self.attachments.len())
        }
    }
}

/// The mass matrix `M` as its diagonal blocks, particle by particle.
pub fn compute_matrix_m<R: Copy>(cloth: &Cloth<R>) -> (terms: Vec<BlockTerm<R>>)
    ensures
        terms@ == mass_terms(cloth.particle_masses@),
{
    let mut terms: Vec<BlockTerm<R>> = Vec::new();
    let mut i: usize = 0;
    while i < cloth.particle_masses.len()
        invariant
            i <= cloth.particle_masses@.len(),
            terms@ == mass_terms(cloth.particle_masses@.take(i as int)),
        decreases cloth.particle_masses@.len() - i,
    {
        terms.push(
            BlockTerm { row: i, column: i, value: cloth.particle_masses[i], negated: false },
        );
        assert(terms@ =~= mass_terms(cloth.particle_masses@.take(i + 1)));
        i = i + 1;
    }
    assert(cloth.particle_masses@.take(cloth.particle_masses@.len() as int)
        == cloth.particle_masses@);
    terms
}

/// The Laplacian `L` as the terms that are added into it: the attachments
/// in their order, then the springs in theirs, four terms each.
pub fn compute_matrix_l<R: Copy>(cloth: &Cloth<R>) -> (terms: Vec<BlockTerm<R>>)
    ensures
        terms@ == laplacian_terms(cloth),
{
    let mut terms: Vec<BlockTerm<R>> = Vec::new();
    let mut c: usize = 0;
    while c < cloth.attachments.len()
        invariant
            c <= cloth.attachments@.len(),
            terms@ == attachment_laplacian(cloth.attachments@.take(c as int)),
        decreases cloth.attachments@.len() - c,
    {
        let attachment = &cloth.attachments[c];
        let k = attachment.stiffness;
        let i: usize = attachment.particle_index;
        terms.push(BlockTerm { row: i, column: i, value: k, negated: false });
        assert(terms@ =~= attachment_laplacian(cloth.attachments@.take(c + 1)));
        c = c + 1;
    }
    assert(cloth.attachments@.take(cloth.attachments@.len() as int) == cloth.attachments@);
    let ghost head = terms@;
    let mut s: usize = 0;
    while s < cloth.springs.len()
        invariant
            s <= cloth.springs@.len(),
            terms@ == head + spring_laplacian(cloth.springs@.take(s as int)),
        decreases cloth.springs@.len() - s,
    {
        let spring = &cloth.springs[s];
        let k = spring.stiffness;
        let i: usize = spring.particle_index_0;
        let j: usize = spring.particle_index_1;
        terms.push(BlockTerm { row: i, column: i, value: k, negated: false });
        terms.push(BlockTerm { row: j, column: j, value: k, negated: false });
        terms.push(BlockTerm { row: i, column: j, value: k, negated: true });
        terms.push(BlockTerm { row: j, column: i, value: k, negated: true });
        assert(terms@ =~= head + spring_laplacian(cloth.springs@.take(s + 1)));
        s = s + 1;
    }
    assert(cloth.springs@.take(cloth.springs@.len() as int) == cloth.springs@);
    terms
}

/// The Jacobian `J` as its blocks in the order in which they are written:
/// one per attachment, then two per spring, each in the column of its
/// constraint. The constraints must be countable in a `usize`.
pub fn compute_matrix_j<R: Copy>(cloth: &Cloth<R>) -> (terms: Vec<BlockTerm<R>>)
    requires
        cloth.constraint_count() <= usize::MAX,
    ensures
        terms@ == jacobian_terms(cloth),
{
    let mut terms: Vec<BlockTerm<R>> = Vec::new();
    let mut constraint_index: usize = 0;
    while constraint_index < cloth.attachments.len()
        invariant
            constraint_index <= cloth.attachments@.len(),
            terms@ == attachment_jacobian(cloth.attachments@.take(constraint_index as int)),
        decreases cloth.attachments@.len() - constraint_index,
    {
        let attachment = &cloth.attachments[constraint_index];
        terms.push(
            BlockTerm {
                row: attachment.particle_index,
                column: constraint_index,
                value: attachment.stiffness,
                negated: false,
            },
        );
        assert(terms@ =~= attachment_jacobian(cloth.attachments@.take(constraint_index + 1)));
        constraint_index = constraint_index + 1;
    }
    assert(cloth.attachments@.take(cloth.attachments@.len() as int) == cloth.attachments@);
    let ghost head = terms@;
    let offset: usize = cloth.attachments.len();
    let mut s: usize = 0;
    while s < cloth.springs.len()
        invariant
            s <= cloth.springs@.len(),
            offset == cloth.attachments@.len(),
            constraint_index == offset + s,
            cloth.constraint_count() <= usize::MAX,
            terms@ == head + spring_jacobian(cloth.springs@.take(s as int), offset as nat),
        decreases cloth.springs@.len() - s,
    {
        let spring = &cloth.springs[s];
        let k = spring.stiffness;
        terms.push(
            BlockTerm {
                row: spring.particle_index_0,
                column: constraint_index,
                value: k,
                negated: false,
            },
        );
        terms.push(
            BlockTerm {
                row: spring.particle_index_1,
                column: constraint_index,
                value: k,
                negated: true,
            },
        );
        assert(terms@ =~= head + spring_jacobian(cloth.springs@.take(s + 1), offset as nat));
        constraint_index = constraint_index + 1;
        s = s + 1;
    }
    assert(cloth.springs@.take(cloth.springs@.len() as int) == cloth.springs@);
    terms
}

} // verus!
