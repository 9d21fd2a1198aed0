use vstd::prelude::*;
use vstd::seq_lib::{commutative_foldl, lemma_fold_left_permutation};
use crate::assembly::{
    attachment_jacobian, attachment_laplacian, jacobian_terms, laplacian_terms, mass_terms,
    spring_jacobian, spring_laplacian, spring_laplacian_term, BlockTerm,
};
use crate::cloth::{Attachment, Cloth, Spring};

verus! {

/// The sum of `weight` over the elements of `s`.
pub open spec fn sum_of<T>(s: Seq<T>, weight: spec_fn(T) -> int) -> int
    decreases s.len(),
{
    if s.len() == 0 {
        0
    } else {
        sum_of(s.drop_last(), weight) + weight(s.last())
    }
}

/// The sum over a concatenation is the sum of the sums.
pub proof fn lemma_sum_concat<T>(a: Seq<T>, b: Seq<T>, weight: spec_fn(T) -> int)
    ensures
        sum_of(a + b, weight) == sum_of(a, weight) + sum_of(b, weight),
    decreases b.len(),
{
    if b.len() == 0 {
        assert(a + b == a);
    } else {
        assert((a + b).drop_last() == a + b.drop_last());
        assert((a + b).last() == b.last());
        lemma_sum_concat(a, b.drop_last(), weight);
    }
}

/// A sum of weights that are not negative is not negative, and no smaller
/// than any one of them.
pub proof fn lemma_sum_bounds<T>(s: Seq<T>, weight: spec_fn(T) -> int, index: int)
    requires
        forall|k: int| 0 <= k < s.len() ==> weight(#[trigger] s[k]) >= 0,
    ensures
        sum_of(s, weight) >= 0,
        0 <= index < s.len() ==> sum_of(s, weight) >= weight(s[index]),
    decreases s.len(),
{
    if s.len() > 0 {
        let init = s.drop_last();
        assert forall|k: int| 0 <= k < init.len() implies weight(#[trigger] init[k]) >= 0 by {
            assert(init[k] == s[k]);
        }
        lemma_sum_bounds(init, weight, index);
        assert(weight(s[s.len() - 1]) >= 0);
        if 0 <= index < init.len() {
            assert(init[index] == s[index]);
        }
    }
}

/// The sum does not depend on the order of the elements.
pub proof fn lemma_sum_permutation<T>(s: Seq<T>, t: Seq<T>, weight: spec_fn(T) -> int)
    requires
        s.to_multiset() == t.to_multiset(),
    ensures
        sum_of(s, weight) == sum_of(t, weight),
{
    let f = |acc: int, x: T| acc + weight(x);
    assert(commutative_foldl(f));
    lemma_sum_is_fold(s, weight, f);
    lemma_sum_is_fold(t, weight, f);
    lemma_fold_left_permutation(s, t, f, 0int);
}

proof fn lemma_sum_is_fold<T>(s: Seq<T>, weight: spec_fn(T) -> int, f: spec_fn(int, T) -> int)
    requires
        forall|acc: int, x: T| #[trigger] f(acc, x) == acc + weight(x),
    ensures
        sum_of(s, weight) == s.fold_left(0int, f),
    decreases s.len(),
{
    if s.len() > 0 {
        lemma_sum_is_fold(s.drop_last(), weight, f);
    }
}

/// The sum over the terms of the attachments is the sum, over the
/// attachments, of the weight of the term of each.
pub proof fn lemma_sum_attachment_terms<R>(
    attachments: Seq<Attachment<R>>,
    weight: spec_fn(BlockTerm<R>) -> int,
    each: spec_fn(Attachment<R>) -> int,
)
    requires
        forall|a: Attachment<R>| #[trigger]
            each(a) == weight(
                BlockTerm {
                    row: a.particle_index,
                    column: a.particle_index,
                    value: a.stiffness,
                    negated: false,
                },
            ),
    ensures
        sum_of(attachment_laplacian(attachments), weight) == sum_of(attachments, each),
    decreases attachments.len(),
{
    if attachments.len() > 0 {
        let terms = attachment_laplacian(attachments);
        assert(terms.drop_last() =~= attachment_laplacian(attachments.drop_last()));
        lemma_sum_attachment_terms(attachments.drop_last(), weight, each);
    }
}

/// The sum over the terms of the springs is the sum, over the springs, of
/// the weights of the four terms of each.
pub proof fn lemma_sum_spring_terms<R>(
    springs: Seq<Spring<R>>,
    weight: spec_fn(BlockTerm<R>) -> int,
    each: spec_fn(Spring<R>) -> int,
)
    requires
        forall|s: Spring<R>| #[trigger]
            each(s) == weight(spring_laplacian_term(s, 0)) + weight(spring_laplacian_term(s, 1))
                + weight(spring_laplacian_term(s, 2)) + weight(spring_laplacian_term(s, 3)),
    ensures
        sum_of(spring_laplacian(springs), weight) == sum_of(springs, each),
    decreases springs.len(),
{
    if springs.len() > 0 {
        let last = springs.last();
        let n = springs.len() - 1;
        let t4 = spring_laplacian(springs);
        let t3 = t4.drop_last();
        let t2 = t3.drop_last();
        let t1 = t2.drop_last();
        let t0 = t1.drop_last();
        assert(t0 =~= spring_laplacian(springs.drop_last()));
        assert(t4.last() == spring_laplacian_term(last, 3)) by {
            assert((4 * n + 3) / 4 == n && (4 * n + 3) % 4 == 3);
        }
        assert(t3.last() == spring_laplacian_term(last, 2)) by {
            assert((4 * n + 2) / 4 == n && (4 * n + 2) % 4 == 2);
        }
        assert(t2.last() == spring_laplacian_term(last, 1)) by {
            assert((4 * n + 1) / 4 == n && (4 * n + 1) % 4 == 1);
        }
        assert(t1.last() == spring_laplacian_term(last, 0)) by {
            assert((4 * n) / 4 == n && (4 * n) % 4 == 0);
        }
        lemma_sum_spring_terms(springs.drop_last(), weight, each);
        assert(t4.len() == 4 * n + 4);
        assert(t3.len() == 4 * n + 3);
        assert(t2.len() == 4 * n + 2);
        assert(t1.len() == 4 * n + 1);
        assert(sum_of(t4, weight) == sum_of(t3, weight) + weight(t4.last()));
        assert(sum_of(t3, weight) == sum_of(t2, weight) + weight(t3.last()));
        assert(sum_of(t2, weight) == sum_of(t1, weight) + weight(t2.last()));
        assert(sum_of(t1, weight) == sum_of(t0, weight) + weight(t1.last()));
        assert(sum_of(springs, each) == sum_of(springs.drop_last(), each) + each(last));
    }
}

/// The value of a term when scalars are read as integers by `value`.
pub open spec fn signed<R>(term: BlockTerm<R>, value: spec_fn(R) -> int) -> int {
    if term.negated {
        -value(term.value)
    } else {
        value(term.value)
    }
}

/// What `term` adds to the block at `(row, column)`.
pub open spec fn block_weight<R>(value: spec_fn(R) -> int, row: int, column: int) -> spec_fn(
    BlockTerm<R>,
) -> int {
    |term: BlockTerm<R>|
        if term.row == row && term.column == column {
            signed(term, value)
        } else {
            0
        }
}

/// What `term` adds to the quadratic form at the vector `x`, which holds one
/// number per particle.
pub open spec fn form_weight<R>(value: spec_fn(R) -> int, x: spec_fn(int) -> int) -> spec_fn(
    BlockTerm<R>,
) -> int {
    |term: BlockTerm<R>| signed(term, value) * x(term.row as int) * x(term.column as int)
}

/// The coefficient of `I₃` in block `(row, column)` of the matrix that is the
/// sum of `terms`, in exact arithmetic, with scalars read as integers by
/// `value`.
pub open spec fn block_sum<R>(
    terms: Seq<BlockTerm<R>>,
    value: spec_fn(R) -> int,
    row: int,
    column: int,
) -> int {
    sum_of(terms, block_weight(value, row, column))
}

/// The quadratic form `xᵀ·A·x` of the matrix `A` that is the sum of `terms`,
/// in exact arithmetic, with scalars read as integers by `value`, along one
/// coordinate axis.
pub open spec fn quadratic_form<R>(
    terms: Seq<BlockTerm<R>>,
    value: spec_fn(R) -> int,
    x: spec_fn(int) -> int,
) -> int {
    sum_of(terms, form_weight(value, x))
}

/// No stiffness of the cloth is negative when read by `value`.
pub open spec fn stiffness_not_negative<R>(cloth: &Cloth<R>, value: spec_fn(R) -> int) -> bool {
    &&& forall|k: int|
        0 <= k < cloth.attachments@.len() ==> value((#[trigger] cloth.attachments@[k]).stiffness)
            >= 0
    &&& forall|k: int|
        0 <= k < cloth.springs@.len() ==> value((#[trigger] cloth.springs@[k]).stiffness) >= 0
}

/// Every mass of the cloth is positive when read by `value`.
pub open spec fn masses_positive<R>(cloth: &Cloth<R>, value: spec_fn(R) -> int) -> bool {
    forall|i: int|
        0 <= i < cloth.particle_masses@.len() ==> value(#[trigger] cloth.particle_masses@[i]) > 0
}

/// The mass matrix is diagonal: off the diagonal every block is zero, so the
/// matrix is symmetric.
pub proof fn lemma_mass_matrix_diagonal<R>(
    masses: Seq<R>,
    value: spec_fn(R) -> int,
    row: int,
    column: int,
)
    requires
        row != column,
    ensures
        block_sum(mass_terms(masses), value, row, column) == 0,
        block_sum(mass_terms(masses), value, row, column) == block_sum(
            mass_terms(masses),
            value,
            column,
            row,
        ),
    decreases masses.len(),
{
    if masses.len() > 0 {
        assert(mass_terms(masses).drop_last() =~= mass_terms(masses.drop_last()));
        lemma_mass_matrix_diagonal(masses.drop_last(), value, row, column);
        lemma_mass_matrix_diagonal(masses.drop_last(), value, column, row);
    }
}

/// The Laplacian is symmetric: block `(i, j)` equals block `(j, i)`.
pub proof fn lemma_laplacian_symmetric<R>(
    cloth: &Cloth<R>,
    value: spec_fn(R) -> int,
    row: int,
    column: int,
)
    ensures
        block_sum(laplacian_terms(cloth), value, row, column) == block_sum(
            laplacian_terms(cloth),
            value,
            column,
            row,
        ),
{
    let forward = block_weight::<R>(value, row, column);
    let backward = block_weight::<R>(value, column, row);
    let attachment_each = |a: Attachment<R>|
        forward(
            BlockTerm {
                row: a.particle_index,
                column: a.particle_index,
                value: a.stiffness,
                negated: false,
            },
        );
    let attachment_back = |a: Attachment<R>|
        backward(
            BlockTerm {
                row: a.particle_index,
                column: a.particle_index,
                value: a.stiffness,
                negated: false,
            },
        );
    let spring_each = |s: Spring<R>|
        forward(spring_laplacian_term(s, 0)) + forward(spring_laplacian_term(s, 1)) + forward(
            spring_laplacian_term(s, 2),
        ) + forward(spring_laplacian_term(s, 3));
    let spring_back = |s: Spring<R>|
        backward(spring_laplacian_term(s, 0)) + backward(spring_laplacian_term(s, 1)) + backward(
            spring_laplacian_term(s, 2),
        ) + backward(spring_laplacian_term(s, 3));
    let a = cloth.attachments@;
    let s = cloth.springs@;
    lemma_sum_concat(attachment_laplacian(a), spring_laplacian(s), forward);
    lemma_sum_concat(attachment_laplacian(a), spring_laplacian(s), backward);
    lemma_sum_attachment_terms(a, forward, attachment_each);
    lemma_sum_attachment_terms(a, backward, attachment_back);
    lemma_sum_spring_terms(s, forward, spring_each);
    lemma_sum_spring_terms(s, backward, spring_back);
    lemma_sum_equal(a, attachment_each, attachment_back);
    lemma_sum_equal(s, spring_each, spring_back);
}

/// Sums of weights that agree on every element agree.
pub proof fn lemma_sum_equal<T>(s: Seq<T>, first: spec_fn(T) -> int, second: spec_fn(T) -> int)
    requires
        forall|x: T| #[trigger] first(x) == second(x),
    ensures
        sum_of(s, first) == sum_of(s, second),
    decreases s.len(),
{
    if s.len() > 0 {
        lemma_sum_equal(s.drop_last(), first, second);
    }
}

/// The Laplacian is positive semidefinite: with no negative stiffness its
/// quadratic form is not negative at any vector.
pub proof fn lemma_laplacian_positive_semidefinite<R>(
    cloth: &Cloth<R>,
    value: spec_fn(R) -> int,
    x: spec_fn(int) -> int,
)
    requires
        stiffness_not_negative(cloth, value),
    ensures
        quadratic_form(laplacian_terms(cloth), value, x) >= 0,
{
    let weight = form_weight::<R>(value, x);
    let attachment_each = |a: Attachment<R>|
        weight(
            BlockTerm {
                row: a.particle_index,
                column: a.particle_index,
                value: a.stiffness,
                negated: false,
            },
        );
    let spring_each = |s: Spring<R>|
        weight(spring_laplacian_term(s, 0)) + weight(spring_laplacian_term(s, 1)) + weight(
            spring_laplacian_term(s, 2),
        ) + weight(spring_laplacian_term(s, 3));
    let a = cloth.attachments@;
    let s = cloth.springs@;
    lemma_sum_concat(attachment_laplacian(a), spring_laplacian(s), weight);
    lemma_sum_attachment_terms(a, weight, attachment_each);
    lemma_sum_spring_terms(s, weight, spring_each);
    assert forall|k: int| 0 <= k < a.len() implies attachment_each(#[trigger] a[k]) >= 0 by {
        let v = value(a[k].stiffness);
        let xi = x(a[k].particle_index as int);
        assert(v * xi * xi >= 0) by (nonlinear_arith)
            requires
                v >= 0,
        ;
    }
    assert forall|k: int| 0 <= k < s.len() implies spring_each(#[trigger] s[k]) >= 0 by {
        let v = value(s[k].stiffness);
        let xa = x(s[k].particle_index_0 as int);
        let xb = x(s[k].particle_index_1 as int);
        assert(v * xa * xa + v * xb * xb + (-v) * xa * xb + (-v) * xb * xa >= 0)
            by (nonlinear_arith)
            requires
                v >= 0,
        ;
    }
    lemma_sum_bounds(a, attachment_each, 0);
    lemma_sum_bounds(s, spring_each, 0);
}

/// The system matrix `M + h²·L` is positive definite: with positive masses,
/// no negative stiffness and a positive `h²`, its quadratic form is positive
/// at every vector that is not zero at some particle.
pub proof fn lemma_system_positive_definite<R>(
    cloth: &Cloth<R>,
    value: spec_fn(R) -> int,
    h2: int,
    x: spec_fn(int) -> int,
    particle: usize,
)
    requires
        masses_positive(cloth, value),
        stiffness_not_negative(cloth, value),
        h2 > 0,
        particle < cloth.particle_masses@.len(),
        x(particle as int) != 0,
    ensures
        quadratic_form(mass_terms(cloth.particle_masses@), value, x) + h2 * quadratic_form(
            laplacian_terms(cloth),
            value,
            x,
        ) > 0,
{
    let weight = form_weight::<R>(value, x);
    let terms = mass_terms(cloth.particle_masses@);
    assert forall|k: int| 0 <= k < terms.len() implies weight(#[trigger] terms[k]) >= 0 by {
        let m = value(cloth.particle_masses@[k]);
        let xk = x(terms[k].row as int);
        assert(m * xk * xk >= 0) by (nonlinear_arith)
            requires
                m > 0,
        ;
    }
    lemma_sum_bounds(terms, weight, particle as int);
    let m = value(cloth.particle_masses@[particle as int]);
    let xp = x(particle as int);
    assert(m * xp * xp > 0) by (nonlinear_arith)
        requires
            m > 0,
            xp != 0,
    ;
    lemma_laplacian_positive_semidefinite(cloth, value, x);
    let form = quadratic_form(laplacian_terms(cloth), value, x);
    assert(h2 * form >= 0) by (nonlinear_arith)
        requires
            h2 > 0,
            form >= 0,
    ;
}

/// The system matrix `M + h²·L` is symmetric.
pub proof fn lemma_system_symmetric<R>(
    cloth: &Cloth<R>,
    value: spec_fn(R) -> int,
    h2: int,
    row: int,
    column: int,
)
    ensures
        block_sum(mass_terms(cloth.particle_masses@), value, row, column) + h2 * block_sum(
            laplacian_terms(cloth),
            value,
            row,
            column,
        ) == block_sum(mass_terms(cloth.particle_masses@), value, column, row) + h2 * block_sum(
            laplacian_terms(cloth),
            value,
            column,
            row,
        ),
{
    lemma_laplacian_symmetric(cloth, value, row, column);
    if row != column {
        lemma_mass_matrix_diagonal(cloth.particle_masses@, value, row, column);
    }
}

/// The Laplacian does not depend on the order of the springs: two cloths
/// with the same attachments whose spring lists are permutations of each
/// other have the same Laplacian, block by block.
pub proof fn lemma_spring_order_leaves_laplacian<R>(
    cloth: &Cloth<R>,
    permuted: &Cloth<R>,
    value: spec_fn(R) -> int,
    row: int,
    column: int,
)
    requires
        permuted.attachments@ == cloth.attachments@,
        permuted.springs@.to_multiset() == cloth.springs@.to_multiset(),
    ensures
        block_sum(laplacian_terms(permuted), value, row, column) == block_sum(
            laplacian_terms(cloth),
            value,
            row,
            column,
        ),
{
    let weight = block_weight::<R>(value, row, column);
    let spring_each = |s: Spring<R>|
        weight(spring_laplacian_term(s, 0)) + weight(spring_laplacian_term(s, 1)) + weight(
            spring_laplacian_term(s, 2),
        ) + weight(spring_laplacian_term(s, 3));
    let a = cloth.attachments@;
    lemma_sum_concat(attachment_laplacian(a), spring_laplacian(cloth.springs@), weight);
    lemma_sum_concat(attachment_laplacian(a), spring_laplacian(permuted.springs@), weight);
    lemma_sum_spring_terms(cloth.springs@, weight, spring_each);
    lemma_sum_spring_terms(permuted.springs@, weight, spring_each);
    lemma_sum_permutation(permuted.springs@, cloth.springs@, spring_each);
}

/// The column of the Jacobian that belongs to a spring follows the spring:
/// the two blocks of spring `k` stand in column `offset + k`, the stiffness
/// at the first endpoint and its negative at the second.
pub proof fn lemma_jacobian_column_follows_spring<R>(springs: Seq<Spring<R>>, offset: nat, k: int)
    requires
        0 <= k < springs.len(),
    ensures
        spring_jacobian(springs, offset)[2 * k] == (BlockTerm {
            row: springs[k].particle_index_0,
            column: (offset + k) as usize,
            value: springs[k].stiffness,
            negated: false,
        }),
        spring_jacobian(springs, offset)[2 * k + 1] == (BlockTerm {
            row: springs[k].particle_index_1,
            column: (offset + k) as usize,
            value: springs[k].stiffness,
            negated: true,
        }),
{
    assert((2 * k) / 2 == k && (2 * k) % 2 == 0);
    assert((2 * k + 1) / 2 == k && (2 * k + 1) % 2 == 1);
}

/// The entry of the vector `d` for constraint `c` when every constraint is
/// met exactly at the positions `x`, along one coordinate axis: the position
/// of the attached particle for an attachment, the difference of the two
/// endpoints for a spring.
pub open spec fn rest_entry<R>(cloth: &Cloth<R>, x: spec_fn(int) -> int, c: int) -> int {
    if c < cloth.attachments@.len() {
        x(cloth.attachments@[c].particle_index as int)
    } else {
        let spring = cloth.springs@[c - cloth.attachments@.len()];
        x(spring.particle_index_0 as int) - x(spring.particle_index_1 as int)
    }
}

/// What `term` adds to row `row` of the product of a block matrix with the
/// vector `at`, when the term stands in that row.
pub open spec fn row_weight<R>(
    value: spec_fn(R) -> int,
    row: int,
    at: spec_fn(int) -> int,
) -> spec_fn(BlockTerm<R>) -> int {
    |term: BlockTerm<R>|
        if term.row == row {
            signed(term, value) * at(term.column as int)
        } else {
            0
        }
}

/// Row `row` of the product of the matrix that is the sum of `terms` with
/// the vector `at`, in exact arithmetic, along one coordinate axis.
pub open spec fn row_product<R>(
    terms: Seq<BlockTerm<R>>,
    value: spec_fn(R) -> int,
    row: int,
    at: spec_fn(int) -> int,
) -> int {
    sum_of(terms, row_weight(value, row, at))
}

proof fn lemma_attachment_rows_agree<R: Copy>(
    cloth: &Cloth<R>,
    value: spec_fn(R) -> int,
    x: spec_fn(int) -> int,
    d: spec_fn(int) -> int,
    row: int,
    k: int,
)
    requires
        0 <= k <= cloth.attachments@.len(),
        cloth.constraint_count() <= usize::MAX,
        forall|c: int|
            0 <= c < cloth.constraint_count() ==> #[trigger] d(c) == rest_entry(cloth, x, c),
    ensures
        row_product(attachment_jacobian(cloth.attachments@.take(k)), value, row, d) == row_product(
            attachment_laplacian(cloth.attachments@.take(k)),
            value,
            row,
            x,
        ),
    decreases k,
{
    if k > 0 {
        let a = cloth.attachments@;
        lemma_attachment_rows_agree(cloth, value, x, d, row, k - 1);
        let jacobian = attachment_jacobian(a.take(k));
        let laplacian = attachment_laplacian(a.take(k));
        assert(a.take(k).drop_last() == a.take(k - 1));
        assert(jacobian.drop_last() =~= attachment_jacobian(a.take(k - 1)));
        assert(laplacian.drop_last() =~= attachment_laplacian(a.take(k - 1)));
        assert(jacobian.last().column as int == k - 1);
        assert(d(k - 1) == rest_entry(cloth, x, k - 1));
        assert(a.take(k)[k - 1] == a[k - 1]);
    }
}

proof fn lemma_spring_rows_agree<R: Copy>(
    cloth: &Cloth<R>,
    value: spec_fn(R) -> int,
    x: spec_fn(int) -> int,
    d: spec_fn(int) -> int,
    row: int,
    k: int,
)
    requires
        0 <= k <= cloth.springs@.len(),
        cloth.constraint_count() <= usize::MAX,
        forall|c: int|
            0 <= c < cloth.constraint_count() ==> #[trigger] d(c) == rest_entry(cloth, x, c),
    ensures
        row_product(
            spring_jacobian(cloth.springs@.take(k), cloth.attachments@.len()),
            value,
            row,
            d,
        ) == row_product(spring_laplacian(cloth.springs@.take(k)), value, row, x),
    decreases k,
{
    if k > 0 {
        let s = cloth.springs@;
        let offset = cloth.attachments@.len();
        lemma_spring_rows_agree(cloth, value, x, d, row, k - 1);
        let spring = s[k - 1];
        let n = k - 1;
        assert(s.take(k).drop_last() == s.take(k - 1));
        assert(s.take(k)[n] == spring);
        let j2 = spring_jacobian(s.take(k), offset);
        let j1 = j2.drop_last();
        let j0 = j1.drop_last();
        assert(j0 =~= spring_jacobian(s.take(k - 1), offset));
        assert((2 * n) / 2 == n && (2 * n) % 2 == 0);
        assert((2 * n + 1) / 2 == n && (2 * n + 1) % 2 == 1);
        let l4 = spring_laplacian(s.take(k));
        let l3 = l4.drop_last();
        let l2 = l3.drop_last();
        let l1 = l2.drop_last();
        let l0 = l1.drop_last();
        assert(l0 =~= spring_laplacian(s.take(k - 1)));
        assert((4 * n + 3) / 4 == n && (4 * n + 3) % 4 == 3);
        assert((4 * n + 2) / 4 == n && (4 * n + 2) % 4 == 2);
        assert((4 * n + 1) / 4 == n && (4 * n + 1) % 4 == 1);
        assert((4 * n) / 4 == n && (4 * n) % 4 == 0);
        let wj = row_weight::<R>(value, row, d);
        let wl = row_weight::<R>(value, row, x);
        assert(j2.len() == 2 * n + 2 && j1.len() == 2 * n + 1);
        assert(l4.len() == 4 * n + 4 && l3.len() == 4 * n + 3 && l2.len() == 4 * n + 2 && l1.len()
            == 4 * n + 1);
        assert(sum_of(j2, wj) == sum_of(j1, wj) + wj(j2.last()));
        assert(sum_of(j1, wj) == sum_of(j0, wj) + wj(j1.last()));
        assert(sum_of(l4, wl) == sum_of(l3, wl) + wl(l4.last()));
        assert(sum_of(l3, wl) == sum_of(l2, wl) + wl(l3.last()));
        assert(sum_of(l2, wl) == sum_of(l1, wl) + wl(l2.last()));
        assert(sum_of(l1, wl) == sum_of(l0, wl) + wl(l1.last()));
        let v = value(spring.stiffness);
        let xa = x(spring.particle_index_0 as int);
        let xb = x(spring.particle_index_1 as int);
        assert(d(offset + n) == rest_entry(cloth, x, offset + n));
        assert(d(offset + n) == xa - xb);
        assert(j1.last().column as int == offset + n);
        assert(j2.last().column as int == offset + n);
        assert(v * (xa - xb) == v * xa + (-v) * xb) by (nonlinear_arith);
        assert((-v) * (xa - xb) == v * xb + (-v) * xa) by (nonlinear_arith);
    }
}

/// The Jacobian and the Laplacian agree: applied to the vector `d` of a
/// state in which every constraint is met exactly, the Jacobian gives what
/// the Laplacian gives applied to the positions. So at such a state, at
/// rest and without external forces, the right-hand side `h²·J·d + M·x` of
/// the global step is the system matrix `M + h²·L` applied to the
/// positions.
pub proof fn lemma_jacobian_of_rest_is_laplacian<R: Copy>(
    cloth: &Cloth<R>,
    value: spec_fn(R) -> int,
    x: spec_fn(int) -> int,
    d: spec_fn(int) -> int,
    h2: int,
    row: int,
)
    requires
        cloth.constraint_count() <= usize::MAX,
        forall|c: int|
            0 <= c < cloth.constraint_count() ==> #[trigger] d(c) == rest_entry(cloth, x, c),
    ensures
        row_product(jacobian_terms(cloth), value, row, d) == row_product(
            laplacian_terms(cloth),
            value,
            row,
            x,
        ),
        h2 * row_product(jacobian_terms(cloth), value, row, d) + row_product(
            mass_terms(cloth.particle_masses@),
            value,
            row,
            x,
        ) == row_product(mass_terms(cloth.particle_masses@), value, row, x) + h2 * row_product(
            laplacian_terms(cloth),
            value,
            row,
            x,
        ),
{
    let a = cloth.attachments@;
    let s = cloth.springs@;
    lemma_attachment_rows_agree(cloth, value, x, d, row, a.len() as int);
    lemma_spring_rows_agree(cloth, value, x, d, row, s.len() as int);
    assert(a.take(a.len() as int) == a);
    assert(s.take(s.len() as int) == s);
    lemma_sum_concat(
        attachment_jacobian(a),
        spring_jacobian(s, a.len()),
        row_weight::<R>(value, row, d),
    );
    lemma_sum_concat(attachment_laplacian(a), spring_laplacian(s), row_weight::<R>(value, row, x));
}

} // verus!
