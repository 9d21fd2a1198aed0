use fast_mass_spring::assembly::{compute_matrix_j, compute_matrix_l, compute_matrix_m, BlockTerm};
use fast_mass_spring::cloth::{Attachment, Cloth, Spring};
use fast_mass_spring::math::Vector3;

fn cloth() -> Cloth<f32> {
    let mut cloth =
        Cloth::from_slice(&[1.0, 2.0, 3.0], &[0.0, 0.0, 0.0, 1.0, 0.0, 0.0, 2.0, 0.0, 0.0])
            .unwrap();
    cloth.add_attachments(vec![Attachment {
        particle_index: 2,
        target_position: Vector3::new(2.0, 0.0, 0.0),
        stiffness: 50.0,
    }]);
    cloth.add_springs(vec![
        Spring { particle_index_0: 0, particle_index_1: 1, stiffness: 10.0, rest_length: 1.0 },
        Spring { particle_index_0: 2, particle_index_1: 1, stiffness: 20.0, rest_length: 1.0 },
    ]);
    cloth
}

fn plain(terms: &[BlockTerm<f32>]) -> Vec<(usize, usize, f32, bool)> {
    terms.iter().map(|t| (t.row, t.column, t.value, t.negated)).collect()
}

#[test]
fn mass_matrix_has_one_diagonal_block_per_particle() {
    let terms = compute_matrix_m(&cloth());
    assert_eq!(plain(&terms), vec![(0, 0, 1.0, false), (1, 1, 2.0, false), (2, 2, 3.0, false)]);
}

#[test]
fn laplacian_terms_follow_attachments_then_springs() {
    let terms = compute_matrix_l(&cloth());
    let expected = vec![
        (2, 2, 50.0, false),
        (0, 0, 10.0, false),
        (1, 1, 10.0, false),
        (0, 1, 10.0, true),
        (1, 0, 10.0, true),
        (2, 2, 20.0, false),
        (1, 1, 20.0, false),
        (2, 1, 20.0, true),
        (1, 2, 20.0, true),
    ];
    assert_eq!(plain(&terms), expected);
}

#[test]
fn jacobian_columns_follow_the_constraint_order() {
    let terms = compute_matrix_j(&cloth());
    let expected = vec![
        (2, 0, 50.0, false),
        (0, 1, 10.0, false),
        (1, 1, 10.0, true),
        (2, 2, 20.0, false),
        (1, 2, 20.0, true),
    ];
    assert_eq!(plain(&terms), expected);
}

#[test]
fn a_cloth_without_constraints_has_an_empty_laplacian_and_jacobian() {
    let cloth = Cloth::<f32>::from_slice(&[1.0], &[0.0, 0.0, 0.0]).unwrap();
    assert!(compute_matrix_l(&cloth).is_empty());
    assert!(compute_matrix_j(&cloth).is_empty());
    assert_eq!(compute_matrix_m(&cloth).len(), 1);
}

/// Sums the terms into a dense matrix of block coefficients.
fn dense(terms: &[BlockTerm<f32>], size: usize) -> Vec<Vec<f32>> {
    let mut matrix = vec![vec![0.0f32; size]; size];
    for t in terms {
        matrix[t.row][t.column] += if t.negated { -t.value } else { t.value };
    }
    matrix
}

#[test]
fn laplacian_is_symmetric() {
    let l = dense(&compute_matrix_l(&cloth()), 3);
    for i in 0..3 {
        for j in 0..3 {
            assert_eq!(l[i][j], l[j][i]);
        }
    }
    assert_eq!(l, vec![vec![10.0, -10.0, 0.0], vec![-10.0, 30.0, -20.0], vec![0.0, -20.0, 70.0]]);
}

#[test]
fn laplacian_does_not_depend_on_the_order_of_the_springs() {
    let first = cloth();
    let mut second = cloth();
    second.springs.reverse();
    let l1 = dense(&compute_matrix_l(&first), 3);
    let l2 = dense(&compute_matrix_l(&second), 3);
    assert_eq!(l1, l2);
    // the columns of the Jacobian follow the springs
    let j1 = plain(&compute_matrix_j(&first));
    let j2 = plain(&compute_matrix_j(&second));
    assert_eq!(j2[1], (j1[3].0, 1, j1[3].2, j1[3].3));
    assert_eq!(j2[2], (j1[4].0, 1, j1[4].2, j1[4].3));
    assert_eq!(j2[3], (j1[1].0, 2, j1[1].2, j1[1].3));
    assert_eq!(j2[4], (j1[2].0, 2, j1[2].2, j1[2].3));
}

#[test]
fn quadratic_form_of_the_system_is_positive() {
    let c = cloth();
    let m = dense(&compute_matrix_m(&c), 3);
    let l = dense(&compute_matrix_l(&c), 3);
    let h2 = 0.25f32;
    for x in [[1.0f32, 0.0, 0.0], [1.0, 1.0, 1.0], [-2.0, 3.0, 0.5], [0.0, 0.0, -1.0]] {
        let mut form = 0.0f32;
        for i in 0..3 {
            for j in 0..3 {
                form += x[i] * (m[i][j] + h2 * l[i][j]) * x[j];
            }
        }
        assert!(form > 0.0);
    }
}

#[test]
fn jacobian_at_a_rest_state_gives_what_the_laplacian_gives() {
    let c = cloth();
    let x = [3.0f32, -1.0, 4.0];
    // attachments hold the position of their particle, springs the
    // difference of their endpoints
    let mut d = Vec::new();
    for a in &c.attachments {
        d.push(x[a.particle_index]);
    }
    for s in &c.springs {
        d.push(x[s.particle_index_0] - x[s.particle_index_1]);
    }
    let mut from_jacobian = [0.0f32; 3];
    for t in compute_matrix_j(&c) {
        from_jacobian[t.row] += (if t.negated { -t.value } else { t.value }) * d[t.column];
    }
    let l = dense(&compute_matrix_l(&c), 3);
    for i in 0..3 {
        let from_laplacian: f32 = (0..3).map(|j| l[i][j] * x[j]).sum();
        assert_eq!(from_jacobian[i], from_laplacian);
    }
}
