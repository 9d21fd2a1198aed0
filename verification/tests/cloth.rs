use fast_mass_spring::assembly::Constraint;
use fast_mass_spring::cloth::{Attachment, Cloth, SimulationError, Spring};
use fast_mass_spring::math::Vector3;

fn spring(a: usize, b: usize) -> Spring<f32> {
    Spring { particle_index_0: a, particle_index_1: b, stiffness: 2.0, rest_length: 1.0 }
}

fn attachment(i: usize) -> Attachment<f32> {
    Attachment { particle_index: i, target_position: Vector3::new(1.0, 2.0, 3.0), stiffness: 5.0 }
}

fn three_particles() -> Cloth<f32> {
    Cloth::from_slice(&[1.0, 2.0, 3.0], &[0.0, 0.1, 0.2, 1.0, 1.1, 1.2, 2.0, 2.1, 2.2]).unwrap()
}

#[test]
fn from_slice_starts_at_rest_without_constraints() {
    let cloth = three_particles();
    assert_eq!(cloth.particle_masses, vec![1.0, 2.0, 3.0]);
    assert_eq!(cloth.particle_positions, vec![0.0, 0.1, 0.2, 1.0, 1.1, 1.2, 2.0, 2.1, 2.2]);
    assert_eq!(cloth.prev_particle_positions, cloth.particle_positions);
    assert!(cloth.springs.is_empty());
    assert!(cloth.attachments.is_empty());
    assert_eq!(cloth.num_particles(), 3);
    assert_eq!(cloth.num_springs(), 0);
    assert_eq!(cloth.num_constraints(), 0);
}

#[test]
fn from_slice_rejects_mismatched_lengths() {
    let result = Cloth::<f32>::from_slice(&[1.0, 1.0], &[0.0, 0.0, 0.0]);
    assert!(matches!(result, Err(SimulationError::InvalidInput)));
    let result = Cloth::<f32>::from_slice(&[1.0], &[0.0, 0.0, 0.0, 0.0]);
    assert!(matches!(result, Err(SimulationError::InvalidInput)));
    let result = Cloth::<f32>::from_slice(&[], &[0.0]);
    assert!(matches!(result, Err(SimulationError::InvalidInput)));
}

#[test]
fn from_slice_accepts_no_particles() {
    let cloth = Cloth::<f32>::from_slice(&[], &[]).unwrap();
    assert_eq!(cloth.num_particles(), 0);
    assert!(cloth.validate().is_ok());
}

#[test]
fn springs_and_attachments_are_appended_in_order() {
    let mut cloth = three_particles();
    cloth.add_springs(vec![spring(0, 1)]);
    cloth.add_springs(vec![spring(1, 2), spring(0, 2)]);
    cloth.add_attachments(vec![attachment(2)]);
    cloth.add_attachments(vec![attachment(0)]);
    let ends: Vec<(usize, usize)> =
        cloth.springs.iter().map(|s| (s.particle_index_0, s.particle_index_1)).collect();
    assert_eq!(ends, vec![(0, 1), (1, 2), (0, 2)]);
    let held: Vec<usize> = cloth.attachments.iter().map(|a| a.particle_index).collect();
    assert_eq!(held, vec![2, 0]);
    assert_eq!(cloth.num_springs(), 3);
    assert_eq!(cloth.num_constraints(), 5);
    assert_eq!(cloth.num_particles(), 3);
}

#[test]
fn particle_positions_are_read_as_triples() {
    let cloth = three_particles();
    let p = cloth.get_particle_position(1);
    assert_eq!((p.x, p.y, p.z), (1.0, 1.1, 1.2));
    let p = cloth.get_particle_position(2);
    assert_eq!((p.x, p.y, p.z), (2.0, 2.1, 2.2));
}

#[test]
fn constraints_are_ordered_attachments_first() {
    let mut cloth = three_particles();
    cloth.add_springs(vec![spring(0, 1), spring(1, 2)]);
    cloth.add_attachments(vec![attachment(2), attachment(0)]);
    assert_eq!(cloth.constraint(0), Constraint::Attachment(0));
    assert_eq!(cloth.constraint(1), Constraint::Attachment(1));
    assert_eq!(cloth.constraint(2), Constraint::Spring(0));
    assert_eq!(cloth.constraint(3), Constraint::Spring(1));
}

#[test]
fn validate_accepts_a_well_formed_cloth() {
    let mut cloth = three_particles();
    cloth.add_springs(vec![spring(0, 1), spring(2, 1)]);
    cloth.add_attachments(vec![attachment(2)]);
    assert_eq!(cloth.validate(), Ok(()));
}

#[test]
fn validate_rejects_a_spring_index_out_of_range() {
    let mut cloth = three_particles();
    cloth.add_springs(vec![spring(0, 3)]);
    assert_eq!(cloth.validate(), Err(SimulationError::InvalidInput));
    let mut cloth = three_particles();
    cloth.add_springs(vec![spring(7, 1)]);
    assert_eq!(cloth.validate(), Err(SimulationError::InvalidInput));
}

#[test]
fn validate_rejects_a_spring_from_a_particle_to_itself() {
    let mut cloth = three_particles();
    cloth.add_springs(vec![spring(0, 1), spring(2, 2)]);
    assert_eq!(cloth.validate(), Err(SimulationError::InvalidInput));
}

#[test]
fn validate_rejects_an_attachment_index_out_of_range() {
    let mut cloth = three_particles();
    cloth.add_attachments(vec![attachment(3)]);
    assert_eq!(cloth.validate(), Err(SimulationError::InvalidInput));
}

#[test]
fn validate_rejects_vectors_of_different_lengths() {
    let mut cloth = three_particles();
    cloth.prev_particle_positions.pop();
    assert_eq!(cloth.validate(), Err(SimulationError::InvalidInput));
    let mut cloth = three_particles();
    cloth.particle_masses.push(1.0);
    assert_eq!(cloth.validate(), Err(SimulationError::InvalidInput));
}
