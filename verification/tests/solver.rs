use fast_mass_spring::assembly::{compute_matrix_j, compute_matrix_l, compute_matrix_m, BlockTerm};
use fast_mass_spring::builder::ClothBuilder;
use fast_mass_spring::cloth::{Attachment, Cloth, SimulationError, Spring};
use fast_mass_spring::math::Vector3;
use fast_mass_spring::solver::{compute_vector_d, solve_collision, FastMassSpringSolver};
use nalgebra::{Cholesky, DMatrix, DVector, Dyn, Matrix3, RealField};

/// The assembled system: what the numerical kernels keep between steps.
struct System<T: RealField> {
    h2: T,
    matrix_m: DMatrix<T>,
    h2_matrix_j: DMatrix<T>,
    cholesky: Cholesky<T, Dyn>,
}

struct Sphere<T> {
    center: Vector3<T>,
    radius: T,
}

type Solver<T = f32> = FastMassSpringSolver<T, Sphere<T>, System<T>>;

fn signed<T: RealField + Copy>(term: &BlockTerm<T>) -> T {
    if term.negated {
        -term.value
    } else {
        term.value
    }
}

fn assemble<T: RealField + Copy>(
    cloth: &Cloth<T>,
    time_step: T,
) -> Result<System<T>, SimulationError> {
    if !(time_step > T::zero()) || cloth.particle_masses.iter().any(|m| !(*m > T::zero())) {
        return Err(SimulationError::InvalidInput);
    }
    let h2 = time_step * time_step;
    let i3 = Matrix3::<T>::identity();
    let rows = 3 * cloth.num_particles();
    let columns = 3 * cloth.num_constraints();
    let mut matrix_l = DMatrix::<T>::zeros(rows, rows);
    for term in compute_matrix_l(cloth) {
        let mut block = matrix_l.fixed_view_mut::<3, 3>(3 * term.row, 3 * term.column);
        block += i3 * signed(&term);
    }
    let mut matrix_j = DMatrix::<T>::zeros(rows, columns);
    for term in compute_matrix_j(cloth) {
        matrix_j
            .fixed_view_mut::<3, 3>(3 * term.row, 3 * term.column)
            .copy_from(&(i3 * signed(&term)));
    }
    let mut matrix_m = DMatrix::<T>::zeros(rows, rows);
    for term in compute_matrix_m(cloth) {
        matrix_m
            .fixed_view_mut::<3, 3>(3 * term.row, 3 * term.column)
            .copy_from(&(i3 * signed(&term)));
    }
    let system_matrix = &matrix_m + &matrix_l * h2;
    match Cholesky::new(system_matrix) {
        Some(cholesky) => Ok(System { h2, matrix_m, h2_matrix_j: matrix_j * h2, cholesky }),
        None => Err(SimulationError::SingularSystem),
    }
}

fn inertial<T: RealField + Copy>(
    system: &System<T>,
    cloth: &Cloth<T>,
    impulse_term: &Vec<T>,
) -> DVector<T> {
    let damping = T::one();
    let positions = DVector::from_column_slice(&cloth.particle_positions);
    let prev_positions = DVector::from_column_slice(&cloth.prev_particle_positions);
    &system.matrix_m * (positions * (T::one() + damping) - prev_positions * damping)
        + DVector::from_column_slice(impulse_term)
}

fn project<T: RealField + Copy>(
    head: Vector3<T>,
    tail: Vector3<T>,
    rest_length: T,
) -> Option<Vector3<T>> {
    let delta = nalgebra::Vector3::new(head.x - tail.x, head.y - tail.y, head.z - tail.z);
    let length = delta.norm();
    if length > T::zero() {
        let d = delta / length * rest_length;
        Some(Vector3::new(d.x, d.y, d.z))
    } else {
        None
    }
}

fn solve<T: RealField + Copy>(system: &System<T>, term: &DVector<T>, vector_d: &Vec<T>) -> Vec<T> {
    let b = &system.h2_matrix_j * DVector::from_column_slice(vector_d) + term;
    system.cholesky.solve(&b).as_slice().to_vec()
}

fn collide<T: RealField + Copy>(sphere: &Sphere<T>, point: Vector3<T>) -> Option<Vector3<T>> {
    let center = nalgebra::Vector3::new(sphere.center.x, sphere.center.y, sphere.center.z);
    let dir = nalgebra::Vector3::new(point.x, point.y, point.z) - center;
    let distance = dir.norm();
    if distance >= sphere.radius || distance == T::zero() {
        None
    } else {
        let p = center + dir / distance * sphere.radius;
        Some(Vector3::new(p.x, p.y, p.z))
    }
}

fn set_gravity<T: RealField + Copy>(solver: &mut Solver<T>, gravity: [T; 3]) {
    let h2 = solver.time_step() * solver.time_step();
    solver.set_gravity(&|mass: T| {
        Vector3::new(mass * gravity[0] * h2, mass * gravity[1] * h2, mass * gravity[2] * h2)
    });
}

fn step<T: RealField + Copy>(solver: &mut Solver<T>) {
    solver.step(inertial::<T>, &project::<T>, &solve::<T>, &collide::<T>);
}

fn new_solver<T: RealField + Copy>(
    cloth: Cloth<T>,
    time_step: T,
) -> Result<Solver<T>, SimulationError> {
    FastMassSpringSolver::new(cloth, time_step, T::zero(), assemble::<T>)
}

fn two_particles(second_x: f32) -> Cloth<f32> {
    let mut cloth =
        Cloth::<f32>::from_slice(&[1.0, 1.0], &[0.0, 0.0, 0.0, second_x, 0.0, 0.0]).unwrap();
    cloth.add_springs(vec![Spring {
        particle_index_0: 0,
        particle_index_1: 1,
        stiffness: 100.0,
        rest_length: 1.0,
    }]);
    cloth
}

fn distance(p: Vector3<f32>, q: Vector3<f32>) -> f32 {
    let (dx, dy, dz) = (p.x - q.x, p.y - q.y, p.z - q.z);
    (dx * dx + dy * dy + dz * dz).sqrt()
}

#[test]
fn two_particles_at_rest_length_stay_where_they_are() {
    let mut solver = new_solver(two_particles(1.0), 1.0 / 60.0).unwrap();
    solver.set_num_iterations(2);
    set_gravity(&mut solver, [0.0, 0.0, 0.0]);
    let initial = solver.cloth().particle_positions.clone();
    for _ in 0..60 {
        step(&mut solver);
        for (now, then) in solver.cloth().particle_positions.iter().zip(initial.iter()) {
            assert!((now - then).abs() < 1e-4);
        }
    }
}

#[test]
fn a_stretched_spring_settles_at_its_rest_length() {
    let mut cloth =
        Cloth::<f64>::from_slice(&[1.0, 1.0], &[0.0, 0.0, 0.0, 2.0, 0.0, 0.0]).unwrap();
    cloth.add_springs(vec![Spring {
        particle_index_0: 0,
        particle_index_1: 1,
        stiffness: 100.0,
        rest_length: 1.0,
    }]);
    let mut solver = new_solver(cloth, 1.0 / 60.0).unwrap();
    solver.set_num_iterations(2);
    set_gravity(&mut solver, [0.0, 0.0, 0.0]);
    for _ in 0..600 {
        step(&mut solver);
    }
    let p = solver.cloth().get_particle_position(0);
    let q = solver.cloth().get_particle_position(1);
    let length = ((p.x - q.x).powi(2) + (p.y - q.y).powi(2) + (p.z - q.z).powi(2)).sqrt();
    assert!((length - 1.0).abs() < 1e-2);
    assert!(((p.x + q.x) / 2.0 - 1.0).abs() < 1e-4);
    assert!(((p.y + q.y) / 2.0).abs() < 1e-4);
    assert!(((p.z + q.z) / 2.0).abs() < 1e-4);
}

#[test]
fn a_stretched_spring_settles_in_single_precision() {
    let mut solver = new_solver(two_particles(2.0), 1.0 / 60.0).unwrap();
    solver.set_num_iterations(2);
    set_gravity(&mut solver, [0.0, 0.0, 0.0]);
    for _ in 0..600 {
        step(&mut solver);
    }
    let p = solver.cloth().get_particle_position(0);
    let q = solver.cloth().get_particle_position(1);
    assert!((distance(p, q) - 1.0).abs() < 1e-2);
    assert!(((p.y + q.y) / 2.0).abs() < 1e-4);
    assert!(((p.z + q.z) / 2.0).abs() < 1e-4);
    // round-off in the positions acts as a velocity that nothing damps
    assert!(((p.x + q.x) / 2.0 - 1.0).abs() < 1e-2);
}

#[test]
fn a_pinned_particle_holds_against_gravity() {
    let mut cloth = Cloth::<f32>::from_slice(&[1.0], &[0.0, 0.0, 0.0]).unwrap();
    cloth.add_attachments(vec![Attachment {
        particle_index: 0,
        target_position: Vector3::new(0.0, 0.0, 0.0),
        stiffness: 1000.0,
    }]);
    let mut solver = new_solver(cloth, 1.0 / 60.0).unwrap();
    solver.set_num_iterations(2);
    set_gravity(&mut solver, [0.0, -9.8, 0.0]);
    for _ in 0..120 {
        step(&mut solver);
        assert!(solver.cloth().get_particle_position(0).y.abs() <= 0.02);
    }
    let p = solver.cloth().get_particle_position(0);
    assert!(p.y < 0.0);
    assert_eq!((p.x, p.z), (0.0, 0.0));
}

fn horizontal_grid(resolution: usize, size: f32, height: f32) -> Cloth<f32> {
    let cell = size / (resolution as f32 - 1.0);
    ClothBuilder {
        resolution,
        structural_spring_stiffness: 80.0f32,
        shear_spring_stiffness: 0.2,
        particle_mass: 1.0 / (resolution * resolution) as f32,
    }
    .build(
        |i, j| {
            // the plane z = 0, turned a quarter about the x axis and lifted
            let x = -0.5 * size + i as f32 * cell;
            let y = -0.5 * size + j as f32 * cell;
            Vector3::new(x, height, y)
        },
        distance,
    )
}

#[test]
fn a_grid_dropped_onto_a_sphere_does_not_enter_it() {
    let mut solver = new_solver(horizontal_grid(20, 4.0, 1.2), 1.0 / 120.0).unwrap();
    solver.set_num_iterations(2);
    set_gravity(&mut solver, [0.0, -9.8, 0.0]);
    solver.add_collider(Sphere { center: Vector3::new(0.0, 0.0, 0.0), radius: 1.0 });
    let origin = Vector3::new(0.0, 0.0, 0.0);
    let particles = solver.cloth().num_particles();
    let mut touched = false;
    let mut heights = Vec::new();
    for _ in 0..600 {
        step(&mut solver);
        let mut sum = 0.0f32;
        for i in 0..particles {
            let p = solver.cloth().get_particle_position(i);
            let d = distance(p, origin);
            assert!(d >= 1.0 - 1e-4);
            touched = touched || d < 1.0 + 1e-4;
            sum += p.y;
        }
        heights.push(sum / particles as f32);
    }
    assert!(touched);
    let last = &heights[540..];
    let mean = last.iter().sum::<f32>() / 60.0;
    let variance = last.iter().map(|h| (h - mean) * (h - mean)).sum::<f32>() / 60.0;
    assert!(variance < 1e-3);
}

#[test]
fn a_cloth_hung_by_two_corners_sags() {
    let resolution = 20;
    let cell = 3.0 / (resolution as f32 - 1.0);
    let builder = ClothBuilder {
        resolution,
        structural_spring_stiffness: 100.0f32,
        shear_spring_stiffness: 0.2,
        particle_mass: 1.0 / (resolution * resolution) as f32,
    };
    let top_left = builder.top_left_vertex_index();
    let top_right = builder.top_right_vertex_index();
    let mut cloth = builder.build(
        |i, j| Vector3::new(-1.5 + i as f32 * cell, -1.5 + j as f32 * cell, 0.0),
        distance,
    );
    let initial_bottom = cloth.get_particle_position((resolution / 2) * resolution).y;
    for corner in [top_left, top_right] {
        let target_position = cloth.get_particle_position(corner);
        cloth.add_attachments(vec![Attachment {
            particle_index: corner,
            target_position,
            stiffness: 50.0,
        }]);
    }
    let targets = [cloth.get_particle_position(top_left), cloth.get_particle_position(top_right)];
    let mut solver = new_solver(cloth, 1.0 / 60.0).unwrap();
    set_gravity(&mut solver, [0.0, -9.8, 0.0]);
    for _ in 0..300 {
        step(&mut solver);
    }
    let cloth = solver.cloth();
    // each pin is a spring of stiffness 50 that carries half the weight of
    // the cloth: it gives by about 0.5 * 9.8 / 50
    for (corner, target) in [top_left, top_right].into_iter().zip(targets) {
        let off = distance(cloth.get_particle_position(corner), target);
        assert!(off > 0.05 && off < 0.15);
    }
    let lowest = (0..cloth.num_particles())
        .map(|i| cloth.get_particle_position(i).y)
        .fold(f32::INFINITY, f32::min);
    assert!(lowest < initial_bottom);
}

#[test]
fn a_cloth_hung_by_two_stiff_pins_keeps_its_corners() {
    let resolution = 20;
    let cell = 3.0 / (resolution as f32 - 1.0);
    let builder = ClothBuilder {
        resolution,
        structural_spring_stiffness: 100.0f32,
        shear_spring_stiffness: 0.2,
        particle_mass: 1.0 / (resolution * resolution) as f32,
    };
    let corners = [builder.top_left_vertex_index(), builder.top_right_vertex_index()];
    let mut cloth = builder.build(
        |i, j| Vector3::new(-1.5 + i as f32 * cell, -1.5 + j as f32 * cell, 0.0),
        distance,
    );
    for corner in corners {
        let target_position = cloth.get_particle_position(corner);
        cloth.add_attachments(vec![Attachment {
            particle_index: corner,
            target_position,
            stiffness: 1.0e4,
        }]);
    }
    let targets = [cloth.get_particle_position(corners[0]), cloth.get_particle_position(corners[1])];
    let mut solver = new_solver(cloth, 1.0 / 60.0).unwrap();
    set_gravity(&mut solver, [0.0, -9.8, 0.0]);
    for _ in 0..300 {
        step(&mut solver);
    }
    for (corner, target) in corners.into_iter().zip(targets) {
        assert!(distance(solver.cloth().get_particle_position(corner), target) < 1e-3);
    }
}

#[test]
fn a_new_solver_has_the_defaults() {
    let solver = new_solver(two_particles(1.0), 0.5).unwrap();
    assert_eq!(solver.time_step(), 0.5);
    assert_eq!(solver.cloth().num_particles(), 2);
    assert_eq!(solver.cloth().particle_positions, vec![0.0, 0.0, 0.0, 1.0, 0.0, 0.0]);
}

#[test]
fn a_cloth_with_a_bad_index_is_turned_down_before_assembly() {
    let mut cloth = two_particles(1.0);
    cloth.add_springs(vec![Spring {
        particle_index_0: 0,
        particle_index_1: 2,
        stiffness: 1.0,
        rest_length: 1.0,
    }]);
    let result: Result<Solver, SimulationError> =
        FastMassSpringSolver::new(cloth, 0.1, 0.0, |_: &Cloth<f32>, _: f32| {
            panic!("assembled a cloth that is not well formed")
        });
    assert!(matches!(result, Err(SimulationError::InvalidInput)));
}

#[test]
fn a_failed_factorization_is_reported() {
    let result: Result<Solver, SimulationError> =
        FastMassSpringSolver::new(two_particles(1.0), 0.1, 0.0, |_: &Cloth<f32>, _: f32| {
            Err(SimulationError::SingularSystem)
        });
    assert!(matches!(result, Err(SimulationError::SingularSystem)));
}

#[test]
fn a_system_that_is_not_positive_definite_is_singular() {
    // a negative stiffness that outweighs the masses
    let mut cloth = Cloth::<f32>::from_slice(&[1.0, 1.0], &[0.0, 0.0, 0.0, 1.0, 0.0, 0.0]).unwrap();
    cloth.add_springs(vec![Spring {
        particle_index_0: 0,
        particle_index_1: 1,
        stiffness: -100.0,
        rest_length: 1.0,
    }]);
    assert!(matches!(new_solver(cloth, 1.0), Err(SimulationError::SingularSystem)));
}

#[test]
fn a_time_step_or_mass_that_is_not_positive_is_invalid() {
    assert!(matches!(new_solver(two_particles(1.0), 0.0), Err(SimulationError::InvalidInput)));
    assert!(matches!(new_solver(two_particles(1.0), -1.0), Err(SimulationError::InvalidInput)));
    let mut cloth = two_particles(1.0);
    cloth.particle_masses[1] = 0.0;
    assert!(matches!(new_solver(cloth, 0.1), Err(SimulationError::InvalidInput)));
}

#[test]
fn a_step_keeps_the_positions_before_it_as_previous_positions() {
    let mut solver = new_solver(two_particles(2.0), 1.0 / 60.0).unwrap();
    let before = solver.cloth().particle_positions.clone();
    step(&mut solver);
    assert_eq!(solver.cloth().prev_particle_positions, before);
    assert_ne!(solver.cloth().particle_positions, before);
    let middle = solver.cloth().particle_positions.clone();
    step(&mut solver);
    assert_eq!(solver.cloth().prev_particle_positions, middle);
}

#[test]
fn the_iteration_count_is_the_number_of_global_solves() {
    for iterations in [0usize, 1, 2, 5] {
        let mut solver = new_solver(two_particles(2.0), 1.0 / 60.0).unwrap();
        solver.set_num_iterations(iterations);
        let solves = std::cell::Cell::new(0usize);
        let counting = |system: &System<f32>, term: &DVector<f32>, d: &Vec<f32>| {
            solves.set(solves.get() + 1);
            solve(system, term, d)
        };
        let before = solver.cloth().particle_positions.clone();
        solver.step(inertial::<f32>, &project::<f32>, &counting, &collide::<f32>);
        assert_eq!(solves.get(), iterations);
        if iterations == 0 {
            assert_eq!(solver.cloth().particle_positions, before);
        }
    }
}

#[test]
fn gravity_sets_the_impulse_of_each_particle_from_its_mass() {
    let cloth = Cloth::<f32>::from_slice(&[2.0, 3.0], &[0.0; 6]).unwrap();
    let mut solver = new_solver(cloth, 0.5).unwrap();
    set_gravity(&mut solver, [0.0, -8.0, 1.0]);
    let seen = std::cell::RefCell::new(Vec::new());
    let recording = |system: &System<f32>, cloth: &Cloth<f32>, impulse_term: &Vec<f32>| {
        *seen.borrow_mut() = impulse_term.clone();
        inertial(system, cloth, impulse_term)
    };
    solver.step(recording, &project::<f32>, &solve::<f32>, &collide::<f32>);
    // mass * gravity * h²
    assert_eq!(*seen.borrow(), vec![0.0, -4.0, 0.5, 0.0, -6.0, 0.75]);
}

#[test]
fn the_local_step_fills_targets_and_spring_directions() {
    let mut cloth =
        Cloth::<f32>::from_slice(&[1.0, 1.0, 1.0], &[0.0, 0.0, 0.0, 3.0, 4.0, 0.0, 1.0, 1.0, 1.0])
            .unwrap();
    cloth.add_attachments(vec![Attachment {
        particle_index: 2,
        target_position: Vector3::new(7.0, 8.0, 9.0),
        stiffness: 1.0,
    }]);
    cloth.add_springs(vec![
        Spring { particle_index_0: 1, particle_index_1: 0, stiffness: 1.0, rest_length: 10.0 },
        Spring { particle_index_0: 0, particle_index_1: 1, stiffness: 1.0, rest_length: 5.0 },
    ]);
    let mut vector_d = vec![0.0f32; 9];
    compute_vector_d(&cloth, &mut vector_d, &project::<f32>);
    assert_eq!(vector_d, vec![7.0, 8.0, 9.0, 6.0, 8.0, 0.0, -3.0, -4.0, 0.0]);
}

#[test]
fn a_spring_without_a_direction_keeps_its_previous_entry() {
    let mut cloth =
        Cloth::<f32>::from_slice(&[1.0, 1.0], &[1.0, 1.0, 1.0, 1.0, 1.0, 1.0]).unwrap();
    cloth.add_springs(vec![Spring {
        particle_index_0: 0,
        particle_index_1: 1,
        stiffness: 1.0,
        rest_length: 2.0,
    }]);
    let mut vector_d = vec![0.5f32, 0.25, 0.125];
    compute_vector_d(&cloth, &mut vector_d, &project::<f32>);
    assert_eq!(vector_d, vec![0.5, 0.25, 0.125]);
    assert!(vector_d.iter().all(|v| !v.is_nan()));
}

#[test]
fn the_collision_pass_moves_particles_to_the_surface() {
    let sphere = Sphere { center: Vector3::new(1.0, 0.0, 0.0), radius: 2.0 };
    // inside, outside, on the surface
    let mut positions = vec![1.0f32, 1.0, 0.0, 4.0, 0.0, 0.0, 1.0, 0.0, 2.0];
    solve_collision(&mut positions, &vec![sphere], &collide::<f32>);
    assert_eq!(positions, vec![1.0, 2.0, 0.0, 4.0, 0.0, 0.0, 1.0, 0.0, 2.0]);
}

#[test]
fn colliders_act_in_insertion_order() {
    let first = Sphere { center: Vector3::new(0.0, 0.0, 0.0), radius: 1.0 };
    let second = Sphere { center: Vector3::new(2.0, 0.0, 0.0), radius: 1.5 };
    let mut positions = vec![0.5f32, 0.0, 0.0];
    solve_collision(&mut positions, &vec![first, second], &collide::<f32>);
    // pushed to x = 1 by the first sphere, then to x = 0.5 by the second
    assert_eq!(positions, vec![0.5, 0.0, 0.0]);
    let first = Sphere { center: Vector3::new(0.0, 0.0, 0.0), radius: 1.0 };
    let second = Sphere { center: Vector3::new(2.0, 0.0, 0.0), radius: 1.5 };
    let mut positions = vec![0.75f32, 0.0, 0.0];
    solve_collision(&mut positions, &vec![second, first], &collide::<f32>);
    // pushed to x = 0.5 by the second sphere, then to x = 1 by the first
    assert_eq!(positions, vec![1.0, 0.0, 0.0]);
}

#[test]
fn without_colliders_the_collision_pass_changes_nothing() {
    let mut positions = vec![0.5f32, 0.0, 0.0, 1.0, 2.0, 3.0];
    solve_collision(&mut positions, &Vec::<Sphere<f32>>::new(), &collide::<f32>);
    assert_eq!(positions, vec![0.5, 0.0, 0.0, 1.0, 2.0, 3.0]);
}

#[test]
fn equal_solvers_take_equal_steps() {
    let make = || {
        let mut solver = new_solver(horizontal_grid(4, 2.0, 1.1), 1.0 / 120.0).unwrap();
        set_gravity(&mut solver, [0.0, -9.8, 0.0]);
        solver.add_collider(Sphere { center: Vector3::new(0.0, 0.0, 0.0), radius: 1.0 });
        solver
    };
    let mut first = make();
    let mut second = make();
    for _ in 0..50 {
        step(&mut first);
        step(&mut second);
        let a: Vec<u32> = first.cloth().particle_positions.iter().map(|x| x.to_bits()).collect();
        let b: Vec<u32> = second.cloth().particle_positions.iter().map(|x| x.to_bits()).collect();
        assert_eq!(a, b);
    }
}

#[test]
fn the_order_of_the_springs_does_not_change_the_motion() {
    let mut first = horizontal_grid(3, 1.0, 0.0);
    let mut second = horizontal_grid(3, 1.0, 0.0);
    second.springs.reverse();
    for cloth in [&mut first, &mut second] {
        cloth.add_attachments(vec![Attachment {
            particle_index: 0,
            target_position: Vector3::new(-0.5, 0.0, -0.5),
            stiffness: 50.0,
        }]);
    }
    let mut first = new_solver(first, 1.0 / 60.0).unwrap();
    let mut second = new_solver(second, 1.0 / 60.0).unwrap();
    set_gravity(&mut first, [0.0, -9.8, 0.0]);
    set_gravity(&mut second, [0.0, -9.8, 0.0]);
    for _ in 0..30 {
        step(&mut first);
        step(&mut second);
    }
    let a = &first.cloth().particle_positions;
    let b = &second.cloth().particle_positions;
    for (x, y) in a.iter().zip(b.iter()) {
        assert!((x - y).abs() < 1e-3);
    }
}

#[test]
fn a_stiff_attachment_pins_its_particle() {
    let mut cloth = Cloth::<f32>::from_slice(&[1.0, 1.0], &[0.0, 0.0, 0.0, 1.0, 0.0, 0.0]).unwrap();
    cloth.add_attachments(vec![Attachment {
        particle_index: 0,
        target_position: Vector3::new(0.25, 0.5, -0.5),
        stiffness: 1.0e6,
    }]);
    let mut solver = new_solver(cloth, 1.0 / 60.0).unwrap();
    for _ in 0..5 {
        step(&mut solver);
    }
    let p = solver.cloth().get_particle_position(0);
    assert!(distance(p, Vector3::new(0.25, 0.5, -0.5)) < 1e-2);
    // the free particle is left alone
    let q = solver.cloth().get_particle_position(1);
    assert_eq!((q.x, q.y, q.z), (1.0, 0.0, 0.0));
}

#[test]
fn a_cloth_at_rest_stays_at_rest() {
    let mut cloth = horizontal_grid(4, 3.0, 0.5);
    let target_position = cloth.get_particle_position(5);
    cloth.add_attachments(vec![Attachment { particle_index: 5, target_position, stiffness: 10.0 }]);
    let mut solver = new_solver(cloth, 1.0 / 60.0).unwrap();
    let initial = solver.cloth().particle_positions.clone();
    for _ in 0..10 {
        step(&mut solver);
    }
    for (now, then) in solver.cloth().particle_positions.iter().zip(initial.iter()) {
        assert!((now - then).abs() < 1e-4);
    }
}
