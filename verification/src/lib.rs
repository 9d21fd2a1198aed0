//! Verified structure of a fast mass-spring cloth simulator.
//!
//! The numerical kernels of the simulator (dense linear algebra, square
//! roots, comparisons of distances) work on a scalar type that this crate
//! never inspects: every container here is generic over the scalar `R`, and
//! each arithmetic step is handed in by the caller as a function value. What
//! this crate owns, and proves, is everything discrete: the layout of the
//! particle state, the topology of the generated spring networks, the order
//! of the constraints, the block structure of the system matrices, the order
//! of the phases of a step and the fixed-step frame schedule.

pub mod math;
pub mod mesh;
pub mod cloth;
pub mod grid;
pub mod builder;
pub mod assembly;
pub mod exact;
pub mod solver;
pub mod fixed_frame;
pub mod fps_counter;
pub mod stats;

