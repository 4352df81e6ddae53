use ldraw::connection::{Connection, ConnectionGraph, ConnectionState};
use ldraw::constraints::{Constraint, ConstraintSolver};
use ldraw::couplings::{ConnectionMode, ConnectionProperties};
use uuid::Uuid;

/// A fixed-point quantity of the library, in thousandths, as a number of
/// whole units.
fn units(thousandths: i32) -> f32 {
    thousandths as f32 / 1000.0
}

/// A vector as the bit patterns of its single-precision components.
fn vector(x: f32, y: f32, z: f32) -> [u32; 3] {
    [x.to_bits(), y.to_bits(), z.to_bits()]
}

fn create_test_connection(part_a: u128, part_b: u128, mode: ConnectionMode) -> Connection {
    Connection {
        id: Uuid::new_v4().as_u128(),
        coupling_a: (part_a, "coupling_a".to_string()),
        coupling_b: (part_b, "coupling_b".to_string()),
        properties: ConnectionProperties {
            mode,
            break_force: 10000,
            break_torque: 5000,
            dynamic: true,
            clutch_force: 0,
        },
        state: ConnectionState::default(),
        connection_point_a: vector(0.0, 0.0, 0.0),
        connection_point_b: vector(10.0, 0.0, 0.0),
    }
}

#[test]
fn test_constraint_solver_creation() {
    let solver = ConstraintSolver::new();
    assert_eq!(solver.constraints().len(), 0);
}

#[test]
fn test_build_point_constraints() {
    let mut solver = ConstraintSolver::new();
    let mut graph = ConnectionGraph::new();

    let part_a = Uuid::new_v4().as_u128();
    let part_b = Uuid::new_v4().as_u128();

    graph.add_connection(create_test_connection(part_a, part_b, ConnectionMode::Fixed));

    solver.build_constraints(&graph);
    assert_eq!(solver.constraints().len(), 1);

    match &solver.constraints()[0] {
        Constraint::Point { part_a: pa, part_b: pb, local_point_b, .. } => {
            assert_eq!(*pa, part_a);
            assert_eq!(*pb, part_b);
            assert_eq!(*local_point_b, vector(10.0, 0.0, 0.0));
        }
        _ => panic!("Expected Point constraint"),
    }
}

#[test]
fn test_build_hinge_constraints() {
    let mut solver = ConstraintSolver::new();
    let mut graph = ConnectionGraph::new();

    let part_a = Uuid::new_v4().as_u128();
    let part_b = Uuid::new_v4().as_u128();

    graph.add_connection(create_test_connection(
        part_a,
        part_b,
        ConnectionMode::Hinge { min_angle: -90000, max_angle: 90000, friction: 500 },
    ));

    solver.build_constraints(&graph);
    assert_eq!(solver.constraints().len(), 1);

    match &solver.constraints()[0] {
        Constraint::Hinge { min_angle, max_angle, local_axis_a, .. } => {
            assert_eq!(units(*min_angle), -90.0);
            assert_eq!(units(*max_angle), 90.0);
            assert_eq!(*local_axis_a, vector(0.0, 0.0, 1.0));
        }
        _ => panic!("Expected Hinge constraint"),
    }
}

#[test]
fn test_skip_broken_connections() {
    let mut solver = ConstraintSolver::new();
    let mut graph = ConnectionGraph::new();

    let part_a = Uuid::new_v4().as_u128();
    let part_b = Uuid::new_v4().as_u128();

    let mut connection = create_test_connection(part_a, part_b, ConnectionMode::Fixed);
    connection.state.intact = false;
    graph.add_connection(connection);

    solver.build_constraints(&graph);
    assert_eq!(solver.constraints().len(), 0);
}

#[test]
fn test_ball_joint_constraints() {
    let mut solver = ConstraintSolver::new();
    let mut graph = ConnectionGraph::new();

    let part_a = Uuid::new_v4().as_u128();
    let part_b = Uuid::new_v4().as_u128();

    graph.add_connection(create_test_connection(
        part_a,
        part_b,
        ConnectionMode::BallJoint { max_angle: 45000, friction: 300 },
    ));

    solver.build_constraints(&graph);
    assert_eq!(solver.constraints().len(), 1);

    match &solver.constraints()[0] {
        Constraint::Ball { max_angle, .. } => {
            assert_eq!(units(*max_angle), 45.0);
        }
        _ => panic!("Expected Ball constraint"),
    }
}

#[test]
fn test_linear_constraints() {
    let mut solver = ConstraintSolver::new();
    let mut graph = ConnectionGraph::new();

    let part_a = Uuid::new_v4().as_u128();
    let part_b = Uuid::new_v4().as_u128();

    graph.add_connection(create_test_connection(part_a, part_b, ConnectionMode::Linear { friction: 200 }));

    solver.build_constraints(&graph);
    assert_eq!(solver.constraints().len(), 1);

    match &solver.constraints()[0] {
        Constraint::Linear { min_displacement, max_displacement, .. } => {
            assert_eq!(units(*min_displacement), -10.0);
            assert_eq!(units(*max_displacement), 10.0);
        }
        _ => panic!("Expected Linear constraint"),
    }
}

#[test]
fn test_multiple_constraints() {
    let mut solver = ConstraintSolver::new();
    let mut graph = ConnectionGraph::new();

    let part_a = Uuid::new_v4().as_u128();
    let part_b = Uuid::new_v4().as_u128();
    let part_c = Uuid::new_v4().as_u128();

    graph.add_connection(create_test_connection(part_a, part_b, ConnectionMode::Fixed));
    graph.add_connection(create_test_connection(
        part_b,
        part_c,
        ConnectionMode::Hinge { min_angle: -180000, max_angle: 180000, friction: 100 },
    ));

    solver.build_constraints(&graph);
    assert_eq!(solver.constraints().len(), 2);
}

#[test]
fn unsupported_modes_give_no_constraint() {
    let mut solver = ConstraintSolver::default();
    let mut graph = ConnectionGraph::new();
    graph.add_connection(create_test_connection(1, 2, ConnectionMode::Rotational { friction: 100 }));
    graph.add_connection(create_test_connection(
        1,
        2,
        ConnectionMode::RotationalLinear { rotational_friction: 50, linear_friction: 1000 },
    ));
    graph.add_connection(create_test_connection(2, 3, ConnectionMode::Fixed));
    solver.build_constraints(&graph);
    assert_eq!(solver.constraints().len(), 1);
    assert!(matches!(solver.constraints()[0], Constraint::Point { part_a: 2, part_b: 3, .. }));
    solver.solve(10);
    assert_eq!(solver.constraints().len(), 1);
}
