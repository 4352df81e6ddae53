use ldraw::connection::{Connection, ConnectionGraph, ConnectionState};
use ldraw::couplings::CouplingType;
use uuid::Uuid;

/// A vector as the bit patterns of its single-precision components.
fn vector(x: f32, y: f32, z: f32) -> [u32; 3] {
    [x.to_bits(), y.to_bits(), z.to_bits()]
}

fn identity() -> [u32; 16] {
    let mut m = [0u32; 16];
    for i in 0..4 {
        m[i * 5] = 1.0f32.to_bits();
    }
    m
}

fn stud_connection(part_a: u128, part_b: u128, stud: &str, antistud: &str) -> Connection {
    Connection::new(
        (part_a, stud.to_string()),
        (part_b, antistud.to_string()),
        CouplingType::Stud,
        CouplingType::AntiStud,
        vector(0.0, 0.0, 0.0),
        vector(0.0, 0.0, 0.0),
    )
    .unwrap()
}

#[test]
fn test_connection_state_default() {
    let state = ConnectionState::default();
    assert_eq!(state.relative_transform, identity());
    assert_eq!(state.force, vector(0.0, 0.0, 0.0));
    assert_eq!(state.torque, vector(0.0, 0.0, 0.0));
    assert!(state.intact);
    assert_eq!(state.angle, None);
    assert_eq!(state.displacement, None);
}

#[test]
fn test_connection_creation() {
    let part_a = Uuid::new_v4().as_u128();
    let part_b = Uuid::new_v4().as_u128();

    let connection = Connection::new(
        (part_a, "stud_0".to_string()),
        (part_b, "antistud_0".to_string()),
        CouplingType::Stud,
        CouplingType::AntiStud,
        vector(0.0, 10.0, 0.0),
        vector(0.0, 0.0, 0.0),
    );

    assert!(connection.is_some());
    let connection = connection.unwrap();
    assert_eq!(connection.coupling_a.0, part_a);
    assert_eq!(connection.coupling_b.0, part_b);
    assert!(connection.state.intact);
    assert_eq!(connection.properties.clutch_force, 8000);
    assert_eq!(connection.connection_point_a, vector(0.0, 10.0, 0.0));
    assert_eq!(Uuid::from_u128(connection.id).get_version_num(), 4);
}

#[test]
fn test_incompatible_connection_creation() {
    let part_a = Uuid::new_v4().as_u128();
    let part_b = Uuid::new_v4().as_u128();

    let connection = Connection::new(
        (part_a, "stud_0".to_string()),
        (part_b, "stud_1".to_string()),
        CouplingType::Stud,
        CouplingType::Stud,
        vector(0.0, 0.0, 0.0),
        vector(0.0, 0.0, 0.0),
    );

    assert!(connection.is_none());
}

#[test]
fn test_connection_graph_add_remove() {
    let mut graph = ConnectionGraph::new();
    let part_a = Uuid::new_v4().as_u128();
    let part_b = Uuid::new_v4().as_u128();

    let connection = stud_connection(part_a, part_b, "stud_0", "antistud_0");

    let connection_id = connection.id;
    graph.add_connection(connection);

    assert_eq!(graph.connections().len(), 1);
    assert_eq!(graph.get_connections_for_part(part_a).len(), 1);
    assert_eq!(graph.get_connections_for_part(part_b).len(), 1);

    graph.remove_connection(connection_id);
    assert_eq!(graph.connections().len(), 0);
    assert_eq!(graph.get_connections_for_part(part_a).len(), 0);
}

#[test]
fn test_is_coupling_connected() {
    let mut graph = ConnectionGraph::new();
    let part_a = Uuid::new_v4().as_u128();
    let part_b = Uuid::new_v4().as_u128();

    graph.add_connection(stud_connection(part_a, part_b, "stud_0", "antistud_0"));

    assert!(graph.is_coupling_connected(part_a, "stud_0"));
    assert!(graph.is_coupling_connected(part_b, "antistud_0"));
    assert!(!graph.is_coupling_connected(part_a, "stud_1"));
}

#[test]
fn index_follows_removals() {
    let mut graph = ConnectionGraph::default();
    let (a, b, c) = (1u128, 2u128, 3u128);
    let first = stud_connection(a, b, "stud_0", "antistud_0");
    let second = stud_connection(b, c, "stud_0", "antistud_0");
    let third = stud_connection(a, c, "stud_1", "antistud_1");
    let second_id = second.id;
    graph.add_connection(first);
    graph.add_connection(second);
    graph.add_connection(third);
    assert_eq!(graph.get_connections_for_part(a).len(), 2);
    assert_eq!(graph.get_connections_for_part(c).len(), 2);
    graph.remove_connection(second_id);
    assert_eq!(graph.connections().len(), 2);
    assert_eq!(graph.get_connections_for_part(b).len(), 1);
    let for_c = graph.get_connections_for_part(c);
    assert_eq!(for_c.len(), 1);
    assert_eq!(for_c[0].coupling_a, (a, "stud_1".to_string()));
    assert!(!graph.is_coupling_connected(b, "stud_0"));
    assert!(graph.is_coupling_connected(c, "antistud_1"));
    assert!(graph.get_connections_for_part(4).is_empty());
}

#[test]
fn connection_within_one_part_is_listed_twice() {
    let mut graph = ConnectionGraph::new();
    graph.add_connection(stud_connection(7, 7, "stud_0", "antistud_0"));
    assert_eq!(graph.get_connections_for_part(7).len(), 2);
    assert!(graph.is_coupling_connected(7, "antistud_0"));
}

#[test]
fn state_changes_keep_the_index() {
    let mut graph = ConnectionGraph::new();
    graph.add_connection(stud_connection(1, 2, "stud_0", "antistud_0"));
    let mut state = ConnectionState::default();
    state.intact = false;
    state.force = vector(20.0, 0.0, 0.0);
    graph.set_connection_state(0, state);
    assert!(!graph.connections()[0].state.intact);
    assert_eq!(graph.connections()[0].state.force, vector(20.0, 0.0, 0.0));
    assert_eq!(graph.get_connections_for_part(2).len(), 1);
}

#[test]
fn new_connections_have_version_four_ids() {
    let connection = stud_connection(1, 2, "stud", "antistud");
    assert_eq!((connection.id >> 76) & 0xf, 4);
    assert_eq!((connection.id >> 62) & 0x3, 2);
    let other = stud_connection(1, 2, "stud", "antistud");
    assert_ne!(connection.id, other.id);
}

#[test]
fn removing_several_connections_keeps_the_others() {
    let mut graph = ConnectionGraph::new();
    let first = stud_connection(1, 2, "stud_0", "antistud_0");
    let second = stud_connection(1, 3, "stud_1", "antistud_0");
    let third = stud_connection(2, 3, "stud_0", "antistud_1");
    let (first_id, second_id, third_id) = (first.id, second.id, third.id);
    graph.add_connection(first);
    graph.add_connection(second);
    graph.add_connection(third);
    graph.remove_connections(&vec![third_id, first_id, 99]);
    assert_eq!(graph.connections().len(), 1);
    assert_eq!(graph.connections()[0].id, second_id);
    assert_eq!(graph.get_connections_for_part(2).len(), 0);
    assert_eq!(graph.get_connections_for_part(3).len(), 1);
}
