//! The constraints that the intact connections of a model put on the
//! movement of its parts.

use vstd::prelude::*;

use crate::connection::{Connection, ConnectionGraph, ONE_BITS};
use crate::couplings::ConnectionMode;

verus! {

/// A constraint for the physics simulation. Parts are identified by their
/// UUIDs' bits; points and axes are bit patterns of single-precision
/// components; angles are in thousandths of a degree and displacements in
/// thousandths of an LDU.
#[derive(Debug, Clone, Copy, PartialEq, Eq)]
pub enum Constraint {
    /// Keeps two points at the same position.
    Point { part_a: u128, part_b: u128, local_point_a: [u32; 3], local_point_b: [u32; 3] },
    /// Keeps two axes aligned, within a range of angles.
    Hinge {
        part_a: u128,
        part_b: u128,
        local_axis_a: [u32; 3],
        local_axis_b: [u32; 3],
        min_angle: i32,
        max_angle: i32,
    },
    /// A ball joint with an angular limit.
    Ball {
        part_a: u128,
        part_b: u128,
        local_point_a: [u32; 3],
        local_point_b: [u32; 3],
        max_angle: i32,
    },
    /// Sliding along an axis, within a range of displacements.
    Linear {
        part_a: u128,
        part_b: u128,
        local_axis: [u32; 3],
        min_displacement: i32,
        max_displacement: i32,
    },
}

/// The unit vector along the z axis, as bit patterns.
pub open spec fn unit_z_bits() -> Seq<u32> {
    seq![0u32, 0u32, ONE_BITS]
}

/// The constraint that the connection `c` puts on its parts: none when it
/// is broken or when its mode has no constraint yet; a point constraint
/// between the connection points when it is fixed; a hinge about the z axis
/// with the hinge's angles; a ball joint at the connection points with the
/// joint's angle; a slide along the z axis by up to 10 LDU either way.
pub open spec fn constraint_of(c: Connection) -> Option<Constraint> {
    if !c.state.intact {
        None
    } else {
        match c.properties.mode {
            ConnectionMode::Fixed => Some(
                Constraint::Point {
                    part_a: c.coupling_a.0,
                    part_b: c.coupling_b.0,
                    local_point_a: c.connection_point_a,
                    local_point_b: c.connection_point_b,
                },
            ),
            ConnectionMode::Hinge { min_angle, max_angle, .. } => Some(
                Constraint::Hinge {
                    part_a: c.coupling_a.0,
                    part_b: c.coupling_b.0,
                    local_axis_a: [0u32, 0u32, ONE_BITS],
                    local_axis_b: [0u32, 0u32, ONE_BITS],
                    min_angle,
                    max_angle,
                },
            ),
            ConnectionMode::BallJoint { max_angle, .. } => Some(
                Constraint::Ball {
                    part_a: c.coupling_a.0,
                    part_b: c.coupling_b.0,
                    local_point_a: c.connection_point_a,
                    local_point_b: c.connection_point_b,
                    max_angle,
                },
            ),
            ConnectionMode::Linear { .. } => Some(
                Constraint::Linear {
                    part_a: c.coupling_a.0,
                    part_b: c.coupling_b.0,
                    local_axis: [0u32, 0u32, ONE_BITS],
                    min_displacement: -10000 as i32,
                    max_displacement: 10000,
                },
            ),
            _ => None,
        }
    }
}

/// A constraint keeps each connected part with its own side of the
/// connection: its first part is the part of the connection's first coupling
/// and its second part that of the second; a point or ball constraint pins
/// each part at its own connection point, never at the other's; a ball keeps
/// the joint's angular limit and a hinge its range of angles. Only an intact
/// connection is constrained, and the kind of constraint follows the mode.
pub proof fn constraints_keep_each_side(c: Connection)
    ensures
        constraint_of(c) is Some ==> c.state.intact,
        c.state.intact && (c.properties.mode is Fixed || c.properties.mode is Hinge || c.properties.mode is BallJoint
            || c.properties.mode is Linear) ==> constraint_of(c) is Some,
        constraint_of(c) matches Some(Constraint::Point { part_a, part_b, local_point_a, local_point_b }) ==> {
            &&& c.properties.mode is Fixed
            &&& part_a == c.coupling_a.0 && part_b == c.coupling_b.0
            &&& local_point_a == c.connection_point_a && local_point_b == c.connection_point_b
        },
        constraint_of(c) matches Some(Constraint::Ball { part_a, part_b, local_point_a, local_point_b, max_angle }) ==> {
            &&& c.properties.mode matches ConnectionMode::BallJoint { max_angle: limit, .. } && max_angle == limit
            &&& part_a == c.coupling_a.0 && part_b == c.coupling_b.0
            &&& local_point_a == c.connection_point_a && local_point_b == c.connection_point_b
        },
        constraint_of(c) matches Some(Constraint::Hinge { part_a, part_b, min_angle, max_angle, .. }) ==> {
            &&& c.properties.mode matches ConnectionMode::Hinge { min_angle: low, max_angle: high, .. }
                && min_angle == low && max_angle == high
            &&& part_a == c.coupling_a.0 && part_b == c.coupling_b.0
        },
        constraint_of(c) matches Some(Constraint::Linear { part_a, part_b, min_displacement, max_displacement, .. })
            ==> {
            &&& c.properties.mode is Linear
            &&& part_a == c.coupling_a.0 && part_b == c.coupling_b.0
            &&& min_displacement < 0 < max_displacement
        },
{
}

/// The constraints of the connections of `s`, in order.
pub open spec fn constraints_of(s: Seq<Connection>) -> Seq<Constraint>
    decreases s.len(),
{
    if s.len() == 0 {
        Seq::empty()
    } else {
        constraints_of(s.drop_last()) + match constraint_of(s.last()) {
            Some(k) => seq![k],
            None => Seq::empty(),
        }
    }
}

/// Keeps the constraints of a model's connections.
pub struct ConstraintSolver {
    constraints: Vec<Constraint>,
}

impl ConstraintSolver {
    /// The constraints built last.
    pub closed spec fn built(self) -> Seq<Constraint> {
        self.constraints@
    }

    /// A solver with no constraints.
    pub fn new() -> (r: Self)
        ensures
            r.built() == Seq::<Constraint>::empty(),
    {
        ConstraintSolver { constraints: Vec::new() }
    }

    /// The constraint of one connection.
    fn constraint_for(connection: &Connection) -> (r: Option<Constraint>)
        ensures
            r == constraint_of(*connection),
    {
        if !connection.state.intact {
            return None;
        }
        let unit_z: [u32; 3] = [0, 0, ONE_BITS];
        match connection.properties.mode {
            ConnectionMode::Fixed => Some(
                Constraint::Point {
                    part_a: connection.coupling_a.0,
                    part_b: connection.coupling_b.0,
                    local_point_a: connection.connection_point_a,
                    local_point_b: connection.connection_point_b,
                },
            ),
            ConnectionMode::Hinge { min_angle, max_angle, .. } => Some(
                Constraint::Hinge {
                    part_a: connection.coupling_a.0,
                    part_b: connection.coupling_b.0,
                    local_axis_a: unit_z,
                    local_axis_b: unit_z,
                    min_angle,
                    max_angle,
                },
            ),
            ConnectionMode::BallJoint { max_angle, .. } => Some(
                Constraint::Ball {
                    part_a: connection.coupling_a.0,
                    part_b: connection.coupling_b.0,
                    local_point_a: connection.connection_point_a,
                    local_point_b: connection.connection_point_b,
                    max_angle,
                },
            ),
            ConnectionMode::Linear { .. } => Some(
                Constraint::Linear {
                    part_a: connection.coupling_a.0,
                    part_b: connection.coupling_b.0,
                    local_axis: unit_z,
                    min_displacement: -10000,
                    max_displacement: 10000,
                },
            ),
            _ => None,
        }
    }

    /// Replaces the constraints by those of the intact connections of
    /// `connections`, in order.
    pub fn build_constraints(&mut self, connections: &ConnectionGraph)
        ensures
            final(self).built() == constraints_of(connections.entries()),
    {
        self.constraints.clear();
        let all = connections.connections();
        let n = all.len();
        let mut i: usize = 0;
        proof {
            assert(all@.take(0) =~= Seq::<Connection>::empty());
        }
        while i < n
            invariant
                n == all@.len(),
                all@ == connections.entries(),
                i <= n,
                self.constraints@ == constraints_of(all@.take(i as int)),
            decreases n - i,
        {
            proof {
                assert(all@.take(i + 1).drop_last() =~= all@.take(i as int));
            }
            match Self::constraint_for(&all[i]) {
                Some(constraint) => {
                    self.constraints.push(constraint);
                },
                None => {},
            }
            i = i + 1;
        }
        proof {
            assert(all@.take(n as int) =~= all@);
        }
    }

    /// The constraints built last.
    pub fn constraints(&self) -> (r: &[Constraint])
        ensures
            r@ == self.built(),
    {
        self.constraints.as_slice()
    }

    /// Solving the constraints is not implemented yet: the parts' transforms
    /// stay as they are.
    pub fn solve(&self, _iterations: usize) {
    }
}

impl Default for ConstraintSolver {
    fn default() -> (r: Self)
        ensures
            r.built() == Seq::<Constraint>::empty(),
    {
        ConstraintSolver::new()
    }
}

} // verus!
