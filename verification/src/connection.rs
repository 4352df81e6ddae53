//! Connections between the couplings of parts, and the graph of all
//! connections of a model with its index by part.
//!
//! Parts and connections are identified by the 128 bits of their UUIDs.
//! Vectors and matrices, which come out of floating-point geometry, are held
//! as the bit patterns of their IEEE 754 single-precision components.

use std::collections::HashMap;

use vstd::prelude::*;

use crate::couplings::{connection_between, ConnectionProperties, CouplingType};
use crate::text::same_text;

verus! {

broadcast use vstd::std_specs::hash::group_hash_axioms;

/// The bit pattern of the single-precision number 1.0.
pub const ONE_BITS: u32 = 0x3f80_0000;

/// The 4x4 identity matrix, column by column, as bit patterns.
pub open spec fn identity_bits() -> Seq<u32> {
    seq![
        ONE_BITS, 0u32, 0u32, 0u32,
        0u32, ONE_BITS, 0u32, 0u32,
        0u32, 0u32, ONE_BITS, 0u32,
        0u32, 0u32, 0u32, ONE_BITS,
    ]
}

/// The zero vector, as bit patterns.
pub open spec fn zero_bits() -> Seq<u32> {
    seq![0u32, 0u32, 0u32]
}

/// The state of a connection during a simulation.
#[derive(Debug, Clone, Copy, PartialEq)]
pub struct ConnectionState {
    /// The transform between the connected parts.
    pub relative_transform: [u32; 16],
    /// The force acting on the connection.
    pub force: [u32; 3],
    /// The torque acting on the connection.
    pub torque: [u32; 3],
    /// The angle of a rotational connection.
    pub angle: Option<u32>,
    /// The displacement of a linear connection.
    pub displacement: Option<u32>,
    /// Whether the connection holds.
    pub intact: bool,
}

/// `s` is the state of a fresh connection: no relative transform, no force,
/// no torque, no angle or displacement yet, and intact.
pub open spec fn is_initial_state(s: ConnectionState) -> bool {
    &&& s.relative_transform@ == identity_bits()
    &&& s.force@ == zero_bits()
    &&& s.torque@ == zero_bits()
    &&& s.angle is None
    &&& s.displacement is None
    &&& s.intact
}

impl Default for ConnectionState {
    fn default() -> (r: Self)
        ensures
            is_initial_state(r),
    {
        let relative_transform: [u32; 16] = [
            ONE_BITS, 0, 0, 0,
            0, ONE_BITS, 0, 0,
            0, 0, ONE_BITS, 0,
            0, 0, 0, ONE_BITS,
        ];
        let force: [u32; 3] = [0, 0, 0];
        let torque: [u32; 3] = [0, 0, 0];
        assert(relative_transform@ =~= identity_bits());
        assert(force@ =~= zero_bits());
        assert(torque@ =~= zero_bits());
        ConnectionState { relative_transform, force, torque, angle: None, displacement: None, intact: true }
    }
}

/// A link between couplings of two parts.
#[derive(Debug, PartialEq)]
pub struct Connection {
    /// The identifier of the connection.
    pub id: u128,
    /// The coupling on the first part: the part's identifier and the
    /// coupling's.
    pub coupling_a: (u128, String),
    /// The coupling on the second part.
    pub coupling_b: (u128, String),
    /// The physical properties of the connection.
    pub properties: ConnectionProperties,
    /// The current state of the connection.
    pub state: ConnectionState,
    /// Where the connection was made, in world space, on the first part.
    pub connection_point_a: [u32; 3],
    /// Where the connection was made, in world space, on the second part.
    pub connection_point_b: [u32; 3],
}

impl Clone for Connection {
    fn clone(&self) -> (r: Self)
        ensures
            r == *self,
    {
        Connection {
            id: self.id,
            coupling_a: (self.coupling_a.0, self.coupling_a.1.clone()),
            coupling_b: (self.coupling_b.0, self.coupling_b.1.clone()),
            properties: self.properties,
            state: self.state,
            connection_point_a: self.connection_point_a,
            connection_point_b: self.connection_point_b,
        }
    }
}

/// `id`, read as the 128 bits of a UUID, has version 4 and the variant bits
/// `10`.
pub open spec fn is_v4_id(id: u128) -> bool {
    &&& (id >> 76u128) & 0xfu128 == 4u128
    &&& (id >> 62u128) & 0x3u128 == 2u128
}

/// A fresh random identifier, as the 128 bits of a version 4 UUID.
///
/// Calls `uuid::Uuid::new_v4`, which draws random bits from the operating
/// system and sets the version nibble to 4 and the variant bits to `10`, and
/// `Uuid::as_u128`, which gives those bits in big-endian order. The contract
/// states the version and variant bits; the rest is random.
#[verifier::external_body]
fn new_connection_id() -> (r: u128)
    ensures
        is_v4_id(r),
{
    uuid::Uuid::new_v4().as_u128()
}

impl Connection {
    /// A connection between two couplings, when their types connect: with a
    /// fresh identifier, the properties of that connection, and the initial
    /// state.
    pub fn new(
        coupling_a: (u128, String),
        coupling_b: (u128, String),
        type_a: CouplingType,
        type_b: CouplingType,
        connection_point_a: [u32; 3],
        connection_point_b: [u32; 3],
    ) -> (r: Option<Self>)
        ensures
            r is Some <==> connection_between(type_a, type_b) is Some,
            r matches Some(c) ==> {
                &&& c.coupling_a == coupling_a
                &&& c.coupling_b == coupling_b
                &&& connection_between(type_a, type_b) == Some(c.properties)
                &&& is_initial_state(c.state)
                &&& c.connection_point_a == connection_point_a
                &&& c.connection_point_b == connection_point_b
                &&& is_v4_id(c.id)
            },
    {
        let properties = match type_a.can_connect_to(&type_b) {
            Some(p) => p,
            None => return None,
        };
        Some(
            Connection {
                id: new_connection_id(),
                coupling_a,
                coupling_b,
                properties,
                state: ConnectionState::default(),
                connection_point_a,
                connection_point_b,
            },
        )
    }
}

/// The positions in `s` of the connections that involve the part `p`, in
/// order; a connection between two couplings of `p` is listed twice.
pub open spec fn part_indices(s: Seq<Connection>, p: u128) -> Seq<usize>
    decreases s.len(),
{
    if s.len() == 0 {
        Seq::empty()
    } else {
        let n = (s.len() - 1) as usize;
        part_indices(s.drop_last(), p) + (if s.last().coupling_a.0 == p {
            seq![n]
        } else {
            Seq::empty()
        }) + (if s.last().coupling_b.0 == p {
            seq![n]
        } else {
            Seq::empty()
        })
    }
}

/// The connection `c` involves the coupling `coupling` of the part `part`.
pub open spec fn involves(c: Connection, part: u128, coupling: Seq<char>) -> bool {
    ||| c.coupling_a.0 == part && c.coupling_a.1@ == coupling
    ||| c.coupling_b.0 == part && c.coupling_b.1@ == coupling
}

/// `index` lists, for every part that a connection of `s` involves, and only
/// for those, the positions of its connections.
pub open spec fn indexes(s: Seq<Connection>, index: Map<u128, Vec<usize>>) -> bool {
    &&& forall|p: u128| #[trigger] index.contains_key(p) <==> part_indices(s, p).len() > 0
    &&& forall|p: u128| #[trigger] index.contains_key(p) ==> index[p]@ == part_indices(s, p)
}

/// The positions listed for a part are positions of connections that
/// involve it, and every connection that involves it is listed.
pub proof fn lemma_part_indices(s: Seq<Connection>, p: u128)
    requires
        s.len() <= usize::MAX,
    ensures
        forall|k: int|
            0 <= k < part_indices(s, p).len() ==> {
                let i = #[trigger] part_indices(s, p)[k] as int;
                0 <= i < s.len() && (s[i].coupling_a.0 == p || s[i].coupling_b.0 == p)
            },
        forall|i: int|
            0 <= i < s.len() && (s[i].coupling_a.0 == p || s[i].coupling_b.0 == p) ==> #[trigger] part_indices(
                s,
                p,
            ).contains(i as usize),
    decreases s.len(),
{
    if s.len() > 0 {
        let prefix = s.drop_last();
        lemma_part_indices(prefix, p);
        let before = part_indices(prefix, p);
        let n = (s.len() - 1) as usize;
        let tail_a: Seq<usize> = if s.last().coupling_a.0 == p {
            seq![n]
        } else {
            Seq::empty()
        };
        let tail_b: Seq<usize> = if s.last().coupling_b.0 == p {
            seq![n]
        } else {
            Seq::empty()
        };
        let all = part_indices(s, p);
        assert(all == before + tail_a + tail_b);
        assert forall|k: int| 0 <= k < all.len() implies {
            let i = #[trigger] all[k] as int;
            0 <= i < s.len() && (s[i].coupling_a.0 == p || s[i].coupling_b.0 == p)
        } by {
            if k < before.len() {
                assert(all[k] == before[k]);
                assert(prefix[before[k] as int] == s[before[k] as int]);
            } else {
                assert(all[k] == n);
            }
        }
        assert forall|i: int| 0 <= i < s.len() && (s[i].coupling_a.0 == p || s[i].coupling_b.0 == p) implies #[trigger] all.contains(
            i as usize,
        ) by {
            if i < s.len() - 1 {
                assert(prefix[i] == s[i]);
                assert(before.contains(i as usize));
                let k = choose|k: int| 0 <= k < before.len() && before[k] == i as usize;
                assert(all[k] == i as usize);
            } else {
                if s.last().coupling_a.0 == p {
                    assert(all[before.len() as int] == i as usize);
                } else {
                    assert(all[(before.len() + tail_a.len()) as int] == i as usize);
                }
            }
        }
    }
}

/// `s` without the connections whose identifier is `id`, in order.
pub open spec fn without_id(s: Seq<Connection>, id: u128) -> Seq<Connection>
    decreases s.len(),
{
    if s.len() == 0 {
        Seq::empty()
    } else if s.last().id == id {
        without_id(s.drop_last(), id)
    } else {
        without_id(s.drop_last(), id).push(s.last())
    }
}

/// The positions of a part's connections depend only on which parts each
/// connection joins.
pub proof fn lemma_part_indices_same_parts(s: Seq<Connection>, t: Seq<Connection>, p: u128)
    requires
        s.len() == t.len(),
        forall|i: int|
            0 <= i < s.len() ==> #[trigger] s[i].coupling_a.0 == t[i].coupling_a.0 && s[i].coupling_b.0
                == t[i].coupling_b.0,
    ensures
        part_indices(s, p) == part_indices(t, p),
    decreases s.len(),
{
    if s.len() > 0 {
        assert forall|i: int| 0 <= i < s.len() - 1 implies #[trigger] s.drop_last()[i].coupling_a.0
            == t.drop_last()[i].coupling_a.0 && s.drop_last()[i].coupling_b.0 == t.drop_last()[i].coupling_b.0 by {
            assert(s[i].coupling_a.0 == t[i].coupling_a.0);
        }
        lemma_part_indices_same_parts(s.drop_last(), t.drop_last(), p);
        assert(s[s.len() - 1].coupling_a.0 == t[t.len() - 1].coupling_a.0);
    }
}

/// `s` without the connections whose identifiers are among `ids`, removed
/// one identifier after another.
pub open spec fn without_ids(s: Seq<Connection>, ids: Seq<u128>) -> Seq<Connection>
    decreases ids.len(),
{
    if ids.len() == 0 {
        s
    } else {
        without_id(without_ids(s, ids.drop_last()), ids.last())
    }
}

/// Removing the connections with an identifier leaves none with it, and
/// keeps every other connection.
pub proof fn removal_keeps_only_other_connections(s: Seq<Connection>, id: u128)
    ensures
        forall|i: int| 0 <= i < without_id(s, id).len() ==> #[trigger] without_id(s, id)[i].id != id,
        forall|i: int| 0 <= i < s.len() && s[i].id != id ==> without_id(s, id).contains(#[trigger] s[i]),
        forall|i: int| 0 <= i < without_id(s, id).len() ==> s.contains(#[trigger] without_id(s, id)[i]),
    decreases s.len(),
{
    if s.len() > 0 {
        let prefix = s.drop_last();
        removal_keeps_only_other_connections(prefix, id);
        let kept = without_id(prefix, id);
        let all = without_id(s, id);
        assert forall|i: int| 0 <= i < s.len() && s[i].id != id implies all.contains(#[trigger] s[i]) by {
            if i < s.len() - 1 {
                assert(prefix[i] == s[i]);
                assert(kept.contains(prefix[i]));
                let k = choose|k: int| 0 <= k < kept.len() && kept[k] == prefix[i];
                assert(all[k] == s[i]);
            } else {
                assert(all[all.len() - 1] == s[i]);
            }
        }
        assert forall|i: int| 0 <= i < all.len() implies s.contains(#[trigger] all[i]) by {
            if i < kept.len() {
                assert(all[i] == kept[i]);
                assert(prefix.contains(kept[i]));
                let k = choose|k: int| 0 <= k < prefix.len() && prefix[k] == kept[i];
                assert(s[k] == all[i]);
            } else {
                assert(s[s.len() - 1] == all[i]);
            }
        }
        assert forall|i: int| 0 <= i < all.len() implies #[trigger] all[i].id != id by {
            if i < kept.len() {
                assert(all[i] == kept[i]);
            }
        }
    }
}

/// All connections of a model, with an index of them by part.
#[derive(Debug)]
pub struct ConnectionGraph {
    connections: Vec<Connection>,
    connections_by_part: HashMap<u128, Vec<usize>>,
}

impl ConnectionGraph {
    /// The index lists exactly the connections of each part.
    #[verifier::type_invariant]
    pub closed spec fn inv(self) -> bool {
        indexes(self.connections@, self.connections_by_part@)
    }

    /// The connections, in the order in which they were added.
    pub closed spec fn entries(self) -> Seq<Connection> {
        self.connections@
    }

    /// An empty graph.
    pub fn new() -> (r: Self)
        ensures
            r.entries() == Seq::<Connection>::empty(),
    {
        ConnectionGraph { connections: Vec::new(), connections_by_part: HashMap::new() }
    }

    /// The connections, in the order in which they were added.
    pub fn connections(&self) -> (r: &Vec<Connection>)
        ensures
            r@ == self.entries(),
    {
        &self.connections
    }

    /// Lists `position` last among the positions of `part` in `index`.
    fn note_part(index: &mut HashMap<u128, Vec<usize>>, part: u128, position: usize)
        ensures
            final(index)@.contains_key(part),
            final(index)@[part]@ == (if old(index)@.contains_key(part) {
                old(index)@[part]@
            } else {
                Seq::empty()
            }).push(position),
            forall|q: u128| q != part ==> (#[trigger] final(index)@.contains_key(q) <==> old(index)@.contains_key(q)),
            forall|q: u128| q != part && #[trigger] old(index)@.contains_key(q) ==> final(index)@[q] == old(index)@[q],
    {
        let mut positions = match index.remove(&part) {
            Some(v) => v,
            None => Vec::new(),
        };
        positions.push(position);
        index.insert(part, positions);
    }

    /// Adds a connection after the others, and lists it under both of its
    /// parts.
    pub fn add_connection(&mut self, connection: Connection)
        ensures
            final(self).entries() == old(self).entries().push(connection),
    {
        proof {
            use_type_invariant(&*self);
        }
        let mut emptied = ConnectionGraph::new();
        std::mem::swap(self, &mut emptied);
        let ConnectionGraph { mut connections, mut connections_by_part } = emptied;
        let ghost before = connections@;
        let ghost part_a = connection.coupling_a.0;
        let ghost part_b = connection.coupling_b.0;
        let position = connections.len();
        Self::note_part(&mut connections_by_part, connection.coupling_a.0, position);
        Self::note_part(&mut connections_by_part, connection.coupling_b.0, position);
        connections.push(connection);
        proof {
            let after = connections@;
            assert(after.drop_last() =~= before);
            assert forall|p: u128| #[trigger] connections_by_part@.contains_key(p) <==> part_indices(after, p).len() > 0 by {
                assert(part_indices(after, p) == part_indices(before, p) + (if part_a == p {
                    seq![position]
                } else {
                    Seq::empty()
                }) + (if part_b == p {
                    seq![position]
                } else {
                    Seq::empty()
                }));
            }
            assert forall|p: u128| #[trigger] connections_by_part@.contains_key(p) implies connections_by_part@[p]@
                == part_indices(after, p) by {
                assert(part_indices(after, p) == part_indices(before, p) + (if part_a == p {
                    seq![position]
                } else {
                    Seq::empty()
                }) + (if part_b == p {
                    seq![position]
                } else {
                    Seq::empty()
                }));
                if p == part_a && p == part_b {
                    assert(part_indices(after, p) =~= part_indices(before, p).push(position).push(position));
                } else if p == part_a {
                    assert(part_indices(after, p) =~= part_indices(before, p).push(position));
                } else if p == part_b {
                    assert(part_indices(after, p) =~= part_indices(before, p).push(position));
                } else {
                    assert(part_indices(after, p) =~= part_indices(before, p));
                }
            }
        }
        *self = ConnectionGraph { connections, connections_by_part };
    }

    /// Removes the connections with the identifier `connection_id` and
    /// lists the others anew.
    /// Removes the connections whose identifiers are among `ids`, as
    /// removing each identifier in turn does.
    pub fn remove_connections(&mut self, ids: &Vec<u128>)
        ensures
            final(self).entries() == without_ids(old(self).entries(), ids@),
    {
        let ghost start = self.entries();
        let mut i: usize = 0;
        proof {
            assert(ids@.take(0) =~= Seq::<u128>::empty());
        }
        while i < ids.len()
            invariant
                i <= ids@.len(),
                self.entries() == without_ids(start, ids@.take(i as int)),
            decreases ids@.len() - i,
        {
            self.remove_connection(ids[i]);
            proof {
                assert(ids@.take(i + 1).drop_last() =~= ids@.take(i as int));
            }
            i = i + 1;
        }
        proof {
            assert(ids@.take(ids@.len() as int) =~= ids@);
        }
    }

    pub fn remove_connection(&mut self, connection_id: u128)
        ensures
            final(self).entries() == without_id(old(self).entries(), connection_id),
    {
        let mut emptied = ConnectionGraph::new();
        std::mem::swap(self, &mut emptied);
        let ConnectionGraph { connections, connections_by_part: _ } = emptied;
        let ghost all = connections@;
        proof {
            assert(all.take(0) =~= Seq::<Connection>::empty());
        }
        for connection in it: connections
            invariant
                it.seq() == all,
                self.entries() == without_id(all.take(it.index() as int), connection_id),
        {
            let ghost i = it.index() as int;
            proof {
                assert(all.take(i + 1).drop_last() =~= all.take(i));
            }
            if connection.id != connection_id {
                self.add_connection(connection);
            }
        }
        proof {
            assert(all.take(all.len() as int) =~= all);
        }
    }

    /// The connections that involve the part `part_id`, in the order in
    /// which they were added; a connection between two couplings of the part
    /// is given twice.
    pub fn get_connections_for_part(&self, part_id: u128) -> (r: Vec<&Connection>)
        ensures
            r@.len() == part_indices(self.entries(), part_id).len(),
            forall|k: int|
                0 <= k < r@.len() ==> *r@[k] == self.entries()[#[trigger] part_indices(self.entries(), part_id)[k] as int],
    {
        let connection_count = self.connections.len();
        proof {
            use_type_invariant(self);
            lemma_part_indices(self.connections@, part_id);
        }
        let mut result: Vec<&Connection> = Vec::new();
        match self.connections_by_part.get(&part_id) {
            Some(indices) => {
                let ghost listed = part_indices(self.connections@, part_id);
                let mut k: usize = 0;
                while k < indices.len()
                    invariant
                        k <= indices@.len(),
                        indices@ == listed,
                        listed == part_indices(self.connections@, part_id),
                        forall|j: int| 0 <= j < listed.len() ==> (#[trigger] listed[j] as int) < self.connections@.len(),
                        result@.len() == k,
                        forall|j: int| 0 <= j < k ==> *result@[j] == self.connections@[#[trigger] listed[j] as int],
                    decreases indices@.len() - k,
                {
                    let position = indices[k];
                    assert(listed[k as int] == position);
                    result.push(&self.connections[position]);
                    k = k + 1;
                }
            },
            None => {},
        }
        result
    }

    /// Whether the coupling `coupling_id` of the part `part_id` takes part in
    /// some connection.
    pub fn is_coupling_connected(&self, part_id: u128, coupling_id: &str) -> (r: bool)
        ensures
            r == exists|i: int| 0 <= i < self.entries().len() && involves(#[trigger] self.entries()[i], part_id, coupling_id@),
    {
        let connection_count = self.connections.len();
        proof {
            lemma_part_indices(self.entries(), part_id);
        }
        let ghost listed = part_indices(self.entries(), part_id);
        let found = self.get_connections_for_part(part_id);
        let mut k: usize = 0;
        while k < found.len()
            invariant
                k <= found@.len() == listed.len(),
                listed == part_indices(self.entries(), part_id),
                forall|j: int| 0 <= j < listed.len() ==> (#[trigger] listed[j] as int) < self.entries().len(),
                forall|j: int| 0 <= j < found@.len() ==> *found@[j] == self.entries()[#[trigger] listed[j] as int],
                forall|j: int| 0 <= j < k ==> !involves(*found@[j], part_id, coupling_id@),
            decreases found@.len() - k,
        {
            let c = found[k];
            if (c.coupling_a.0 == part_id && same_text(c.coupling_a.1.as_str(), coupling_id)) || (
            c.coupling_b.0 == part_id && same_text(c.coupling_b.1.as_str(), coupling_id)) {
                assert(involves(self.entries()[listed[k as int] as int], part_id, coupling_id@));
                return true;
            }
            k = k + 1;
        }
        proof {
            assert forall|i: int| 0 <= i < self.entries().len() implies !involves(
                #[trigger] self.entries()[i],
                part_id,
                coupling_id@,
            ) by {
                if involves(self.entries()[i], part_id, coupling_id@) {
                    assert(listed.contains(i as usize));
                    let j = choose|j: int| 0 <= j < listed.len() && listed[j] == i as usize;
                    assert(*found@[j] == self.entries()[i]);
                }
            }
        }
        false
    }

    /// Replaces the state of the connection at `position`.
    pub fn set_connection_state(&mut self, position: usize, state: ConnectionState)
        requires
            position < old(self).entries().len(),
        ensures
            final(self).entries() == old(self).entries().update(
                position as int,
                Connection { state, ..old(self).entries()[position as int] },
            ),
    {
        proof {
            use_type_invariant(&*self);
        }
        let mut emptied = ConnectionGraph::new();
        std::mem::swap(self, &mut emptied);
        let ConnectionGraph { mut connections, connections_by_part } = emptied;
        let ghost before = connections@;
        let mut changed = connections[position].clone();
        changed.state = state;
        connections.set(position, changed);
        proof {
            assert forall|p: u128| part_indices(connections@, p) == part_indices(before, p) by {
                lemma_part_indices_same_parts(connections@, before, p);
            }
        }
        *self = ConnectionGraph { connections, connections_by_part };
    }
}

impl Default for ConnectionGraph {
    fn default() -> (r: Self)
        ensures
            r.entries() == Seq::<Connection>::empty(),
    {
        ConnectionGraph::new()
    }
}

} // verus!
