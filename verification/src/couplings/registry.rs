//! The LDraw primitives that stand for couplings, and the registry that
//! finds the coupling a primitive stands for.

use vstd::prelude::*;

use crate::couplings::ldu_constants::{FULL_PIN_LENGTH, HALF_PIN_LENGTH};
use crate::couplings::{CouplingGeometry, CouplingType};
use crate::text::{
    ascii_lowercase, chars_of, decimal, is_ascii_text, lowercase_of, push_char, push_decimal, to_lowercase,
};

verus! {

/// A primitive that stands for a coupling. Positions and directions are in
/// thousandths of an LDU and of a unit vector's length.
pub struct PrimitiveMapping {
    /// The primitive's file name, compared without regard to case.
    pub pattern: String,
    /// The coupling the primitive stands for.
    pub coupling_type: CouplingType,
    /// The coupling's position relative to the primitive's origin.
    pub position_offset: [i32; 3],
    /// The direction the coupling faces, relative to the primitive.
    pub normal_direction: [i32; 3],
    /// The geometry to use in place of the coupling type's default.
    pub geometry_override: Option<CouplingGeometry>,
}

/// What a mapping says: its pattern's characters, the coupling type, the
/// offset, the normal, and the geometry override.
pub type MappingEntry = (Seq<char>, CouplingType, Seq<i32>, Seq<i32>, Option<CouplingGeometry>);

/// What the mapping `m` says.
pub open spec fn mapping_entry(m: PrimitiveMapping) -> MappingEntry {
    (m.pattern@, m.coupling_type, m.position_offset@, m.normal_direction@, m.geometry_override)
}

/// What each mapping of `s` says, in order.
pub open spec fn mapping_entries(s: Seq<PrimitiveMapping>) -> Seq<MappingEntry> {
    s.map_values(|m: PrimitiveMapping| mapping_entry(m))
}

/// The unit vector along the y axis, in thousandths.
pub open spec fn up() -> Seq<i32> {
    seq![0i32, 1000i32, 0i32]
}

/// The unit vector along the z axis, in thousandths.
pub open spec fn along_z() -> Seq<i32> {
    seq![0i32, 0i32, 1000i32]
}

/// A standard mapping: at the primitive's origin.
pub open spec fn entry(
    pattern: Seq<char>,
    coupling_type: CouplingType,
    normal: Seq<i32>,
    geometry: Option<CouplingGeometry>,
) -> MappingEntry {
    (pattern, coupling_type, seq![0i32, 0i32, 0i32], normal, geometry)
}

/// A linear geometry of the given length.
pub open spec fn linear(length: i32) -> Option<CouplingGeometry> {
    Some(CouplingGeometry::Linear { length })
}

/// Solid and hollow studs.
pub open spec fn stud_entries() -> Seq<MappingEntry> {
    seq![
        entry("stud.dat"@, CouplingType::Stud, up(), None),
        entry("stud2.dat"@, CouplingType::Stud, up(), None),
        entry("stud4.dat"@, CouplingType::HollowStud, up(), None),
        entry("stud4a.dat"@, CouplingType::HollowStud, up(), None),
    ]
}

/// Smooth pins of full and half length, and the bushing, which acts as a
/// pin.
pub open spec fn pin_entries() -> Seq<MappingEntry> {
    seq![
        entry("connect.dat"@, CouplingType::Pin, along_z(), linear(FULL_PIN_LENGTH)),
        entry("connect2.dat"@, CouplingType::Pin, along_z(), linear(FULL_PIN_LENGTH)),
        entry("connect5.dat"@, CouplingType::Pin, along_z(), linear(FULL_PIN_LENGTH)),
        entry("connect6.dat"@, CouplingType::Pin, along_z(), linear(FULL_PIN_LENGTH)),
        entry("connect7.dat"@, CouplingType::Pin, along_z(), linear(FULL_PIN_LENGTH)),
        entry("connect8.dat"@, CouplingType::Pin, along_z(), linear(FULL_PIN_LENGTH)),
        entry("connect10.dat"@, CouplingType::Pin, along_z(), linear(FULL_PIN_LENGTH)),
        entry("connect3.dat"@, CouplingType::HalfPin, along_z(), linear(HALF_PIN_LENGTH)),
        entry("connect4.dat"@, CouplingType::HalfPin, along_z(), linear(HALF_PIN_LENGTH)),
        entry("bush.dat"@, CouplingType::Pin, along_z(), linear(HALF_PIN_LENGTH)),
    ]
}

/// Full-length friction pins.
pub open spec fn friction_pin_entries() -> Seq<MappingEntry> {
    seq![
        entry("confric.dat"@, CouplingType::PinWithFriction, along_z(), linear(20000)),
        entry("confric2.dat"@, CouplingType::PinWithFriction, along_z(), linear(20000)),
        entry("confric5.dat"@, CouplingType::PinWithFriction, along_z(), linear(20000)),
    ]
}

/// Full and half pin holes, negative pin holes and beam holes.
pub open spec fn pin_hole_entries() -> Seq<MappingEntry> {
    seq![
        entry("peghole.dat"@, CouplingType::FullPinHole, along_z(), linear(20000)),
        entry("peghole2.dat"@, CouplingType::FullPinHole, along_z(), linear(20000)),
        entry("connhole.dat"@, CouplingType::FullPinHole, along_z(), linear(20000)),
        entry("peghole3.dat"@, CouplingType::HalfPinHole, along_z(), linear(10000)),
        entry("npeghole.dat"@, CouplingType::FullPinHole, along_z(), linear(20000)),
        entry("beamhole.dat"@, CouplingType::FullPinHole, along_z(), linear(20000)),
    ]
}

/// The open axle hole of depth `i`: `axlehol<i>.dat`.
pub open spec fn open_axle_hole_entry(i: int) -> MappingEntry {
    entry("axlehol"@ + decimal(i as nat) + ".dat"@, CouplingType::AxleHole, along_z(), linear(20000))
}

/// Axle cross sections, axle holes, and open axle holes of the depths 0 to
/// 11.
pub open spec fn axle_entries() -> Seq<MappingEntry> {
    seq![
        entry("axle.dat"@, CouplingType::Axle, along_z(), linear(4000)),
        entry("axleend.dat"@, CouplingType::Axle, along_z(), Some(CouplingGeometry::Point)),
        entry("axlehole.dat"@, CouplingType::AxleHole, along_z(), linear(20000)),
    ] + Seq::new(12, |i: int| open_axle_hole_entry(i))
}

/// The tube under a brick, which anti-studs grip.
pub open spec fn tube_entries() -> Seq<MappingEntry> {
    seq![
        entry(
            "4-4cyli.dat"@,
            CouplingType::Tube,
            up(),
            Some(CouplingGeometry::Circular { radius: 6000 }),
        ),
    ]
}

/// The standard mappings, in the order in which they are registered.
pub open spec fn standard_entries() -> Seq<MappingEntry> {
    stud_entries() + pin_entries() + friction_pin_entries() + pin_hole_entries() + axle_entries()
        + tube_entries()
}

/// The lower-cased name `name` refers to the primitive whose lower-cased
/// file name is `pattern`: it is that name, or a path that ends in it after
/// a `/` or a `\`.
pub open spec fn pattern_matches(name: Seq<char>, pattern: Seq<char>) -> bool {
    ||| name == pattern
    ||| name.len() > pattern.len() && name[name.len() - pattern.len() - 1] == '/'
        && name.skip(name.len() - pattern.len()) == pattern
    ||| name.len() > pattern.len() && name[name.len() - pattern.len() - 1] == '\\'
        && name.skip(name.len() - pattern.len()) == pattern
}

/// The primitive name `name` refers to the primitive of the mapping `m`,
/// both compared in lower case.
pub open spec fn refers_to(name: Seq<char>, m: PrimitiveMapping) -> bool {
    pattern_matches(lowercase_of(name), lowercase_of(m.pattern@))
}

/// What a search for the first mapping of `s` that `name` refers to learns
/// of lower-casing: for a name written in ASCII, and for each pattern
/// written in ASCII up to the one found (all of them when none is), the
/// lower-cased form is the one with ASCII letters in lower case.
pub open spec fn ascii_compared(name: Seq<char>, s: Seq<PrimitiveMapping>) -> bool {
    &&& is_ascii_text(name) ==> lowercase_of(name) == ascii_lowercase(name)
    &&& forall|j: int|
        0 <= j < s.len() && (first_match(name, s) matches Some(i) ==> j <= i) && is_ascii_text(
            #[trigger] s[j].pattern@,
        ) ==> lowercase_of(s[j].pattern@) == ascii_lowercase(s[j].pattern@)
}

/// The position of the first mapping of `s` whose pattern the primitive
/// name `name` refers to.
pub open spec fn first_match(name: Seq<char>, s: Seq<PrimitiveMapping>) -> Option<int>
    decreases s.len(),
{
    if s.len() == 0 {
        None
    } else {
        match first_match(name, s.drop_last()) {
            Some(i) => Some(i),
            None => if refers_to(name, s.last()) {
                Some(s.len() - 1)
            } else {
                None
            },
        }
    }
}

/// The first match is the position of a mapping that the name refers to,
/// before which the name refers to none; there is no first match when the
/// name refers to no mapping at all.
pub proof fn lemma_first_match(name: Seq<char>, s: Seq<PrimitiveMapping>)
    ensures
        first_match(name, s) matches Some(i) ==> 0 <= i < s.len() && refers_to(name, s[i]) && forall|j: int|
            0 <= j < i ==> !refers_to(name, #[trigger] s[j]),
        first_match(name, s) is None <==> forall|j: int| 0 <= j < s.len() ==> !refers_to(name, #[trigger] s[j]),
    decreases s.len(),
{
    if s.len() > 0 {
        let prefix = s.drop_last();
        lemma_first_match(name, prefix);
        assert forall|j: int| 0 <= j < prefix.len() implies #[trigger] prefix[j] == s[j] by {}
        if first_match(name, prefix) is None && !refers_to(name, s.last()) {
            assert forall|j: int| 0 <= j < s.len() implies !refers_to(name, #[trigger] s[j]) by {
                if j < prefix.len() {
                    assert(prefix[j] == s[j]);
                }
            }
        }
        if first_match(name, prefix) is None && refers_to(name, s.last()) {
            assert forall|j: int| 0 <= j < s.len() - 1 implies !refers_to(name, #[trigger] s[j]) by {
                assert(prefix[j] == s[j]);
            }
        }
        if first_match(name, prefix) is Some {
            let i = first_match(name, prefix)->0;
            assert(prefix[i] == s[i]);
            assert forall|j: int| 0 <= j < i implies !refers_to(name, #[trigger] s[j]) by {
                assert(prefix[j] == s[j]);
            }
        }
    }
}

/// A mapping's own file name, in any case and after any path, finds a
/// mapping: the mapping itself or one registered before it.
pub proof fn own_pattern_is_found(s: Seq<PrimitiveMapping>, i: int)
    requires
        0 <= i < s.len(),
    ensures
        first_match(s[i].pattern@, s) matches Some(j) && j <= i,
{
    lemma_first_match(s[i].pattern@, s);
    assert(refers_to(s[i].pattern@, s[i]));
}

/// The geometry that the entry `e` gives its coupling: its override, or
/// the default of its coupling type.
pub open spec fn entry_geometry(e: MappingEntry) -> CouplingGeometry {
    match e.4 {
        Some(g) => g,
        None => crate::couplings::default_geometry_of(e.1),
    }
}

/// A geometry has a positive size where it has one.
pub open spec fn positive_geometry(g: CouplingGeometry) -> bool {
    match g {
        CouplingGeometry::Linear { length } => length > 0,
        CouplingGeometry::Circular { radius } => radius > 0,
        _ => true,
    }
}

/// Every standard primitive gives its coupling a geometry of positive
/// length or radius.
pub proof fn standard_geometries_are_positive()
    ensures
        forall|i: int|
            0 <= i < standard_entries().len() ==> positive_geometry(entry_geometry(#[trigger] standard_entries()[i])),
{
    let all = standard_entries();
    let axles = axle_entries();
    assert forall|i: int| 0 <= i < all.len() implies positive_geometry(entry_geometry(#[trigger] all[i])) by {
        let a = stud_entries().len() + pin_entries().len() + friction_pin_entries().len() + pin_hole_entries().len();
        if a <= i < a + axles.len() {
            let k = i - a;
            assert(all[i] == axles[k]);
            if k >= 3 {
                assert(axles[k] == open_axle_hole_entry(k - 3));
            }
        }
    }
}

/// The characters of `t` stand in `s` from `offset` on, up to the end of `s`.
fn tail_equals(s: &Vec<char>, offset: usize, t: &Vec<char>) -> (r: bool)
    requires
        offset + t.len() == s.len(),
    ensures
        r == (s@.skip(offset as int) == t@),
{
    let mut k: usize = 0;
    while k < t.len()
        invariant
            k <= t.len(),
            offset + t.len() == s.len(),
            forall|m: int| 0 <= m < k ==> s@[offset + m] == t@[m],
        decreases t.len() - k,
    {
        if s[offset + k] != t[k] {
            assert(s@.skip(offset as int)[k as int] != t@[k as int]);
            return false;
        }
        k = k + 1;
    }
    assert(s@.skip(offset as int) =~= t@);
    true
}

/// Whether the lower-cased primitive name `name` refers to the primitive
/// whose lower-cased file name is `pattern`.
pub fn name_matches_pattern(name: &str, pattern: &str) -> (r: bool)
    ensures
        r == pattern_matches(name@, pattern@),
{
    let n = chars_of(name);
    let p = chars_of(pattern);
    if n.len() == p.len() {
        let same = tail_equals(&n, 0, &p);
        proof {
            assert(n@.skip(0) =~= n@);
        }
        same
    } else if n.len() > p.len() {
        let offset = n.len() - p.len();
        let separator = n[offset - 1];
        (separator == '/' || separator == '\\') && tail_equals(&n, offset, &p)
    } else {
        false
    }
}

/// A mapping at the primitive's origin.
fn standard_mapping(
    pattern: &str,
    coupling_type: CouplingType,
    normal_direction: [i32; 3],
    geometry_override: Option<CouplingGeometry>,
) -> (r: PrimitiveMapping)
    ensures
        mapping_entry(r) == (pattern@, coupling_type, seq![0i32, 0i32, 0i32], normal_direction@, geometry_override),
{
    let position_offset: [i32; 3] = [0, 0, 0];
    assert(position_offset@ =~= seq![0i32, 0i32, 0i32]);
    PrimitiveMapping {
        pattern: pattern.to_owned(),
        coupling_type,
        position_offset,
        normal_direction,
        geometry_override,
    }
}

/// The ordered collection of primitive mappings.
pub struct PrimitiveRegistry {
    mappings: Vec<PrimitiveMapping>,
}

impl PrimitiveRegistry {
    /// The registered mappings, in order.
    pub closed spec fn entries(self) -> Seq<PrimitiveMapping> {
        self.mappings@
    }

    /// A registry of the standard LDraw primitives.
    pub fn new() -> (r: Self)
        ensures
            mapping_entries(r.entries()) == standard_entries(),
    {
        let mut registry = PrimitiveRegistry { mappings: Vec::new() };
        registry.register_standard_primitives();
        proof {
            assert(mapping_entries(Seq::<PrimitiveMapping>::empty()) + standard_entries()
                =~= standard_entries());
        }
        registry
    }

    /// Adds a mapping after those registered so far.
    pub fn register_mapping(&mut self, mapping: PrimitiveMapping)
        ensures
            final(self).entries() == old(self).entries().push(mapping),
    {
        self.mappings.push(mapping);
    }

    /// Registers `mapping`, keeping track of what the registry says.
    fn add(&mut self, mapping: PrimitiveMapping)
        ensures
            mapping_entries(final(self).entries()) == mapping_entries(old(self).entries()).push(
                mapping_entry(mapping),
            ),
    {
        let ghost before = self.entries();
        let ghost m = mapping;
        self.register_mapping(mapping);
        proof {
            assert(mapping_entries(self.entries()) =~= mapping_entries(before).push(mapping_entry(m)));
        }
    }

    /// Registers the standard LDraw primitives.
    fn register_standard_primitives(&mut self)
        ensures
            mapping_entries(final(self).entries()) == mapping_entries(old(self).entries())
                + standard_entries(),
    {
        let ghost start = mapping_entries(self.entries());
        self.register_stud_primitives();
        self.register_pin_primitives();
        self.register_friction_pin_primitives();
        self.register_pin_hole_primitives();
        self.register_axle_primitives();
        self.register_tube_primitives();
        proof {
            assert(mapping_entries(self.entries()) =~= start + standard_entries());
        }
    }

    /// Registers the solid and hollow studs.
    fn register_stud_primitives(&mut self)
        ensures
            mapping_entries(final(self).entries()) == mapping_entries(old(self).entries()) + stud_entries(),
    {
        let ghost start = mapping_entries(self.entries());
        let y: [i32; 3] = [0, 1000, 0];
        assert(y@ =~= up());
        self.add(standard_mapping("stud.dat", CouplingType::Stud, y, None));
        self.add(standard_mapping("stud2.dat", CouplingType::Stud, y, None));
        self.add(standard_mapping("stud4.dat", CouplingType::HollowStud, y, None));
        self.add(standard_mapping("stud4a.dat", CouplingType::HollowStud, y, None));
        proof {
            assert(mapping_entries(self.entries()) =~= start + stud_entries());
        }
    }

    /// Registers the smooth pins and the bushing.
    fn register_pin_primitives(&mut self)
        ensures
            mapping_entries(final(self).entries()) == mapping_entries(old(self).entries()) + pin_entries(),
    {
        let ghost start = mapping_entries(self.entries());
        let z: [i32; 3] = [0, 0, 1000];
        assert(z@ =~= along_z());
        let full = Some(CouplingGeometry::Linear { length: FULL_PIN_LENGTH });
        let half = Some(CouplingGeometry::Linear { length: HALF_PIN_LENGTH });
        self.add(standard_mapping("connect.dat", CouplingType::Pin, z, full));
        self.add(standard_mapping("connect2.dat", CouplingType::Pin, z, full));
        self.add(standard_mapping("connect5.dat", CouplingType::Pin, z, full));
        self.add(standard_mapping("connect6.dat", CouplingType::Pin, z, full));
        self.add(standard_mapping("connect7.dat", CouplingType::Pin, z, full));
        self.add(standard_mapping("connect8.dat", CouplingType::Pin, z, full));
        self.add(standard_mapping("connect10.dat", CouplingType::Pin, z, full));
        self.add(standard_mapping("connect3.dat", CouplingType::HalfPin, z, half));
        self.add(standard_mapping("connect4.dat", CouplingType::HalfPin, z, half));
        self.add(standard_mapping("bush.dat", CouplingType::Pin, z, half));
        proof {
            assert(mapping_entries(self.entries()) =~= start + pin_entries());
        }
    }

    /// Registers the friction pins.
    fn register_friction_pin_primitives(&mut self)
        ensures
            mapping_entries(final(self).entries()) == mapping_entries(old(self).entries())
                + friction_pin_entries(),
    {
        let ghost start = mapping_entries(self.entries());
        let z: [i32; 3] = [0, 0, 1000];
        assert(z@ =~= along_z());
        let full = Some(CouplingGeometry::Linear { length: 20000 });
        self.add(standard_mapping("confric.dat", CouplingType::PinWithFriction, z, full));
        self.add(standard_mapping("confric2.dat", CouplingType::PinWithFriction, z, full));
        self.add(standard_mapping("confric5.dat", CouplingType::PinWithFriction, z, full));
        proof {
            assert(mapping_entries(self.entries()) =~= start + friction_pin_entries());
        }
    }

    /// Registers the pin holes.
    fn register_pin_hole_primitives(&mut self)
        ensures
            mapping_entries(final(self).entries()) == mapping_entries(old(self).entries())
                + pin_hole_entries(),
    {
        let ghost start = mapping_entries(self.entries());
        let z: [i32; 3] = [0, 0, 1000];
        assert(z@ =~= along_z());
        let full = Some(CouplingGeometry::Linear { length: 20000 });
        let half = Some(CouplingGeometry::Linear { length: 10000 });
        self.add(standard_mapping("peghole.dat", CouplingType::FullPinHole, z, full));
        self.add(standard_mapping("peghole2.dat", CouplingType::FullPinHole, z, full));
        self.add(standard_mapping("connhole.dat", CouplingType::FullPinHole, z, full));
        self.add(standard_mapping("peghole3.dat", CouplingType::HalfPinHole, z, half));
        self.add(standard_mapping("npeghole.dat", CouplingType::FullPinHole, z, full));
        self.add(standard_mapping("beamhole.dat", CouplingType::FullPinHole, z, full));
        proof {
            assert(mapping_entries(self.entries()) =~= start + pin_hole_entries());
        }
    }

    /// Registers the axles, the axle holes and the open axle holes.
    fn register_axle_primitives(&mut self)
        ensures
            mapping_entries(final(self).entries()) == mapping_entries(old(self).entries()) + axle_entries(),
    {
        let ghost start = mapping_entries(self.entries());
        let z: [i32; 3] = [0, 0, 1000];
        assert(z@ =~= along_z());
        self.add(
            standard_mapping("axle.dat", CouplingType::Axle, z, Some(CouplingGeometry::Linear { length: 4000 })),
        );
        self.add(standard_mapping("axleend.dat", CouplingType::Axle, z, Some(CouplingGeometry::Point)));
        self.add(
            standard_mapping(
                "axlehole.dat",
                CouplingType::AxleHole,
                z,
                Some(CouplingGeometry::Linear { length: 20000 }),
            ),
        );
        let ghost fixed = start + axle_entries().take(3);
        proof {
            assert(mapping_entries(self.entries()) =~= fixed);
        }
        let mut i: u32 = 0;
        while i <= 11
            invariant
                i <= 12,
                z@ == along_z(),
                mapping_entries(self.entries()) == fixed + Seq::new(i as nat, |k: int| open_axle_hole_entry(k)),
            decreases 12 - i,
        {
            let ghost before = mapping_entries(self.entries());
            let mut pattern = "axlehol".to_owned();
            push_decimal(&mut pattern, i as usize);
            push_char(&mut pattern, '.');
            push_char(&mut pattern, 'd');
            push_char(&mut pattern, 'a');
            push_char(&mut pattern, 't');
            proof {
                reveal_strlit(".dat");
                assert(pattern@ =~= "axlehol"@ + decimal(i as nat) + ".dat"@);
            }
            let position_offset: [i32; 3] = [0, 0, 0];
            assert(position_offset@ =~= seq![0i32, 0i32, 0i32]);
            self.add(
                PrimitiveMapping {
                    pattern,
                    coupling_type: CouplingType::AxleHole,
                    position_offset,
                    normal_direction: z,
                    geometry_override: Some(CouplingGeometry::Linear { length: 20000 }),
                },
            );
            proof {
                assert(mapping_entries(self.entries()) =~= fixed + Seq::new(
                    (i + 1) as nat,
                    |k: int| open_axle_hole_entry(k),
                ));
            }
            i = i + 1;
        }
        proof {
            assert(axle_entries() =~= axle_entries().take(3) + Seq::new(12, |k: int| open_axle_hole_entry(k)));
            assert(mapping_entries(self.entries()) =~= start + axle_entries());
        }
    }

    /// Registers the tube under a brick.
    fn register_tube_primitives(&mut self)
        ensures
            mapping_entries(final(self).entries()) == mapping_entries(old(self).entries()) + tube_entries(),
    {
        let ghost start = mapping_entries(self.entries());
        let y: [i32; 3] = [0, 1000, 0];
        assert(y@ =~= up());
        self.add(
            standard_mapping("4-4cyli.dat", CouplingType::Tube, y, Some(CouplingGeometry::Circular { radius: 6000 })),
        );
        proof {
            assert(mapping_entries(self.entries()) =~= start + tube_entries());
        }
    }

    /// The position of the first registered mapping whose pattern the
    /// primitive name refers to.
    pub(crate) fn find_mapping_index(&self, primitive_name: &str) -> (r: Option<usize>)
        ensures
            r matches Some(i) ==> first_match(primitive_name@, self.entries()) == Some(i as int),
            r is None ==> first_match(primitive_name@, self.entries()) is None,
            ascii_compared(primitive_name@, self.entries()),
    {
        let name_lower = to_lowercase(primitive_name);
        let mut i: usize = 0;
        while i < self.mappings.len()
            invariant
                i <= self.mappings@.len(),
                name_lower@ == lowercase_of(primitive_name@),
                forall|j: int| 0 <= j < i ==> !refers_to(primitive_name@, #[trigger] self.entries()[j]),
                is_ascii_text(primitive_name@) ==> lowercase_of(primitive_name@) == ascii_lowercase(primitive_name@),
                forall|j: int|
                    0 <= j < i && is_ascii_text(#[trigger] self.entries()[j].pattern@) ==> lowercase_of(
                        self.entries()[j].pattern@,
                    ) == ascii_lowercase(self.entries()[j].pattern@),
            decreases self.mappings@.len() - i,
        {
            let pattern_lower = to_lowercase(self.mappings[i].pattern.as_str());
            if name_matches_pattern(name_lower.as_str(), pattern_lower.as_str()) {
                proof {
                    lemma_first_match(primitive_name@, self.entries());
                    assert(self.entries()[i as int].pattern@ == self.mappings@[i as int].pattern@);
                }
                return Some(i);
            }
            i = i + 1;
        }
        proof {
            lemma_first_match(primitive_name@, self.entries());
        }
        None
    }

    /// The first registered mapping whose pattern the primitive name refers
    /// to: the name itself, or a path ending in it after a `/` or a `\`,
    /// compared without regard to case.
    pub fn find_mapping(&self, primitive_name: &str) -> (r: Option<&PrimitiveMapping>)
        ensures
            r == (match first_match(primitive_name@, self.entries()) {
                Some(i) => Some(&self.entries()[i]),
                None => None,
            }),
            ascii_compared(primitive_name@, self.entries()),
    {
        proof {
            lemma_first_match(primitive_name@, self.entries());
        }
        match self.find_mapping_index(primitive_name) {
            Some(i) => Some(&self.mappings[i]),
            None => None,
        }
    }

    /// The registered mappings, in order.
    pub fn mappings(&self) -> (r: &[PrimitiveMapping])
        ensures
            r@ == self.entries(),
    {
        self.mappings.as_slice()
    }
}

} // verus!
