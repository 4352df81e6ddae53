use ldraw::couplings::registry::{name_matches_pattern, PrimitiveMapping, PrimitiveRegistry};
use ldraw::couplings::{CouplingGeometry, CouplingType};

/// A fixed-point quantity of the library, in thousandths, as a number of
/// whole units.
fn units(thousandths: i32) -> f32 {
    thousandths as f32 / 1000.0
}

/// A direction of the library, in thousandths, as a vector of whole units.
fn direction(v: [i32; 3]) -> [f32; 3] {
    [units(v[0]), units(v[1]), units(v[2])]
}

#[test]
fn lib_test_primitive_registry() {
    let registry = PrimitiveRegistry::new();

    let mapping = registry.find_mapping("stud.dat");
    assert!(mapping.is_some());
    let mapping = mapping.unwrap();
    assert_eq!(mapping.coupling_type, CouplingType::Stud);
}

#[test]
fn coupling_detection_test_primitive_registry() {
    let registry = PrimitiveRegistry::new();

    let stud_mapping = registry.find_mapping("stud.dat");
    assert!(stud_mapping.is_some());
    let mapping = stud_mapping.unwrap();
    assert_eq!(mapping.coupling_type, CouplingType::Stud);
    assert_eq!(direction(mapping.normal_direction), [0.0, 1.0, 0.0]);
}

#[test]
fn test_stud_primitives() {
    let registry = PrimitiveRegistry::new();

    let stud = registry.find_mapping("stud.dat").unwrap();
    assert_eq!(stud.coupling_type, CouplingType::Stud);
    assert_eq!(direction(stud.normal_direction), [0.0, 1.0, 0.0]);

    let stud2 = registry.find_mapping("stud2.dat").unwrap();
    assert_eq!(stud2.coupling_type, CouplingType::Stud);

    let stud4 = registry.find_mapping("stud4.dat").unwrap();
    assert_eq!(stud4.coupling_type, CouplingType::HollowStud);

    let stud4a = registry.find_mapping("stud4a.dat").unwrap();
    assert_eq!(stud4a.coupling_type, CouplingType::HollowStud);
}

#[test]
fn test_pin_primitives() {
    let registry = PrimitiveRegistry::new();

    let connect = registry.find_mapping("connect.dat").unwrap();
    assert_eq!(connect.coupling_type, CouplingType::Pin);
    assert_eq!(direction(connect.normal_direction), [0.0, 0.0, 1.0]);
    assert!(matches!(
        connect.geometry_override,
        Some(CouplingGeometry::Linear { length }) if units(length) == 20.0
    ));

    let connect2 = registry.find_mapping("connect2.dat").unwrap();
    assert_eq!(connect2.coupling_type, CouplingType::Pin);

    let connect3 = registry.find_mapping("connect3.dat").unwrap();
    assert_eq!(connect3.coupling_type, CouplingType::HalfPin);
    assert!(matches!(
        connect3.geometry_override,
        Some(CouplingGeometry::Linear { length }) if units(length) == 10.0
    ));

    let bush = registry.find_mapping("bush.dat").unwrap();
    assert_eq!(bush.coupling_type, CouplingType::Pin);
}

#[test]
fn test_friction_pin_primitives() {
    let registry = PrimitiveRegistry::new();

    let confric = registry.find_mapping("confric.dat").unwrap();
    assert_eq!(confric.coupling_type, CouplingType::PinWithFriction);
    assert_eq!(direction(confric.normal_direction), [0.0, 0.0, 1.0]);
    assert!(matches!(
        confric.geometry_override,
        Some(CouplingGeometry::Linear { length }) if units(length) == 20.0
    ));

    let confric2 = registry.find_mapping("confric2.dat").unwrap();
    assert_eq!(confric2.coupling_type, CouplingType::PinWithFriction);
}

#[test]
fn test_pin_hole_primitives() {
    let registry = PrimitiveRegistry::new();

    let peghole = registry.find_mapping("peghole.dat").unwrap();
    assert_eq!(peghole.coupling_type, CouplingType::FullPinHole);
    assert_eq!(direction(peghole.normal_direction), [0.0, 0.0, 1.0]);
    assert!(matches!(
        peghole.geometry_override,
        Some(CouplingGeometry::Linear { length }) if units(length) == 20.0
    ));

    let connhole = registry.find_mapping("connhole.dat").unwrap();
    assert_eq!(connhole.coupling_type, CouplingType::FullPinHole);

    let peghole3 = registry.find_mapping("peghole3.dat").unwrap();
    assert_eq!(peghole3.coupling_type, CouplingType::HalfPinHole);
    assert!(matches!(
        peghole3.geometry_override,
        Some(CouplingGeometry::Linear { length }) if units(length) == 10.0
    ));

    let npeghole = registry.find_mapping("npeghole.dat").unwrap();
    assert_eq!(npeghole.coupling_type, CouplingType::FullPinHole);

    let beamhole = registry.find_mapping("beamhole.dat").unwrap();
    assert_eq!(beamhole.coupling_type, CouplingType::FullPinHole);
}

#[test]
fn test_axle_primitives() {
    let registry = PrimitiveRegistry::new();

    let axle = registry.find_mapping("axle.dat").unwrap();
    assert_eq!(axle.coupling_type, CouplingType::Axle);
    assert_eq!(direction(axle.normal_direction), [0.0, 0.0, 1.0]);

    let axleend = registry.find_mapping("axleend.dat").unwrap();
    assert_eq!(axleend.coupling_type, CouplingType::Axle);

    let axlehole = registry.find_mapping("axlehole.dat").unwrap();
    assert_eq!(axlehole.coupling_type, CouplingType::AxleHole);
    assert_eq!(direction(axlehole.normal_direction), [0.0, 0.0, 1.0]);

    let axlehol0 = registry.find_mapping("axlehol0.dat").unwrap();
    assert_eq!(axlehol0.coupling_type, CouplingType::AxleHole);

    let axlehol5 = registry.find_mapping("axlehol5.dat").unwrap();
    assert_eq!(axlehol5.coupling_type, CouplingType::AxleHole);
}

#[test]
fn open_axle_holes_of_every_depth() {
    let registry = PrimitiveRegistry::new();
    for depth in 0..=11 {
        let name = format!("axlehol{}.dat", depth);
        let mapping = registry.find_mapping(&name).unwrap();
        assert_eq!(mapping.pattern, name);
        assert_eq!(mapping.coupling_type, CouplingType::AxleHole);
    }
    assert!(registry.find_mapping("axlehol12.dat").is_none());
}

#[test]
fn test_tube_primitives() {
    let registry = PrimitiveRegistry::new();

    let tube = registry.find_mapping("4-4cyli.dat").unwrap();
    assert_eq!(tube.coupling_type, CouplingType::Tube);
    assert_eq!(direction(tube.normal_direction), [0.0, 1.0, 0.0]);
    assert!(matches!(
        tube.geometry_override,
        Some(CouplingGeometry::Circular { radius }) if units(radius) == 6.0
    ));
}

#[test]
fn test_registry_count() {
    let registry = PrimitiveRegistry::new();
    let count = registry.mappings().len();
    assert!(count >= 37, "Expected at least 37 primitives, got {}", count);
    assert_eq!(count, 39);
}

#[test]
fn test_primitive_matching_exact() {
    let registry = PrimitiveRegistry::new();

    let stud = registry.find_mapping("stud.dat");
    assert!(stud.is_some());
    assert_eq!(stud.unwrap().pattern, "stud.dat");
}

#[test]
fn test_primitive_case_insensitive() {
    let registry = PrimitiveRegistry::new();

    assert!(registry.find_mapping("STUD.DAT").is_some());
    assert!(registry.find_mapping("Stud.Dat").is_some());
    assert!(registry.find_mapping("stud.dat").is_some());
    assert!(registry.find_mapping("StUd.DaT").is_some());
}

#[test]
fn test_primitive_with_path_prefix() {
    let registry = PrimitiveRegistry::new();

    assert!(registry.find_mapping("p/stud.dat").is_some());
    assert!(registry.find_mapping("p\\stud.dat").is_some());
    assert!(registry.find_mapping("ldraw/p/stud.dat").is_some());

    let mapping = registry.find_mapping("p/stud.dat").unwrap();
    assert_eq!(mapping.coupling_type, CouplingType::Stud);
}

#[test]
fn test_primitive_no_false_matches() {
    let registry = PrimitiveRegistry::new();

    let result = registry.find_mapping("mystud.dat");
    if let Some(mapping) = result {
        assert_ne!(mapping.pattern, "stud.dat", "mystud.dat should not match stud.dat pattern");
    }

    assert!(registry.find_mapping("stud").is_none());
    assert!(registry.find_mapping("stu.dat").is_none());
}

#[test]
fn test_ambiguous_primitive_names() {
    let registry = PrimitiveRegistry::new();

    let axle = registry.find_mapping("axle.dat");
    assert!(axle.is_some());
    assert_eq!(axle.unwrap().coupling_type, CouplingType::Axle);

    let connect = registry.find_mapping("connect.dat");
    let connect2 = registry.find_mapping("connect2.dat");
    assert!(connect.is_some());
    assert!(connect2.is_some());
    assert_eq!(connect.unwrap().pattern, "connect.dat");
    assert_eq!(connect2.unwrap().pattern, "connect2.dat");
}

#[test]
fn test_all_primitives_have_valid_geometry() {
    let registry = PrimitiveRegistry::new();

    for mapping in registry.mappings() {
        let geometry = match &mapping.geometry_override {
            Some(geom) => *geom,
            None => mapping.coupling_type.default_geometry(),
        };

        match geometry {
            CouplingGeometry::Linear { length } => {
                assert!(length > 0, "Primitive {} has invalid length: {}", mapping.pattern, length);
            }
            CouplingGeometry::Circular { radius } => {
                assert!(radius > 0, "Primitive {} has invalid radius: {}", mapping.pattern, radius);
            }
            _ => {}
        }
    }
}

#[test]
fn test_primitive_registry_basic() {
    let registry = PrimitiveRegistry::new();

    let stud = registry.find_mapping("stud.dat");
    assert!(stud.is_some());
    assert_eq!(stud.unwrap().coupling_type, CouplingType::Stud);

    let peghole = registry.find_mapping("peghole.dat");
    assert!(peghole.is_some());
    assert_eq!(peghole.unwrap().coupling_type, CouplingType::FullPinHole);

    assert_eq!(direction(stud.unwrap().normal_direction), [0.0, 1.0, 0.0]);
    assert_eq!(direction(peghole.unwrap().normal_direction), [0.0, 0.0, 1.0]);

    let tube = registry.find_mapping("4-4cyli.dat");
    assert!(tube.is_some());
    assert_eq!(tube.unwrap().coupling_type, CouplingType::Tube);
}

#[test]
fn registered_mapping_comes_after_the_standard_ones() {
    let mut registry = PrimitiveRegistry::new();
    registry.register_mapping(PrimitiveMapping {
        pattern: "Stud.dat".to_string(),
        coupling_type: CouplingType::Post,
        position_offset: [0, 0, 0],
        normal_direction: [0, -1000, 0],
        geometry_override: None,
    });
    registry.register_mapping(PrimitiveMapping {
        pattern: "SPECIAL.DAT".to_string(),
        coupling_type: CouplingType::Post,
        position_offset: [0, 4000, 0],
        normal_direction: [0, -1000, 0],
        geometry_override: None,
    });
    assert_eq!(registry.mappings().len(), 41);
    assert_eq!(registry.find_mapping("stud.dat").unwrap().coupling_type, CouplingType::Stud);
    let special = registry.find_mapping("parts\\special.dat").unwrap();
    assert_eq!(special.coupling_type, CouplingType::Post);
    assert_eq!(special.position_offset, [0, 4000, 0]);
}

#[test]
fn names_match_patterns_exactly_or_after_a_separator() {
    assert!(name_matches_pattern("stud.dat", "stud.dat"));
    assert!(name_matches_pattern("p/stud.dat", "stud.dat"));
    assert!(name_matches_pattern("p\\stud.dat", "stud.dat"));
    assert!(!name_matches_pattern("mystud.dat", "stud.dat"));
    assert!(!name_matches_pattern("/stud.dat", "/stud.dat/"));
    assert!(!name_matches_pattern("stud.da", "stud.dat"));
    assert!(!name_matches_pattern("p:stud.dat", "stud.dat"));
    assert!(name_matches_pattern("/stud.dat", "stud.dat"));
}

#[test]
fn every_mapping_is_found_by_its_own_name() {
    let registry = PrimitiveRegistry::new();
    for mapping in registry.mappings() {
        let found = registry.find_mapping(&mapping.pattern).unwrap();
        assert_eq!(found.pattern, mapping.pattern);
        let shouted = format!("PARTS/S/{}", mapping.pattern.to_uppercase());
        assert_eq!(registry.find_mapping(&shouted).unwrap().pattern, mapping.pattern);
    }
}
