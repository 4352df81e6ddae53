use ldraw::alias::PartAlias;
use ldraw::alias_map::AliasMap;
use ldraw::couplings::{CouplingGeometry, CouplingType};
use ldraw::detection::{coupling_id, id_from_lowered_name, mapping_geometry, CouplingDetector, PrimitiveHit};
use ldraw::document::{BfcCertification, ColorReference, Command, Document, MultipartDocument, PartReference};
use ldraw::library::{DependencyResolver, FileLocation, PartCache, PartKind, ResolutionResult};

/// A fixed-point quantity of the library, in thousandths, as a number of
/// whole units.
fn units(thousandths: i32) -> f32 {
    thousandths as f32 / 1000.0
}

/// The 4x4 matrix of a translation, column by column, as bit patterns.
fn translation(x: f32, y: f32, z: f32) -> [u32; 16] {
    let mut m = [0u32; 16];
    for i in 0..4 {
        m[i * 5] = 1.0f32.to_bits();
    }
    m[12] = x.to_bits();
    m[13] = y.to_bits();
    m[14] = z.to_bits();
    m
}

fn reference(name: &str, matrix: [u32; 16]) -> Command {
    Command::PartReference(PartReference {
        color: ColorReference::Current,
        matrix,
        name: PartAlias::new(name.to_string()),
    })
}

fn document(name: &str, commands: Vec<Command>) -> Document {
    Document {
        name: name.to_string(),
        description: "Test part".to_string(),
        author: "Test".to_string(),
        bfc: BfcCertification::NoCertify,
        headers: Vec::new(),
        commands,
    }
}

fn coupling_type(detector: &CouplingDetector, hit: &PrimitiveHit) -> CouplingType {
    detector.registry().mappings()[hit.mapping].coupling_type
}

/// The result of resolving `document` with a loader that finds the given
/// library documents.
fn resolve(document: &MultipartDocument, library: &[(&str, MultipartDocument)]) -> ResolutionResult {
    let mut cache = PartCache::new();
    let mut resolver = DependencyResolver::new();
    resolver.scan_dependencies_with_parent(&cache, None, document, false);
    loop {
        let pending = resolver.pending_dependencies();
        if pending.is_empty() {
            break;
        }
        for (name, local) in pending {
            let found = library.iter().find(|(n, _)| PartAlias::new(n.to_string()).normalized == name.normalized);
            let loaded = match found {
                Some((n, d)) => Ok((
                    FileLocation::Library(PartKind::Part),
                    MultipartDocument {
                        body: document_copy(&d.body, n),
                        subparts: AliasMap::new(),
                    },
                )),
                None => Err(ldraw::error::ResolutionError::FileNotFound),
            };
            resolver.apply_resolution(&mut cache, name, local, loaded);
        }
    }
    resolver.finish()
}

fn document_copy(d: &Document, name: &str) -> Document {
    let commands = d
        .commands
        .iter()
        .map(|c| match c {
            Command::PartReference(r) => reference(&r.name.original, r.matrix),
            Command::Other(line) => Command::Other(line.clone()),
        })
        .collect();
    document(name, commands)
}

#[test]
fn test_coupling_detector() {
    let detector = CouplingDetector::new();
    let document = MultipartDocument {
        body: document("test", vec![reference("stud.dat", translation(0.0, 0.0, 0.0))]),
        subparts: AliasMap::new(),
    };
    let resolution_result = ResolutionResult::new();
    let hits = detector.find_primitive_references(&document, &resolution_result);

    assert_eq!(hits.len(), 1);
    assert_eq!(coupling_type(&detector, &hits[0]), CouplingType::Stud);
    assert_eq!(hits[0].transforms, vec![translation(0.0, 0.0, 0.0)]);
    assert_eq!(hits[0].primitive_name, "stud.dat");
}

#[test]
fn test_pin_hole_detection() {
    let detector = CouplingDetector::new();
    let document = MultipartDocument {
        body: document("test", vec![reference("peghole.dat", translation(10.0, 0.0, 0.0))]),
        subparts: AliasMap::new(),
    };
    let resolution_result = ResolutionResult::new();
    let hits = detector.find_primitive_references(&document, &resolution_result);

    assert_eq!(hits.len(), 1);
    assert_eq!(coupling_type(&detector, &hits[0]), CouplingType::FullPinHole);
    assert_eq!(hits[0].transforms, vec![translation(10.0, 0.0, 0.0)]);

    match mapping_geometry(&detector.registry().mappings()[hits[0].mapping]) {
        CouplingGeometry::Linear { length } => {
            assert_eq!(units(length), 20.0);
        }
        _ => panic!("Expected linear geometry for pin hole"),
    }
}

#[test]
fn test_part_with_multiple_coupling_types() {
    let detector = CouplingDetector::new();
    let mixed_doc = MultipartDocument {
        body: document(
            "test_mixed",
            vec![
                reference("stud.dat", translation(0.0, 0.0, 0.0)),
                Command::Other("2 24 0 0 0 1 1 1".to_string()),
                reference("peghole.dat", translation(20.0, 12.0, 0.0)),
            ],
        ),
        subparts: AliasMap::new(),
    };
    let hits = detector.find_primitive_references(&mixed_doc, &ResolutionResult::new());
    assert_eq!(hits.len(), 2);
    assert_eq!(coupling_type(&detector, &hits[0]), CouplingType::Stud);
    assert_eq!(coupling_type(&detector, &hits[1]), CouplingType::FullPinHole);
    assert_eq!(hits[1].transforms, vec![translation(20.0, 12.0, 0.0)]);
}

#[test]
fn references_are_followed_into_resolved_parts() {
    let detector = CouplingDetector::new();
    let root = MultipartDocument {
        body: document(
            "brick",
            vec![
                reference("s/brick-sub.dat", translation(0.0, 24.0, 0.0)),
                reference("P\\STUD.DAT", translation(1.0, 2.0, 3.0)),
                reference("unknown.dat", translation(0.0, 0.0, 0.0)),
            ],
        ),
        subparts: AliasMap::new(),
    };
    let sub = MultipartDocument {
        body: document(
            "s/brick-sub.dat",
            vec![
                reference("stud.dat", translation(10.0, 0.0, 10.0)),
                reference("4-4cyli.dat", translation(0.0, 4.0, 0.0)),
            ],
        ),
        subparts: AliasMap::new(),
    };
    let result = resolve(&root, &[("s/brick-sub.dat", sub)]);
    let hits = detector.find_primitive_references(&root, &result);
    assert_eq!(hits.len(), 3);
    assert_eq!(coupling_type(&detector, &hits[0]), CouplingType::Stud);
    assert_eq!(hits[0].transforms, vec![translation(0.0, 24.0, 0.0), translation(10.0, 0.0, 10.0)]);
    assert_eq!(coupling_type(&detector, &hits[1]), CouplingType::Tube);
    assert_eq!(hits[1].transforms, vec![translation(0.0, 24.0, 0.0), translation(0.0, 4.0, 0.0)]);
    assert_eq!(coupling_type(&detector, &hits[2]), CouplingType::Stud);
    assert_eq!(hits[2].primitive_name, "p/stud.dat");
}

#[test]
fn subparts_are_walked_from_their_own_origin() {
    let detector = CouplingDetector::default();
    let mut root = MultipartDocument {
        body: document("model.mpd", vec![reference("axle.dat", translation(0.0, 0.0, 0.0))]),
        subparts: AliasMap::new(),
    };
    root.subparts.insert(
        PartAlias::new("inner.ldr".to_string()),
        document("inner.ldr", vec![reference("connect.dat", translation(5.0, 0.0, 0.0))]),
    );
    let hits = detector.find_primitive_references(&root, &ResolutionResult::new());
    assert_eq!(hits.len(), 2);
    assert_eq!(coupling_type(&detector, &hits[0]), CouplingType::Axle);
    assert_eq!(coupling_type(&detector, &hits[1]), CouplingType::Pin);
    assert_eq!(hits[1].transforms, vec![translation(5.0, 0.0, 0.0)]);
}

#[test]
fn cyclic_references_are_followed_once() {
    let detector = CouplingDetector::new();
    let root = MultipartDocument {
        body: document("root", vec![reference("a.dat", translation(0.0, 0.0, 0.0))]),
        subparts: AliasMap::new(),
    };
    let a = MultipartDocument {
        body: document(
            "a.dat",
            vec![reference("b.dat", translation(0.0, 0.0, 0.0)), reference("stud.dat", translation(0.0, 0.0, 0.0))],
        ),
        subparts: AliasMap::new(),
    };
    let b = MultipartDocument {
        body: document("b.dat", vec![reference("a.dat", translation(0.0, 0.0, 0.0))]),
        subparts: AliasMap::new(),
    };
    let result = resolve(&root, &[("a.dat", a), ("b.dat", b)]);
    let hits = detector.find_primitive_references(&root, &result);
    assert_eq!(hits.len(), 1);
    assert_eq!(coupling_type(&detector, &hits[0]), CouplingType::Stud);
    assert_eq!(hits[0].transforms.len(), 2);
}

#[test]
fn geometry_falls_back_to_the_default() {
    let detector = CouplingDetector::new();
    let stud = detector.registry().find_mapping("stud.dat").unwrap();
    assert_eq!(mapping_geometry(stud), CouplingGeometry::Point);
    let tube = detector.registry().find_mapping("4-4cyli.dat").unwrap();
    assert_eq!(mapping_geometry(tube), CouplingGeometry::Circular { radius: 6000 });
}

#[test]
fn coupling_ids_follow_the_type_name() {
    assert_eq!(coupling_id(CouplingType::Stud, 0), "stud_0");
    assert_eq!(coupling_id(CouplingType::FullPinHole, 3), "pin_hole_3");
    assert_eq!(coupling_id(CouplingType::AntiStud, 12), "anti-stud_12");
    assert_eq!(coupling_id(CouplingType::AxleHole, 105), "axle_hole_105");
    assert_eq!(id_from_lowered_name("a b  c", 7), "a_b__c_7");
}

#[test]
fn test_coupling_detection_basic() {
    let detector = CouplingDetector::new();
    let document = MultipartDocument {
        body: document("test_brick", vec![reference("stud.dat", translation(0.0, 0.0, 0.0))]),
        subparts: AliasMap::new(),
    };
    let hits = detector.find_primitive_references(&document, &ResolutionResult::new());

    assert_eq!(hits.len(), 1);
    let mapping = &detector.registry().mappings()[hits[0].mapping];
    assert_eq!(mapping.coupling_type, CouplingType::Stud);
    assert_eq!(hits[0].transforms, vec![translation(0.0, 0.0, 0.0)]);
    assert_eq!(mapping.normal_direction, [0, 1000, 0]);
}

#[test]
fn test_coupling_geometry_detection() {
    let detector = CouplingDetector::new();
    let pin_hole_doc = MultipartDocument {
        body: document("test_technic", vec![reference("peghole.dat", translation(10.0, 0.0, 0.0))]),
        subparts: AliasMap::new(),
    };
    let hits = detector.find_primitive_references(&pin_hole_doc, &ResolutionResult::new());

    assert_eq!(hits.len(), 1);
    assert_eq!(coupling_type(&detector, &hits[0]), CouplingType::FullPinHole);
    assert_eq!(hits[0].transforms, vec![translation(10.0, 0.0, 0.0)]);
    match mapping_geometry(&detector.registry().mappings()[hits[0].mapping]) {
        CouplingGeometry::Linear { length } => {
            assert_eq!(units(length), 20.0);
        }
        _ => panic!("Expected linear geometry for pin hole"),
    }
}

#[test]
fn test_transform_application() {
    let detector = CouplingDetector::new();
    let transformed_doc = MultipartDocument {
        body: document("test_transform", vec![reference("stud.dat", translation(20.0, 10.0, 30.0))]),
        subparts: AliasMap::new(),
    };
    let hits = detector.find_primitive_references(&transformed_doc, &ResolutionResult::new());

    assert_eq!(hits.len(), 1);
    assert_eq!(hits[0].transforms, vec![translation(20.0, 10.0, 30.0)]);
    assert_eq!(detector.registry().mappings()[hits[0].mapping].normal_direction, [0, 1000, 0]);
}

#[test]
fn coupling_ids_differ_by_position() {
    let ids: Vec<String> = (0..25).map(|i| coupling_id(CouplingType::Stud, i)).collect();
    for i in 0..ids.len() {
        for j in 0..ids.len() {
            if i != j {
                assert_ne!(ids[i], ids[j]);
            }
        }
    }
    assert_ne!(coupling_id(CouplingType::Stud, 1), coupling_id(CouplingType::Stud, 11));
    assert_ne!(coupling_id(CouplingType::Tube, 2), coupling_id(CouplingType::Tube, 12));
}
