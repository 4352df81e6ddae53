use ldraw::couplings::{CouplingGeometry, CouplingType};
use ldraw::patterns::{
    generate_brick_couplings, generate_technic_beam_couplings, CouplingPatterns, HeightType, PlacedCoupling,
};

/// A fixed-point length of the library, in thousandths of an LDU, as a
/// number of LDU.
fn units(thousandths: i32) -> f32 {
    thousandths as f32 / 1000.0
}

/// A fixed-point position, in thousandths of an LDU, as LDU.
fn position(c: &PlacedCoupling) -> [f32; 3] {
    [
        c.center[0] as f32 / 1000.0,
        c.center[1] as f32 / 1000.0,
        c.center[2] as f32 / 1000.0,
    ]
}

#[test]
fn test_constants() {
    assert_eq!(units(CouplingPatterns::STUD_SPACING), 20.0);
    assert_eq!(units(CouplingPatterns::PLATE_HEIGHT), 8.0);
    assert_eq!(units(CouplingPatterns::BRICK_HEIGHT), 24.0);
}

#[test]
fn anti_studs_sit_at_the_bottom() {
    assert_eq!(HeightType::Plate.bottom_offset(), -8000);
    assert_eq!(HeightType::Brick.bottom_offset(), -24000);
}

#[test]
fn test_create_studs_single() {
    let studs = CouplingPatterns::create_studs(1, 1);
    assert_eq!(studs.len(), 1);
    assert_eq!(studs[0].coupling_type, CouplingType::Stud);
    assert_eq!(position(&studs[0]), [0.0, 0.0, 0.0]);
    assert_eq!(studs[0].normal, [0, 1000, 0]);
    assert_eq!(studs[0].id, "stud_0_0");
}

#[test]
fn test_create_studs_2x2() {
    let studs = CouplingPatterns::create_studs(2, 2);
    assert_eq!(studs.len(), 4);

    let expected_positions = vec![
        [-10.0, 0.0, -10.0],
        [-10.0, 0.0, 10.0],
        [10.0, 0.0, -10.0],
        [10.0, 0.0, 10.0],
    ];

    for stud in &studs {
        assert!(expected_positions.iter().any(|&pos| position(stud) == pos));
    }
    assert_eq!(studs[1].id, "stud_0_1");
    assert_eq!(position(&studs[1]), [-10.0, 0.0, 10.0]);
}

#[test]
fn studs_of_a_long_plate() {
    let studs = CouplingPatterns::create_studs(1, 12);
    assert_eq!(studs.len(), 12);
    assert_eq!(studs[11].id, "stud_0_11");
    assert_eq!(position(&studs[0]), [0.0, 0.0, -110.0]);
    assert_eq!(position(&studs[11]), [0.0, 0.0, 110.0]);
    assert!(CouplingPatterns::create_studs(0, 3).is_empty());
    assert!(CouplingPatterns::create_studs(3, 0).is_empty());
}

#[test]
fn test_create_antistuds_2x2_plate() {
    let antistuds = CouplingPatterns::create_antistuds(2, 2, HeightType::Plate);

    assert_eq!(antistuds.len(), 5);

    let antistud_count = antistuds.iter().filter(|c| c.coupling_type == CouplingType::AntiStud).count();
    assert_eq!(antistud_count, 4);

    let tube_count = antistuds.iter().filter(|c| c.coupling_type == CouplingType::Tube).count();
    assert_eq!(tube_count, 1);

    for coupling in &antistuds {
        assert_eq!(position(coupling)[1], -8.0);
        assert_eq!(coupling.normal, [0, -1000, 0]);
    }
    assert_eq!(antistuds[4].id, "tube_0_0");
    assert_eq!(position(&antistuds[4]), [0.0, -8.0, 0.0]);
    assert_eq!(antistuds[4].geometry, CouplingGeometry::Circular { radius: 6000 });
}

#[test]
fn test_create_antistuds_1x1_brick() {
    let antistuds = CouplingPatterns::create_antistuds(1, 1, HeightType::Brick);

    assert_eq!(antistuds.len(), 1);
    assert_eq!(antistuds[0].coupling_type, CouplingType::AntiStud);
    assert_eq!(position(&antistuds[0]), [0.0, -24.0, 0.0]);
}

#[test]
fn test_create_antistuds_3x3() {
    let antistuds = CouplingPatterns::create_antistuds(3, 3, HeightType::Plate);

    let antistud_count = antistuds.iter().filter(|c| c.coupling_type == CouplingType::AntiStud).count();
    assert_eq!(antistud_count, 4);

    let tube_count = antistuds.iter().filter(|c| c.coupling_type == CouplingType::Tube).count();
    assert_eq!(tube_count, 4);
    assert_eq!(antistuds[3].id, "antistud_2_2");
    assert_eq!(position(&antistuds[3]), [20.0, -8.0, 20.0]);
    assert_eq!(antistuds[7].id, "tube_1_1");
    assert_eq!(position(&antistuds[7]), [10.0, -8.0, 10.0]);
}

#[test]
fn antistuds_of_a_one_wide_brick() {
    let antistuds = CouplingPatterns::create_antistuds(1, 4, HeightType::Brick);
    assert_eq!(antistuds.len(), 2);
    assert_eq!(antistuds[0].id, "antistud_0_0");
    assert_eq!(antistuds[1].id, "antistud_0_3");
    assert_eq!(position(&antistuds[1]), [0.0, -24.0, 30.0]);
}

#[test]
fn test_generate_brick_couplings() {
    let couplings = generate_brick_couplings(2, 3, HeightType::Brick);

    let stud_count = couplings.iter().filter(|c| c.coupling_type == CouplingType::Stud).count();
    assert_eq!(stud_count, 6);

    let antistud_count = couplings.iter().filter(|c| c.coupling_type == CouplingType::AntiStud).count();
    assert!(antistud_count > 0);
    assert_eq!(couplings.len(), 6 + 4 + 2);
}

#[test]
fn test_generate_technic_beam_couplings() {
    let couplings = generate_technic_beam_couplings(5);

    assert_eq!(couplings.len(), 5);

    for (i, coupling) in couplings.iter().enumerate() {
        assert_eq!(coupling.coupling_type, CouplingType::FullPinHole);
        assert_eq!(coupling.id, format!("pin_hole_{}", i));
        assert_eq!(coupling.normal, [0, 0, 1000]);

        let expected_x = (i as f32 - 2.0) * 20.0;
        assert_eq!(position(coupling)[0], expected_x);
    }
    assert!(generate_technic_beam_couplings(0).is_empty());
}
