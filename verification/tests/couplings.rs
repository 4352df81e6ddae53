use ldraw::couplings::{BoundingBox, ConnectionMode, CouplingGeometry, CouplingType};

/// A fixed-point quantity of the library, in thousandths, as a number of
/// whole units.
fn units(thousandths: i32) -> f32 {
    thousandths as f32 / 1000.0
}

#[test]
fn test_coupling_type_name() {
    assert_eq!(CouplingType::Stud.name(), "Stud");
    assert_eq!(CouplingType::AntiStud.name(), "Anti-stud");
    assert_eq!(CouplingType::FullPinHole.name(), "Pin Hole");
    assert_eq!(CouplingType::Axle.name(), "Axle");
}

#[test]
fn test_coupling_type_names() {
    assert_eq!(CouplingType::Stud.name(), "Stud");
    assert_eq!(CouplingType::FullPinHole.name(), "Pin Hole");
    assert_eq!(CouplingType::AxleHole.name(), "Axle Hole");
}

#[test]
fn coupling_type_names_split_words_and_digits() {
    assert_eq!(CouplingType::HollowStud.name(), "Hollow Stud");
    assert_eq!(CouplingType::Round1x1AntiStud.name(), "Round 1x 1Anti Stud");
    assert_eq!(CouplingType::Hinge1x2BrickMale.name(), "Hinge 1x 2Brick Male");
    assert_eq!(CouplingType::Turntable2x2Top.name(), "Turntable 2x 2Top");
    assert_eq!(CouplingType::VerticalHingePlate3Fingers.name(), "Vertical Hinge Plate 3Fingers");
    assert_eq!(CouplingType::HalfPinHole.name(), "Half Pin Hole");
}

#[test]
fn lib_test_coupling_compatibility() {
    let props = CouplingType::Stud.can_connect_to(&CouplingType::AntiStud);
    assert!(props.is_some());
    let props = props.unwrap();
    assert_eq!(units(props.clutch_force), 8.0);

    let props = CouplingType::Stud.can_connect_to(&CouplingType::Tube);
    assert!(props.is_some());
    let props = props.unwrap();
    assert_eq!(units(props.clutch_force), 6.0);
}

#[test]
fn test_antistud_geometry() {
    let geometry = CouplingType::AntiStud.default_geometry();
    assert!(matches!(geometry, CouplingGeometry::GeometricSpace { .. }));
}

#[test]
fn default_geometries() {
    assert_eq!(CouplingType::Stud.default_geometry(), CouplingGeometry::Point);
    assert_eq!(CouplingType::HollowStud.default_geometry(), CouplingGeometry::Point);
    assert_eq!(CouplingType::Clip.default_geometry(), CouplingGeometry::Point);
    assert_eq!(
        CouplingType::AntiStud.default_geometry(),
        CouplingGeometry::GeometricSpace {
            bounds: BoundingBox {
                min_x: -10000,
                max_x: 10000,
                min_y: -4000,
                max_y: 0,
                min_z: -10000,
                max_z: 10000,
            },
            convex: true,
        }
    );
    assert_eq!(CouplingType::FullPinHole.default_geometry(), CouplingGeometry::Linear { length: 20000 });
    assert_eq!(CouplingType::AxleHole.default_geometry(), CouplingGeometry::Linear { length: 20000 });
    assert_eq!(CouplingType::Tube.default_geometry(), CouplingGeometry::Circular { radius: 6000 });
}

#[test]
fn test_pin_to_pinhole_compatibility() {
    let props = CouplingType::Pin.can_connect_to(&CouplingType::FullPinHole);
    assert!(props.is_some());
    let props = props.unwrap();
    assert!(matches!(props.mode, ConnectionMode::Rotational { .. }));
    assert_eq!(units(props.clutch_force), 2.0);

    let props = CouplingType::PinWithFriction.can_connect_to(&CouplingType::FullPinHole);
    assert!(props.is_some());
    let props = props.unwrap();
    assert!(matches!(props.mode, ConnectionMode::Rotational { .. }));
    assert_eq!(units(props.clutch_force), 12.0);
}

#[test]
fn test_axle_to_axlehole_compatibility() {
    let props = CouplingType::Axle.can_connect_to(&CouplingType::AxleHole);
    assert!(props.is_some());
    let props = props.unwrap();
    assert!(matches!(props.mode, ConnectionMode::RotationalLinear { .. }));

    let props = CouplingType::Axle.can_connect_to(&CouplingType::FullPinHole);
    assert!(props.is_some());
}

#[test]
fn test_stud_antistud_compatibility() {
    let props = CouplingType::Stud.can_connect_to(&CouplingType::AntiStud);
    assert!(props.is_some());
    let props = props.unwrap();
    assert_eq!(props.mode, ConnectionMode::Fixed);
    assert_eq!(units(props.break_force), 10.0);
    assert_eq!(units(props.break_torque), 5.0);
    assert!(props.dynamic);
}

#[test]
fn test_pin_hole_compatibility() {
    let props = CouplingType::Pin.can_connect_to(&CouplingType::FullPinHole);
    assert!(props.is_some());
    if let Some(props) = props {
        assert!(matches!(props.mode, ConnectionMode::Rotational { friction } if units(friction) == 0.1));
    }

    let props = CouplingType::PinWithFriction.can_connect_to(&CouplingType::FullPinHole);
    assert!(props.is_some());
    if let Some(props) = props {
        assert!(matches!(props.mode, ConnectionMode::Rotational { friction } if units(friction) == 2.0));
    }
}

#[test]
fn test_axle_compatibility() {
    let props = CouplingType::Axle.can_connect_to(&CouplingType::AxleHole);
    assert!(props.is_some());
    if let Some(props) = props {
        assert!(matches!(props.mode, ConnectionMode::RotationalLinear { .. }));
    }

    let props = CouplingType::Axle.can_connect_to(&CouplingType::FullPinHole);
    assert!(props.is_some());
}

#[test]
fn test_incompatible_connections() {
    assert!(CouplingType::Stud.can_connect_to(&CouplingType::Stud).is_none());
    assert!(CouplingType::Pin.can_connect_to(&CouplingType::AxleHole).is_none());
    assert!(CouplingType::BarSide.can_connect_to(&CouplingType::FullPinHole).is_none());
    assert!(CouplingType::BarEnd.can_connect_to(&CouplingType::FullPinHole).is_none());
}

#[test]
fn test_geometry_types() {
    let linear_geometry = CouplingGeometry::Linear { length: 20000 };
    assert!(matches!(linear_geometry, CouplingGeometry::Linear { length } if units(length) == 20.0));

    let circular_geometry = CouplingGeometry::Circular { radius: 6000 };
    assert!(matches!(circular_geometry, CouplingGeometry::Circular { radius } if units(radius) == 6.0));

    let point_geometry = CouplingGeometry::Point;
    assert!(matches!(point_geometry, CouplingGeometry::Point));
}

#[test]
fn integration_tests_test_coupling_compatibility() {
    assert!(CouplingType::Stud.can_connect_to(&CouplingType::AntiStud).is_some());
    assert!(CouplingType::AntiStud.can_connect_to(&CouplingType::Stud).is_some());
    assert!(CouplingType::Pin.can_connect_to(&CouplingType::FullPinHole).is_some());
    assert!(CouplingType::Axle.can_connect_to(&CouplingType::AxleHole).is_some());
    assert!(CouplingType::Stud.can_connect_to(&CouplingType::Stud).is_none());
    assert!(CouplingType::Pin.can_connect_to(&CouplingType::AxleHole).is_none());

    let stud_antistud = CouplingType::Stud.can_connect_to(&CouplingType::AntiStud).unwrap();
    let stud_tube = CouplingType::Stud.can_connect_to(&CouplingType::Tube).unwrap();
    assert!(stud_antistud.clutch_force > stud_tube.clutch_force);
}

#[test]
fn connections_are_symmetric() {
    let types = [
        CouplingType::Stud,
        CouplingType::HollowStud,
        CouplingType::AntiStud,
        CouplingType::Tube,
        CouplingType::FullPinHole,
        CouplingType::Pin,
        CouplingType::PinWithFriction,
        CouplingType::AxleHole,
        CouplingType::Axle,
        CouplingType::BarSide,
        CouplingType::BarEnd,
        CouplingType::Clip,
        CouplingType::ClipOpen,
        CouplingType::Hinge1x2BrickMale,
        CouplingType::Hinge1x2BrickFemale,
        CouplingType::BallJoint,
        CouplingType::BallSocket,
        CouplingType::Rail,
        CouplingType::RailGroove,
    ];
    for a in types.iter() {
        for b in types.iter() {
            assert_eq!(a.can_connect_to(b), b.can_connect_to(a));
        }
    }
}

#[test]
fn connection_properties_of_each_pair() {
    let hinge = CouplingType::Hinge1x2BrickFemale.can_connect_to(&CouplingType::Hinge1x2BrickMale).unwrap();
    assert_eq!(
        hinge.mode,
        ConnectionMode::Hinge { min_angle: -180000, max_angle: 180000, friction: 300 }
    );
    assert!(!hinge.dynamic);
    let ball = CouplingType::BallSocket.can_connect_to(&CouplingType::BallJoint).unwrap();
    assert_eq!(ball.mode, ConnectionMode::BallJoint { max_angle: 45000, friction: 400 });
    assert_eq!(ball.break_torque, 10000);
    let rail = CouplingType::RailGroove.can_connect_to(&CouplingType::Rail).unwrap();
    assert_eq!(rail.mode, ConnectionMode::Linear { friction: 300 });
    assert_eq!(rail.break_force, 20000);
    let clip = CouplingType::Clip.can_connect_to(&CouplingType::BarEnd).unwrap();
    assert_eq!(clip.mode, ConnectionMode::Fixed);
    assert_eq!(clip.clutch_force, 4000);
    let open_clip = CouplingType::ClipOpen.can_connect_to(&CouplingType::BarSide).unwrap();
    assert_eq!(open_clip.mode, ConnectionMode::Rotational { friction: 500 });
    assert_eq!(open_clip.break_torque, 2500);
    let hollow = CouplingType::AntiStud.can_connect_to(&CouplingType::HollowStud).unwrap();
    assert_eq!(hollow.break_force, 8000);
    assert!(CouplingType::BarEnd.can_connect_to(&CouplingType::ClipOpen).is_none());
    assert!(CouplingType::Tube.can_connect_to(&CouplingType::AntiStud).is_none());
}
