//! Coupling types and the physical properties of the connections between
//! them.
//!
//! Physical quantities are fixed-point integers in thousandths of their
//! unit: forces in millinewtons, torques in thousandths of a newton-metre,
//! friction coefficients in thousandths, angles in thousandths of a degree,
//! and lengths in thousandths of an LDraw unit (LDU; 1 LDU is 0.4 mm and 20
//! LDU are one standard module).

use vstd::prelude::*;

pub mod ldu_constants;
pub mod registry;

use crate::text::{is_ascii_digit, is_ascii_lower, is_ascii_upper, leak_string, push_char};

verus! {

/// Types of coupling connections available.
#[derive(Debug, Clone, Copy, PartialEq, Eq, Hash, Structural)]
pub enum CouplingType {
    Stud,
    HollowStud,
    AntiStud,
    /// An anti-stud with a 1x1 round shape, as seen in a 1x1 round plate. It
    /// connects to a stud or squeezes into the space between four studs
    /// arranged in a square.
    Round1x1AntiStud,
    /// A projection that fits into a hollow stud's hole, found on the bottom
    /// of many 1x plates.
    Post,
    /// The point in the middle of a 4x4 stud grid; it connects to the bottom
    /// of a 1x1 round plate, a full Technic bushing with four cutouts, etc.
    StudSquareCenter,
    Tube,
    FullPinHole,
    HalfPinHole,
    PlatePinHole,
    Pin,
    PinWithFriction,
    HalfPin,
    AxleHole,
    Axle,
    StandardGearToothMale,
    StandardGearToothFemale,
    BevelGearToothMale,
    BevelGearToothFemale,
    CrownGearToothMale,
    CrownGearToothFemale,
    WormGearToothMale,
    WormGearToothFemale,
    ScrewGearToothMale,
    ScrewGearToothFemale,
    HalfBushingToothMale,
    HalfBushingToothFemale,
    /// A full Technic bushing has one round side and one with four lobes and
    /// four cutouts; the lobed end connects to the center of a 4x4 stud grid.
    BushingLobes,
    BarSide,
    BarEnd,
    Clip,
    ClipOpen,
    Hinge1x2BrickMale,
    Hinge1x2BrickFemale,
    VerticalHingePlate3Fingers,
    VerticalHingePlate2Fingers,
    BallJoint,
    BallSocket,
    Turntable2x2Top,
    Turntable2x2Bottom,
    Turntable4x4Top,
    Turntable4x4Bottom,
    HorizontalHingePlateTop,
    HorizontalHingePlateBottom,
    HelicopterRotorMale,
    HelicopterRotorFemale,
    IntegratedWheelAxle,
    IntegratedWheelHole,
    SmallWheelMale,
    SmallWheelFemale,
    Rail,
    RailGroove,
    ChainLinkMale,
    ChainLinkFemale,
    ChainLinkGearToothSlot,
    StationaryWindowFemale,
    StationaryWindowMale,
    RotatingWindowFemale,
    RotatingWindowMale,
    DoorMale,
    DoorFemale,
}

/// The identifier of a coupling type's variant, as written in its
/// declaration.
pub open spec fn variant_identifier(t: CouplingType) -> Seq<char> {
    match t {
        CouplingType::Stud => "Stud"@,
        CouplingType::HollowStud => "HollowStud"@,
        CouplingType::AntiStud => "AntiStud"@,
        CouplingType::Round1x1AntiStud => "Round1x1AntiStud"@,
        CouplingType::Post => "Post"@,
        CouplingType::StudSquareCenter => "StudSquareCenter"@,
        CouplingType::Tube => "Tube"@,
        CouplingType::FullPinHole => "FullPinHole"@,
        CouplingType::HalfPinHole => "HalfPinHole"@,
        CouplingType::PlatePinHole => "PlatePinHole"@,
        CouplingType::Pin => "Pin"@,
        CouplingType::PinWithFriction => "PinWithFriction"@,
        CouplingType::HalfPin => "HalfPin"@,
        CouplingType::AxleHole => "AxleHole"@,
        CouplingType::Axle => "Axle"@,
        CouplingType::StandardGearToothMale => "StandardGearToothMale"@,
        CouplingType::StandardGearToothFemale => "StandardGearToothFemale"@,
        CouplingType::BevelGearToothMale => "BevelGearToothMale"@,
        CouplingType::BevelGearToothFemale => "BevelGearToothFemale"@,
        CouplingType::CrownGearToothMale => "CrownGearToothMale"@,
        CouplingType::CrownGearToothFemale => "CrownGearToothFemale"@,
        CouplingType::WormGearToothMale => "WormGearToothMale"@,
        CouplingType::WormGearToothFemale => "WormGearToothFemale"@,
        CouplingType::ScrewGearToothMale => "ScrewGearToothMale"@,
        CouplingType::ScrewGearToothFemale => "ScrewGearToothFemale"@,
        CouplingType::HalfBushingToothMale => "HalfBushingToothMale"@,
        CouplingType::HalfBushingToothFemale => "HalfBushingToothFemale"@,
        CouplingType::BushingLobes => "BushingLobes"@,
        CouplingType::BarSide => "BarSide"@,
        CouplingType::BarEnd => "BarEnd"@,
        CouplingType::Clip => "Clip"@,
        CouplingType::ClipOpen => "ClipOpen"@,
        CouplingType::Hinge1x2BrickMale => "Hinge1x2BrickMale"@,
        CouplingType::Hinge1x2BrickFemale => "Hinge1x2BrickFemale"@,
        CouplingType::VerticalHingePlate3Fingers => "VerticalHingePlate3Fingers"@,
        CouplingType::VerticalHingePlate2Fingers => "VerticalHingePlate2Fingers"@,
        CouplingType::BallJoint => "BallJoint"@,
        CouplingType::BallSocket => "BallSocket"@,
        CouplingType::Turntable2x2Top => "Turntable2x2Top"@,
        CouplingType::Turntable2x2Bottom => "Turntable2x2Bottom"@,
        CouplingType::Turntable4x4Top => "Turntable4x4Top"@,
        CouplingType::Turntable4x4Bottom => "Turntable4x4Bottom"@,
        CouplingType::HorizontalHingePlateTop => "HorizontalHingePlateTop"@,
        CouplingType::HorizontalHingePlateBottom => "HorizontalHingePlateBottom"@,
        CouplingType::HelicopterRotorMale => "HelicopterRotorMale"@,
        CouplingType::HelicopterRotorFemale => "HelicopterRotorFemale"@,
        CouplingType::IntegratedWheelAxle => "IntegratedWheelAxle"@,
        CouplingType::IntegratedWheelHole => "IntegratedWheelHole"@,
        CouplingType::SmallWheelMale => "SmallWheelMale"@,
        CouplingType::SmallWheelFemale => "SmallWheelFemale"@,
        CouplingType::Rail => "Rail"@,
        CouplingType::RailGroove => "RailGroove"@,
        CouplingType::ChainLinkMale => "ChainLinkMale"@,
        CouplingType::ChainLinkFemale => "ChainLinkFemale"@,
        CouplingType::ChainLinkGearToothSlot => "ChainLinkGearToothSlot"@,
        CouplingType::StationaryWindowFemale => "StationaryWindowFemale"@,
        CouplingType::StationaryWindowMale => "StationaryWindowMale"@,
        CouplingType::RotatingWindowFemale => "RotatingWindowFemale"@,
        CouplingType::RotatingWindowMale => "RotatingWindowMale"@,
        CouplingType::DoorMale => "DoorMale"@,
        CouplingType::DoorFemale => "DoorFemale"@,
    }
}

/// Splits an identifier into words: an underscore becomes a space, and a
/// space is put before an upper-case letter or a digit that follows a
/// lower-case letter. `after_lower` says whether the character before `s`
/// was a lower-case letter.
pub open spec fn spaced_words(s: Seq<char>, after_lower: bool) -> Seq<char>
    decreases s.len(),
{
    if s.len() == 0 {
        Seq::empty()
    } else {
        let c = s[0];
        let rest = s.drop_first();
        if c == '_' {
            seq![' '] + spaced_words(rest, false)
        } else if (is_ascii_upper(c) || is_ascii_digit(c)) && after_lower {
            seq![' ', c] + spaced_words(rest, false)
        } else {
            seq![c] + spaced_words(rest, is_ascii_lower(c))
        }
    }
}

/// The human-readable name of a coupling type.
pub open spec fn display_name(t: CouplingType) -> Seq<char> {
    match t {
        CouplingType::AntiStud => "Anti-stud"@,
        CouplingType::FullPinHole => "Pin Hole"@,
        _ => spaced_words(variant_identifier(t), false),
    }
}

/// How two couplings can connect and move relative to each other.
#[derive(Debug, Clone, Copy, PartialEq, Eq, Structural)]
pub enum ConnectionMode {
    /// Fixed connection (e.g. stud to anti-stud).
    Fixed,
    /// Can rotate around the connection axis.
    Rotational { friction: i32 },
    /// Can slide along the connection axis (e.g. a sliding plate).
    Linear { friction: i32 },
    /// Can both rotate and slide (e.g. an axle in a hole).
    RotationalLinear { rotational_friction: i32, linear_friction: i32 },
    /// Hinge with a limited range of angles.
    Hinge { min_angle: i32, max_angle: i32, friction: i32 },
    /// Ball joint with an angular limit.
    BallJoint { max_angle: i32, friction: i32 },
}

/// Physical properties of the connection between two coupling types.
#[derive(Debug, Clone, Copy, PartialEq, Eq, Structural)]
pub struct ConnectionProperties {
    /// How the parts can move relative to each other.
    pub mode: ConnectionMode,
    /// Force that breaks the connection, in millinewtons.
    pub break_force: i32,
    /// Torque that breaks the connection, in thousandths of a newton-metre.
    pub break_torque: i32,
    /// Whether the connection can be made or broken during a simulation.
    pub dynamic: bool,
    /// Resistance to initial movement, in millinewtons.
    pub clutch_force: i32,
}

/// A bounding box of a geometric space, in thousandths of an LDU.
#[derive(Debug, Clone, Copy, PartialEq, Eq, Structural)]
pub struct BoundingBox {
    pub min_x: i32,
    pub max_x: i32,
    pub min_y: i32,
    pub max_y: i32,
    pub min_z: i32,
    pub max_z: i32,
}

/// Where on a coupling a connection can be made; lengths in thousandths of
/// an LDU.
#[derive(Debug, Clone, Copy, PartialEq, Eq, Structural)]
pub enum CouplingGeometry {
    /// A single point (e.g. a stud).
    Point,
    /// A segment along an axis (e.g. an axle hole).
    Linear { length: i32 },
    /// A circle (e.g. a turntable).
    Circular { radius: i32 },
    /// A rectangular area (e.g. large plate connections).
    Rectangular { width: i32, height: i32 },
    /// A space bounded by a box (e.g. the area of an anti-stud).
    GeometricSpace {
        /// The box that bounds the space.
        bounds: BoundingBox,
        /// Whether the space is convex.
        convex: bool,
    },
}

/// How a coupling was found.
#[derive(Debug, Clone, PartialEq, Eq)]
pub enum CouplingSource {
    /// From an LDraw primitive.
    Primitive {
        /// The name of the primitive file.
        primitive_name: String,
        /// The 4x4 transform applied to the primitive, in column-major
        /// order, each entry as the bit pattern of an IEEE 754
        /// single-precision number.
        transform: [u32; 16],
    },
    /// From an analysis of the geometry.
    GeometricAnalysis {
        /// How the analysis was made.
        method: String,
        /// Confidence, in thousandths (0 to 1000).
        confidence: i32,
    },
    /// Given by hand.
    Manual,
}

/// The properties of a connection.
pub open spec fn properties(
    mode: ConnectionMode,
    break_force: i32,
    break_torque: i32,
    dynamic: bool,
    clutch_force: i32,
) -> ConnectionProperties {
    ConnectionProperties { mode, break_force, break_torque, dynamic, clutch_force }
}

/// The connections of the catalogue, each listed once, with the coupling
/// that plugs in first.
pub open spec fn listed_connection(a: CouplingType, b: CouplingType) -> Option<ConnectionProperties> {
    match (a, b) {
        (CouplingType::Stud, CouplingType::AntiStud) => Some(
            properties(ConnectionMode::Fixed, 10000, 5000, true, 8000),
        ),
        (CouplingType::Stud, CouplingType::Tube) => Some(
            properties(ConnectionMode::Fixed, 12000, 6000, true, 6000),
        ),
        (CouplingType::HollowStud, CouplingType::AntiStud) => Some(
            properties(ConnectionMode::Fixed, 8000, 4000, true, 6000),
        ),
        (CouplingType::Pin, CouplingType::FullPinHole) => Some(
            properties(ConnectionMode::Rotational { friction: 100 }, 15000, 8000, true, 2000),
        ),
        (CouplingType::PinWithFriction, CouplingType::FullPinHole) => Some(
            properties(ConnectionMode::Rotational { friction: 2000 }, 15000, 8000, true, 12000),
        ),
        (CouplingType::Axle, CouplingType::AxleHole) => Some(
            properties(
                ConnectionMode::RotationalLinear { rotational_friction: 50, linear_friction: 1000 },
                12000,
                10000,
                true,
                1000,
            ),
        ),
        (CouplingType::Axle, CouplingType::FullPinHole) => Some(
            properties(
                ConnectionMode::RotationalLinear { rotational_friction: 200, linear_friction: 2000 },
                8000,
                6000,
                true,
                3000,
            ),
        ),
        (CouplingType::BarEnd, CouplingType::Clip) => Some(
            properties(ConnectionMode::Fixed, 5000, 3000, true, 4000),
        ),
        (CouplingType::BarSide, CouplingType::ClipOpen) => Some(
            properties(ConnectionMode::Rotational { friction: 500 }, 4000, 2500, true, 2000),
        ),
        (CouplingType::Hinge1x2BrickMale, CouplingType::Hinge1x2BrickFemale) => Some(
            properties(
                ConnectionMode::Hinge { min_angle: -180000 as i32, max_angle: 180000, friction: 300 },
                10000,
                12000,
                false,
                5000,
            ),
        ),
        (CouplingType::BallJoint, CouplingType::BallSocket) => Some(
            properties(ConnectionMode::BallJoint { max_angle: 45000, friction: 400 }, 8000, 10000, false, 6000),
        ),
        (CouplingType::Rail, CouplingType::RailGroove) => Some(
            properties(ConnectionMode::Linear { friction: 300 }, 20000, 5000, true, 3000),
        ),
        _ => None,
    }
}

/// The connection between two coupling types, in whichever order they are
/// given: the catalogue entry for the pair, if there is one.
pub open spec fn connection_between(a: CouplingType, b: CouplingType) -> Option<ConnectionProperties> {
    match listed_connection(a, b) {
        Some(p) => Some(p),
        None => listed_connection(b, a),
    }
}

/// The geometry that a coupling type has unless a primitive says otherwise.
pub open spec fn default_geometry_of(t: CouplingType) -> CouplingGeometry {
    match t {
        CouplingType::AntiStud => CouplingGeometry::GeometricSpace {
            bounds: BoundingBox {
                min_x: -10000 as i32,
                max_x: 10000,
                min_y: -4000 as i32,
                max_y: 0,
                min_z: -10000 as i32,
                max_z: 10000,
            },
            convex: true,
        },
        CouplingType::FullPinHole | CouplingType::AxleHole => CouplingGeometry::Linear { length: 20000 },
        CouplingType::Tube => CouplingGeometry::Circular { radius: 6000 },
        _ => CouplingGeometry::Point,
    }
}

/// Whether two coupling types connect does not depend on the order in which
/// they are given, and neither do the properties of the connection.
pub proof fn connection_is_symmetric(a: CouplingType, b: CouplingType)
    ensures
        connection_between(a, b) == connection_between(b, a),
{
}

/// A connection in the mode `m` lets its parts rotate about its axis.
pub open spec fn lets_turn(m: ConnectionMode) -> bool {
    m is Rotational || m is RotationalLinear
}

/// A connection in the mode `m` lets its parts both rotate about its axis
/// and slide along it.
pub open spec fn lets_turn_and_slide(m: ConnectionMode) -> bool {
    m is RotationalLinear
}

/// The friction against turning of a connection that lets its parts turn
/// and slide, in thousandths; zero for any other mode.
pub open spec fn turning_friction(m: ConnectionMode) -> int {
    match m {
        ConnectionMode::RotationalLinear { rotational_friction, .. } => rotational_friction as int,
        _ => 0,
    }
}

/// The friction against sliding of a connection that lets its parts turn
/// and slide, in thousandths; zero for any other mode.
pub open spec fn sliding_friction(m: ConnectionMode) -> int {
    match m {
        ConnectionMode::RotationalLinear { linear_friction, .. } => linear_friction as int,
        _ => 0,
    }
}

/// Whatever goes into a round pin hole can turn in it: every connection of a
/// coupling with a full pin hole, in either order, lets the parts rotate
/// about the hole's axis (and an axle may also slide along it).
pub proof fn round_pin_holes_let_parts_turn(t: CouplingType)
    ensures
        (connection_between(t, CouplingType::FullPinHole) is Some) ==> lets_turn(
            connection_between(t, CouplingType::FullPinHole)->0.mode,
        ),
        (connection_between(CouplingType::FullPinHole, t) is Some) ==> lets_turn(
            connection_between(CouplingType::FullPinHole, t)->0.mode,
        ),
{
    connection_is_symmetric(t, CouplingType::FullPinHole);
}

/// An axle turns and slides in every hole it connects with. In a round pin
/// hole, which does not grip its cross shape, it connects in either order
/// and turns with more friction than in an axle hole (200 against 50
/// thousandths), sliding with a friction of 2000 thousandths.
pub proof fn axles_turn_and_slide_in_holes(h: CouplingType)
    ensures
        (connection_between(CouplingType::Axle, h) is Some) ==> lets_turn_and_slide(
            connection_between(CouplingType::Axle, h)->0.mode,
        ),
        (connection_between(h, CouplingType::Axle) is Some) ==> lets_turn_and_slide(
            connection_between(h, CouplingType::Axle)->0.mode,
        ),
        (connection_between(CouplingType::Axle, CouplingType::FullPinHole) is Some),
        connection_between(CouplingType::FullPinHole, CouplingType::Axle) == connection_between(
            CouplingType::Axle,
            CouplingType::FullPinHole,
        ),
        turning_friction(connection_between(CouplingType::Axle, CouplingType::FullPinHole)->0.mode) == 200,
        sliding_friction(connection_between(CouplingType::Axle, CouplingType::FullPinHole)->0.mode) == 2000,
        turning_friction(connection_between(CouplingType::Axle, CouplingType::AxleHole)->0.mode)
            < turning_friction(connection_between(CouplingType::Axle, CouplingType::FullPinHole)->0.mode),
{
    connection_is_symmetric(h, CouplingType::Axle);
}

impl CouplingType {
    /// The identifier of this variant, as written in its declaration.
    fn identifier(&self) -> (r: &'static str)
        ensures
            r@ == variant_identifier(*self),
    {
        match self {
            CouplingType::Stud => "Stud",
            CouplingType::HollowStud => "HollowStud",
            CouplingType::AntiStud => "AntiStud",
            CouplingType::Round1x1AntiStud => "Round1x1AntiStud",
            CouplingType::Post => "Post",
            CouplingType::StudSquareCenter => "StudSquareCenter",
            CouplingType::Tube => "Tube",
            CouplingType::FullPinHole => "FullPinHole",
            CouplingType::HalfPinHole => "HalfPinHole",
            CouplingType::PlatePinHole => "PlatePinHole",
            CouplingType::Pin => "Pin",
            CouplingType::PinWithFriction => "PinWithFriction",
            CouplingType::HalfPin => "HalfPin",
            CouplingType::AxleHole => "AxleHole",
            CouplingType::Axle => "Axle",
            CouplingType::StandardGearToothMale => "StandardGearToothMale",
            CouplingType::StandardGearToothFemale => "StandardGearToothFemale",
            CouplingType::BevelGearToothMale => "BevelGearToothMale",
            CouplingType::BevelGearToothFemale => "BevelGearToothFemale",
            CouplingType::CrownGearToothMale => "CrownGearToothMale",
            CouplingType::CrownGearToothFemale => "CrownGearToothFemale",
            CouplingType::WormGearToothMale => "WormGearToothMale",
            CouplingType::WormGearToothFemale => "WormGearToothFemale",
            CouplingType::ScrewGearToothMale => "ScrewGearToothMale",
            CouplingType::ScrewGearToothFemale => "ScrewGearToothFemale",
            CouplingType::HalfBushingToothMale => "HalfBushingToothMale",
            CouplingType::HalfBushingToothFemale => "HalfBushingToothFemale",
            CouplingType::BushingLobes => "BushingLobes",
            CouplingType::BarSide => "BarSide",
            CouplingType::BarEnd => "BarEnd",
            CouplingType::Clip => "Clip",
            CouplingType::ClipOpen => "ClipOpen",
            CouplingType::Hinge1x2BrickMale => "Hinge1x2BrickMale",
            CouplingType::Hinge1x2BrickFemale => "Hinge1x2BrickFemale",
            CouplingType::VerticalHingePlate3Fingers => "VerticalHingePlate3Fingers",
            CouplingType::VerticalHingePlate2Fingers => "VerticalHingePlate2Fingers",
            CouplingType::BallJoint => "BallJoint",
            CouplingType::BallSocket => "BallSocket",
            CouplingType::Turntable2x2Top => "Turntable2x2Top",
            CouplingType::Turntable2x2Bottom => "Turntable2x2Bottom",
            CouplingType::Turntable4x4Top => "Turntable4x4Top",
            CouplingType::Turntable4x4Bottom => "Turntable4x4Bottom",
            CouplingType::HorizontalHingePlateTop => "HorizontalHingePlateTop",
            CouplingType::HorizontalHingePlateBottom => "HorizontalHingePlateBottom",
            CouplingType::HelicopterRotorMale => "HelicopterRotorMale",
            CouplingType::HelicopterRotorFemale => "HelicopterRotorFemale",
            CouplingType::IntegratedWheelAxle => "IntegratedWheelAxle",
            CouplingType::IntegratedWheelHole => "IntegratedWheelHole",
            CouplingType::SmallWheelMale => "SmallWheelMale",
            CouplingType::SmallWheelFemale => "SmallWheelFemale",
            CouplingType::Rail => "Rail",
            CouplingType::RailGroove => "RailGroove",
            CouplingType::ChainLinkMale => "ChainLinkMale",
            CouplingType::ChainLinkFemale => "ChainLinkFemale",
            CouplingType::ChainLinkGearToothSlot => "ChainLinkGearToothSlot",
            CouplingType::StationaryWindowFemale => "StationaryWindowFemale",
            CouplingType::StationaryWindowMale => "StationaryWindowMale",
            CouplingType::RotatingWindowFemale => "RotatingWindowFemale",
            CouplingType::RotatingWindowMale => "RotatingWindowMale",
            CouplingType::DoorMale => "DoorMale",
            CouplingType::DoorFemale => "DoorFemale",
        }
    }

    /// Returns the human-readable name: the variant's identifier split into
    /// words, except for the anti-stud ("Anti-stud") and the full pin hole
    /// ("Pin Hole").
    pub fn name(&self) -> (r: &'static str)
        ensures
            r@ == display_name(*self),
    {
        match self {
            CouplingType::AntiStud => "Anti-stud",
            CouplingType::FullPinHole => "Pin Hole",
            _ => {
                let ident = self.identifier();
                let mut name = String::new();
                let mut prev_is_lower = false;
                let ghost whole = ident@;
                assert(whole.skip(0) =~= whole);
                assert(name@ + whole =~= whole);
                for c in it: ident.chars()
                    invariant
                        whole == ident@,
                        it.seq() == whole,
                        spaced_words(whole, false) == name@ + spaced_words(
                            whole.skip(it.index() as int),
                            prev_is_lower,
                        ),
                {
                    let ghost i = it.index() as int;
                    assert(whole.skip(i).drop_first() =~= whole.skip(i + 1));
                    if c == '_' {
                        push_char(&mut name, ' ');
                        prev_is_lower = false;
                    } else if (('A' <= c && c <= 'Z') || ('0' <= c && c <= '9')) && prev_is_lower {
                        push_char(&mut name, ' ');
                        push_char(&mut name, c);
                        prev_is_lower = false;
                    } else {
                        push_char(&mut name, c);
                        prev_is_lower = 'a' <= c && c <= 'z';
                    }
                    assert(spaced_words(whole, false) == name@ + spaced_words(
                        whole.skip(i + 1),
                        prev_is_lower,
                    ));
                }
                assert(whole.skip(whole.len() as int) =~= Seq::<char>::empty());
                assert(name@ =~= name@ + Seq::<char>::empty());
                leak_string(name)
            },
        }
    }

    /// The properties of the connection between this coupling type and
    /// `other`, or `None` when the two do not connect.
    pub fn can_connect_to(&self, other: &CouplingType) -> (r: Option<ConnectionProperties>)
        ensures
            r == connection_between(*self, *other),
    {
        match (self, other) {
            (CouplingType::Stud, CouplingType::AntiStud) | (CouplingType::AntiStud, CouplingType::Stud) => Some(
                ConnectionProperties {
                    mode: ConnectionMode::Fixed,
                    break_force: 10000,
                    break_torque: 5000,
                    dynamic: true,
                    clutch_force: 8000,
                },
            ),
            (CouplingType::Stud, CouplingType::Tube) | (CouplingType::Tube, CouplingType::Stud) => Some(
                ConnectionProperties {
                    mode: ConnectionMode::Fixed,
                    break_force: 12000,
                    break_torque: 6000,
                    dynamic: true,
                    clutch_force: 6000,
                },
            ),
            (CouplingType::HollowStud, CouplingType::AntiStud)
            | (CouplingType::AntiStud, CouplingType::HollowStud) => Some(
                ConnectionProperties {
                    mode: ConnectionMode::Fixed,
                    break_force: 8000,
                    break_torque: 4000,
                    dynamic: true,
                    clutch_force: 6000,
                },
            ),
            (CouplingType::Pin, CouplingType::FullPinHole) | (CouplingType::FullPinHole, CouplingType::Pin) => Some(
                ConnectionProperties {
                    mode: ConnectionMode::Rotational { friction: 100 },
                    break_force: 15000,
                    break_torque: 8000,
                    dynamic: true,
                    clutch_force: 2000,
                },
            ),
            (CouplingType::PinWithFriction, CouplingType::FullPinHole)
            | (CouplingType::FullPinHole, CouplingType::PinWithFriction) => Some(
                ConnectionProperties {
                    mode: ConnectionMode::Rotational { friction: 2000 },
                    break_force: 15000,
                    break_torque: 8000,
                    dynamic: true,
                    clutch_force: 12000,
                },
            ),
            (CouplingType::Axle, CouplingType::AxleHole) | (CouplingType::AxleHole, CouplingType::Axle) => Some(
                ConnectionProperties {
                    mode: ConnectionMode::RotationalLinear { rotational_friction: 50, linear_friction: 1000 },
                    break_force: 12000,
                    break_torque: 10000,
                    dynamic: true,
                    clutch_force: 1000,
                },
            ),
            (CouplingType::Axle, CouplingType::FullPinHole)
            | (CouplingType::FullPinHole, CouplingType::Axle) => Some(
                ConnectionProperties {
                    mode: ConnectionMode::RotationalLinear { rotational_friction: 200, linear_friction: 2000 },
                    break_force: 8000,
                    break_torque: 6000,
                    dynamic: true,
                    clutch_force: 3000,
                },
            ),
            (CouplingType::BarEnd, CouplingType::Clip) | (CouplingType::Clip, CouplingType::BarEnd) => Some(
                ConnectionProperties {
                    mode: ConnectionMode::Fixed,
                    break_force: 5000,
                    break_torque: 3000,
                    dynamic: true,
                    clutch_force: 4000,
                },
            ),
            (CouplingType::BarSide, CouplingType::ClipOpen)
            | (CouplingType::ClipOpen, CouplingType::BarSide) => Some(
                ConnectionProperties {
                    mode: ConnectionMode::Rotational { friction: 500 },
                    break_force: 4000,
                    break_torque: 2500,
                    dynamic: true,
                    clutch_force: 2000,
                },
            ),
            (CouplingType::Hinge1x2BrickMale, CouplingType::Hinge1x2BrickFemale)
            | (CouplingType::Hinge1x2BrickFemale, CouplingType::Hinge1x2BrickMale) => Some(
                ConnectionProperties {
                    mode: ConnectionMode::Hinge { min_angle: -180000, max_angle: 180000, friction: 300 },
                    break_force: 10000,
                    break_torque: 12000,
                    dynamic: false,
                    clutch_force: 5000,
                },
            ),
            (CouplingType::BallJoint, CouplingType::BallSocket)
            | (CouplingType::BallSocket, CouplingType::BallJoint) => Some(
                ConnectionProperties {
                    mode: ConnectionMode::BallJoint { max_angle: 45000, friction: 400 },
                    break_force: 8000,
                    break_torque: 10000,
                    dynamic: false,
                    clutch_force: 6000,
                },
            ),
            (CouplingType::Rail, CouplingType::RailGroove) | (CouplingType::RailGroove, CouplingType::Rail) => Some(
                ConnectionProperties {
                    mode: ConnectionMode::Linear { friction: 300 },
                    break_force: 20000,
                    break_torque: 5000,
                    dynamic: true,
                    clutch_force: 3000,
                },
            ),
            _ => None,
        }
    }

    /// The geometry this coupling type has unless a primitive overrides it.
    pub fn default_geometry(&self) -> (r: CouplingGeometry)
        ensures
            r == default_geometry_of(*self),
    {
        match self {
            CouplingType::Stud | CouplingType::HollowStud => CouplingGeometry::Point,
            CouplingType::AntiStud => CouplingGeometry::GeometricSpace {
                bounds: BoundingBox {
                    min_x: -10000,
                    max_x: 10000,
                    min_y: -4000,
                    max_y: 0,
                    min_z: -10000,
                    max_z: 10000,
                },
                convex: true,
            },
            CouplingType::FullPinHole | CouplingType::AxleHole => CouplingGeometry::Linear {
                length: 20000,
            },
            CouplingType::Tube => CouplingGeometry::Circular { radius: 6000 },
            _ => CouplingGeometry::Point,
        }
    }
}

} // verus!
