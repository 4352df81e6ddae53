//! The common coupling layouts of bricks, plates and Technic beams: where
//! their studs, anti-studs, tubes and pin holes sit.

use vstd::prelude::*;

use crate::couplings::{CouplingGeometry, CouplingType};
use crate::text::{decimal, push_char, push_decimal};

verus! {

/// Common coupling layouts of LEGO parts. Lengths are in thousandths of an
/// LDraw unit (LDU).
pub struct CouplingPatterns;

/// A coupling of a regular layout. The center is in thousandths of an LDU,
/// the normal in thousandths of a unit vector's length.
#[derive(Debug, Clone, PartialEq)]
pub struct PlacedCoupling {
    /// The type of the coupling.
    pub coupling_type: CouplingType,
    /// The identifier of the coupling within its part.
    pub id: String,
    /// The center of the coupling, relative to the part.
    pub center: [i64; 3],
    /// The direction the coupling faces.
    pub normal: [i32; 3],
    /// Where on the coupling a connection can be made.
    pub geometry: CouplingGeometry,
}

/// What a placed coupling says: type, identifier, center, normal, geometry.
pub type PlacedView = (CouplingType, Seq<char>, Seq<i64>, Seq<i32>, CouplingGeometry);

/// What the placed coupling `c` says.
pub open spec fn placed_view(c: PlacedCoupling) -> PlacedView {
    (c.coupling_type, c.id@, c.center@, c.normal@, c.geometry)
}

/// What each placed coupling of `s` says, in order.
pub open spec fn placed_views(s: Seq<PlacedCoupling>) -> Seq<PlacedView> {
    s.map_values(|c: PlacedCoupling| placed_view(c))
}

/// The center, along one axis, of the `i`-th of `count` positions a stud
/// spacing apart and centred on the origin.
pub open spec fn offset(i: int, count: int) -> int {
    20000 * i - 10000 * (count - 1)
}

/// The identifier of the coupling at row `x` and column `z` of a grid:
/// `prefix`, then `_x_z`.
pub open spec fn grid_name(prefix: Seq<char>, x: int, z: int) -> Seq<char> {
    prefix + seq!['_'] + decimal(x as nat) + seq!['_'] + decimal(z as nat)
}

/// A coupling at `(x, y, z)`.
pub open spec fn at(
    coupling_type: CouplingType,
    id: Seq<char>,
    x: int,
    y: int,
    z: int,
    normal: Seq<i32>,
    geometry: CouplingGeometry,
) -> PlacedView {
    (coupling_type, id, seq![x as i64, y as i64, z as i64], normal, geometry)
}

/// Facing up, in thousandths.
pub open spec fn facing_up() -> Seq<i32> {
    seq![0i32, 1000i32, 0i32]
}

/// Facing down, in thousandths.
pub open spec fn facing_down() -> Seq<i32> {
    seq![0i32, -1000i32, 0i32]
}

/// The studs on top of a part `width` by `length` studs: row by row, the
/// stud at row `x` and column `z` centred over its place in the grid.
pub open spec fn stud_layout(width: int, length: int) -> Seq<PlacedView> {
    Seq::new(
        (width * length) as nat,
        |i: int|
            at(
                CouplingType::Stud,
                grid_name("stud"@, i / length, i % length),
                offset(i / length, width),
                0,
                offset(i % length, length),
                facing_up(),
                CouplingGeometry::Point,
            ),
    )
}

/// The rows (or columns) of the corner anti-studs of a part `count` studs
/// wide: the first and the last, which are one when the part is one stud
/// wide.
pub open spec fn corner_positions(count: int) -> Seq<int> {
    if count == 1 {
        seq![0]
    } else {
        seq![0, count - 1]
    }
}

/// The anti-studs and tubes under a part `width` by `length` studs whose
/// bottom is at `y`: an anti-stud at each corner, then, for a part at least
/// two studs each way, a tube between each square of four studs.
pub open spec fn antistud_layout(width: int, length: int, y: int) -> Seq<PlacedView> {
    let xs = corner_positions(width);
    let zs = corner_positions(length);
    let tubes = if width >= 2 && length >= 2 {
        (width - 1) * (length - 1)
    } else {
        0
    };
    Seq::new(
        (xs.len() * zs.len()) as nat,
        |i: int|
            {
                let x = xs[i / zs.len() as int];
                let z = zs[i % zs.len() as int];
                at(
                    CouplingType::AntiStud,
                    grid_name("antistud"@, x, z),
                    offset(x, width),
                    y,
                    offset(z, length),
                    facing_down(),
                    CouplingGeometry::Point,
                )
            },
    ) + Seq::new(
        tubes as nat,
        |i: int|
            at(
                CouplingType::Tube,
                grid_name("tube"@, i / (length - 1), i % (length - 1)),
                offset(i / (length - 1), width - 1),
                y,
                offset(i % (length - 1), length - 1),
                facing_down(),
                CouplingGeometry::Circular { radius: 6000 },
            ),
    )
}

/// The pin holes along a Technic beam `length` holes long, a stud spacing
/// apart along the x axis and facing along the z axis.
pub open spec fn beam_layout(length: int) -> Seq<PlacedView> {
    Seq::new(
        length as nat,
        |i: int|
            at(
                CouplingType::FullPinHole,
                "pin_hole"@ + seq!['_'] + decimal(i as nat),
                offset(i, length),
                0,
                0,
                seq![0i32, 0i32, 1000i32],
                CouplingGeometry::Linear { length: 20000 },
            ),
    )
}

/// A row of positions is centred on the origin: the `i`-th position from
/// one end mirrors the `i`-th from the other.
pub proof fn rows_are_centred(i: int, count: int)
    ensures
        offset(i, count) == -offset(count - 1 - i, count),
{
}

/// The tubes under a part at least two studs each way come after its four
/// corner anti-studs, row by row, and sit centred on the part between its
/// studs: the tube at row `x` and column `z` is at `20000 * x - 10000 * (width
/// - 2)` across and `20000 * z - 10000 * (length - 2)` along the part, at the
/// part's bottom; the tubes mirror each other across the middle of the part;
/// and each lies halfway between the studs at `(x, z)` and `(x + 1, z + 1)`.
pub proof fn tubes_are_centred(width: int, length: int, y: int, x: int, z: int)
    requires
        2 <= width <= u32::MAX,
        2 <= length <= u32::MAX,
        -100000 <= y <= 100000,
        0 <= x < width - 1,
        0 <= z < length - 1,
    ensures
        antistud_layout(width, length, y).len() == 4 + (width - 1) * (length - 1),
        antistud_layout(width, length, y)[4 + x * (length - 1) + z].0 == CouplingType::Tube,
        antistud_layout(width, length, y)[4 + x * (length - 1) + z].3 == seq![0i32, -1000i32, 0i32],
        antistud_layout(width, length, y)[4 + x * (length - 1) + z].4 == (CouplingGeometry::Circular { radius: 6000 }),
        antistud_layout(width, length, y)[4 + x * (length - 1) + z].2 == seq![
            (20000 * x - 10000 * (width - 2)) as i64,
            y as i64,
            (20000 * z - 10000 * (length - 2)) as i64,
        ],
        antistud_layout(width, length, y)[4 + x * (length - 1) + z].2[2] == -antistud_layout(width, length, y)[4
            + x * (length - 1) + (length - 2 - z)].2[2],
        antistud_layout(width, length, y)[4 + x * (length - 1) + z].2[0] == -antistud_layout(width, length, y)[4
            + (width - 2 - x) * (length - 1) + z].2[0],
        2 * antistud_layout(width, length, y)[4 + x * (length - 1) + z].2[0] == stud_layout(width, length)[x
            * length + z].2[0] + stud_layout(width, length)[(x + 1) * length + (z + 1)].2[0],
        2 * antistud_layout(width, length, y)[4 + x * (length - 1) + z].2[2] == stud_layout(width, length)[x
            * length + z].2[2] + stud_layout(width, length)[(x + 1) * length + (z + 1)].2[2],
{
    let layout = antistud_layout(width, length, y);
    let studs = stud_layout(width, length);
    assert(corner_positions(width).len() == 2);
    assert(corner_positions(length).len() == 2);
    assert((width - 1) * (length - 1) >= 1) by (nonlinear_arith)
        requires
            width >= 2,
            length >= 2,
    ;
    assert(width * length >= 4) by (nonlinear_arith)
        requires
            width >= 2,
            length >= 2,
    ;
    assert forall|a: int, b: int| 0 <= a < width - 1 && 0 <= b < length - 1 implies {
        let j = a * (length - 1) + b;
        &&& 0 <= j < (width - 1) * (length - 1)
        &&& j / (length - 1) == a
        &&& j % (length - 1) == b
        &&& #[trigger] layout[4 + a * (length - 1) + b] == at(
            CouplingType::Tube,
            grid_name("tube"@, a, b),
            offset(a, width - 1),
            y,
            offset(b, length - 1),
            facing_down(),
            CouplingGeometry::Circular { radius: 6000 },
        )
    } by {
        let j = a * (length - 1) + b;
        vstd::arithmetic::div_mod::lemma_fundamental_div_mod_converse(j, length - 1, a, b);
        assert(0 <= j < (width - 1) * (length - 1)) by (nonlinear_arith)
            requires
                0 <= a < width - 1,
                0 <= b < length - 1,
                j == a * (length - 1) + b,
        ;
    }
    assert forall|a: int, b: int| 0 <= a < width && 0 <= b < length implies {
        let j = a * length + b;
        &&& 0 <= j < width * length
        &&& #[trigger] studs[a * length + b] == at(
            CouplingType::Stud,
            grid_name("stud"@, a, b),
            offset(a, width),
            0,
            offset(b, length),
            facing_up(),
            CouplingGeometry::Point,
        )
    } by {
        let j = a * length + b;
        vstd::arithmetic::div_mod::lemma_fundamental_div_mod_converse(j, length, a, b);
        assert(0 <= j < width * length) by (nonlinear_arith)
            requires
                0 <= a < width,
                0 <= b < length,
                j == a * length + b,
        ;
    }
    let t = layout[4 + x * (length - 1) + z];
    assert(layout[4 + x * (length - 1) + (length - 2 - z)].2[2] == offset(length - 2 - z, length - 1) as i64);
    assert(layout[4 + (width - 2 - x) * (length - 1) + z].2[0] == offset(width - 2 - x, width - 1) as i64);
    assert(studs[x * length + z].2[0] == offset(x, width) as i64);
    assert(studs[(x + 1) * length + (z + 1)].2[0] == offset(x + 1, width) as i64);
    assert(studs[x * length + z].2[2] == offset(z, length) as i64);
    assert(studs[(x + 1) * length + (z + 1)].2[2] == offset(z + 1, length) as i64);
    assert(t.2 =~= seq![
        (20000 * x - 10000 * (width - 2)) as i64,
        y as i64,
        (20000 * z - 10000 * (length - 2)) as i64,
    ]);
}

/// The first four anti-studs under a part at least two studs each way sit
/// under its four corner studs, facing down at the part's bottom: the one at
/// corner `(a, b)`, each 0 or 1, comes at position `2 * a + b`, half a stud
/// inside the part's edges (`10000 * (width - 1)` from the middle across and
/// `10000 * (length - 1)` along), on the side that `a` and `b` name.
pub proof fn corner_antistuds_under_corner_studs(width: int, length: int, y: int, a: int, b: int)
    requires
        2 <= width <= u32::MAX,
        2 <= length <= u32::MAX,
        -100000 <= y <= 100000,
        0 <= a <= 1,
        0 <= b <= 1,
    ensures
        antistud_layout(width, length, y)[2 * a + b].0 == CouplingType::AntiStud,
        antistud_layout(width, length, y)[2 * a + b].2 == seq![
            ((2 * a - 1) * 10000 * (width - 1)) as i64,
            y as i64,
            ((2 * b - 1) * 10000 * (length - 1)) as i64,
        ],
        antistud_layout(width, length, y)[2 * a + b].3 == seq![0i32, -1000i32, 0i32],
        antistud_layout(width, length, y)[2 * a + b].2[0] == stud_layout(width, length)[a * (width - 1) * length
            + b * (length - 1)].2[0],
        antistud_layout(width, length, y)[2 * a + b].2[2] == stud_layout(width, length)[a * (width - 1) * length
            + b * (length - 1)].2[2],
{
    let layout = antistud_layout(width, length, y);
    let studs = stud_layout(width, length);
    assert(corner_positions(width).len() == 2);
    assert(corner_positions(length).len() == 2);
    let i = 2 * a + b;
    assert(i / 2 == a && i % 2 == b);
    let sx = a * (width - 1);
    let sz = b * (length - 1);
    let j = sx * length + sz;
    assert(0 <= sz < length) by (nonlinear_arith)
        requires
            0 <= b <= 1,
            length >= 2,
            sz == b * (length - 1),
    ;
    assert(0 <= sx < width) by (nonlinear_arith)
        requires
            0 <= a <= 1,
            width >= 2,
            sx == a * (width - 1),
    ;
    assert(0 <= j < width * length) by (nonlinear_arith)
        requires
            0 <= sx < width,
            0 <= sz < length,
            j == sx * length + sz,
    ;
    vstd::arithmetic::div_mod::lemma_fundamental_div_mod_converse(j, length, sx, sz);
    assert(j == a * (width - 1) * length + b * (length - 1)) by (nonlinear_arith)
        requires
            sx == a * (width - 1),
            sz == b * (length - 1),
            j == sx * length + sz,
    ;
    assert(offset(sx, width) == (2 * a - 1) * 10000 * (width - 1)) by (nonlinear_arith)
        requires
            sx == a * (width - 1),
            0 <= a <= 1,
    ;
    assert(offset(sz, length) == (2 * b - 1) * 10000 * (length - 1)) by (nonlinear_arith)
        requires
            sz == b * (length - 1),
            0 <= b <= 1,
    ;
    if a == 0 {
        assert(sx == 0);
    } else {
        assert(sx == width - 1);
    }
    if b == 0 {
        assert(sz == 0);
    } else {
        assert(sz == length - 1);
    }
    assert(corner_positions(width)[a] == sx);
    assert(corner_positions(length)[b] == sz);
    assert(layout[i].2 =~= seq![
        ((2 * a - 1) * 10000 * (width - 1)) as i64,
        y as i64,
        ((2 * b - 1) * 10000 * (length - 1)) as i64,
    ]);
}

/// The identifier `prefix_x_z`.
fn grid_id(prefix: &str, x: u32, z: u32) -> (r: String)
    ensures
        r@ == grid_name(prefix@, x as int, z as int),
{
    let mut id = prefix.to_owned();
    push_char(&mut id, '_');
    push_decimal(&mut id, x as usize);
    push_char(&mut id, '_');
    push_decimal(&mut id, z as usize);
    assert(id@ =~= grid_name(prefix@, x as int, z as int));
    id
}

/// The center, along one axis, of the `i`-th of `count` positions.
fn offset_of(i: u32, count: u32) -> (r: i64)
    requires
        count >= 1,
    ensures
        r == offset(i as int, count as int),
{
    20000 * (i as i64) - 10000 * ((count as i64) - 1)
}

impl CouplingPatterns {
    /// Standard stud spacing: 20 LDU (8 mm).
    pub const STUD_SPACING: i32 = 20000;

    /// Standard plate height: 8 LDU.
    pub const PLATE_HEIGHT: i32 = 8000;

    /// Standard brick height: 24 LDU.
    pub const BRICK_HEIGHT: i32 = 24000;

    /// The studs on top of a part `width` by `length` studs.
    pub fn create_studs(width: u32, length: u32) -> (r: Vec<PlacedCoupling>)
        ensures
            placed_views(r@) == stud_layout(width as int, length as int),
    {
        let mut couplings: Vec<PlacedCoupling> = Vec::new();
        let ghost w = width as int;
        let ghost l = length as int;
        let mut x: u32 = 0;
        while x < width
            invariant
                x <= width,
                w == width,
                l == length,
                couplings@.len() == x * l,
                forall|i: int| 0 <= i < couplings@.len() ==> placed_view(#[trigger] couplings@[i]) == stud_layout(w, l)[i],
            decreases width - x,
        {
            let mut z: u32 = 0;
            while z < length
                invariant
                    x < width,
                    z <= length,
                    w == width,
                    l == length,
                    couplings@.len() == x * l + z,
                    forall|i: int| 0 <= i < couplings@.len() ==> placed_view(#[trigger] couplings@[i]) == stud_layout(w, l)[i],
                decreases length - z,
            {
                let position = couplings.len();
                proof {
                    vstd::arithmetic::div_mod::lemma_fundamental_div_mod_converse(x * l + z, l, x as int, z as int);
                    assert(x * l + z < w * l) by (nonlinear_arith)
                        requires
                            x < w,
                            z < l,
                    ;
                }
                let center: [i64; 3] = [offset_of(x, width), 0, offset_of(z, length)];
                let normal: [i32; 3] = [0, 1000, 0];
                assert(center@ =~= seq![offset(x as int, w) as i64, 0i64, offset(z as int, l) as i64]);
                assert(normal@ =~= facing_up());
                couplings.push(
                    PlacedCoupling {
                        coupling_type: CouplingType::Stud,
                        id: grid_id("stud", x, z),
                        center,
                        normal,
                        geometry: CouplingGeometry::Point,
                    },
                );
                z = z + 1;
            }
            proof {
                assert(x * l + l == (x + 1) * l) by (nonlinear_arith);
            }
            x = x + 1;
        }
        proof {
            assert(couplings@.len() == w * l);
            assert(placed_views(couplings@) =~= stud_layout(w, l));
        }
        couplings
    }

    /// The anti-studs and tubes under a part `width` by `length` studs of
    /// the given height.
    pub fn create_antistuds(width: u32, length: u32, height_type: HeightType) -> (r: Vec<PlacedCoupling>)
        requires
            width >= 1,
            length >= 1,
        ensures
            placed_views(r@) == antistud_layout(width as int, length as int, bottom_offset(height_type)),
    {
        let ghost w = width as int;
        let ghost l = length as int;
        let ghost layout = antistud_layout(w, l, bottom_offset(height_type));
        let y = height_type.bottom_offset() as i64;
        let xs: Vec<u32> = if width == 1 {
            vec![0]
        } else {
            vec![0, width - 1]
        };
        let zs: Vec<u32> = if length == 1 {
            vec![0]
        } else {
            vec![0, length - 1]
        };
        let ghost cx = corner_positions(w);
        let ghost cz = corner_positions(l);
        assert(xs@.len() == cx.len() && forall|k: int| 0 <= k < cx.len() ==> xs@[k] == cx[k]);
        assert(zs@.len() == cz.len() && forall|k: int| 0 <= k < cz.len() ==> zs@[k] == cz[k]);
        let ghost corners = cx.len() * cz.len();
        let mut couplings: Vec<PlacedCoupling> = Vec::new();
        let mut a: usize = 0;
        while a < xs.len()
            invariant
                a <= xs@.len() == cx.len(),
                zs@.len() == cz.len(),
                forall|k: int| 0 <= k < cx.len() ==> xs@[k] == cx[k],
                forall|k: int| 0 <= k < cz.len() ==> zs@[k] == cz[k],
                forall|k: int| 0 <= k < cx.len() ==> 0 <= #[trigger] cx[k] < w,
                forall|k: int| 0 <= k < cz.len() ==> 0 <= #[trigger] cz[k] < l,
                cx == corner_positions(w),
                cz == corner_positions(l),
                layout == antistud_layout(w, l, bottom_offset(height_type)),
                y == bottom_offset(height_type),
                width >= 1,
                length >= 1,
                w == width,
                l == length,
                couplings@.len() == a * cz.len(),
                forall|i: int| 0 <= i < couplings@.len() ==> placed_view(#[trigger] couplings@[i]) == layout[i],
            decreases xs@.len() - a,
        {
            let mut b: usize = 0;
            while b < zs.len()
                invariant
                    a < xs@.len() == cx.len(),
                    b <= zs@.len() == cz.len(),
                    forall|k: int| 0 <= k < cx.len() ==> xs@[k] == cx[k],
                    forall|k: int| 0 <= k < cz.len() ==> zs@[k] == cz[k],
                    forall|k: int| 0 <= k < cx.len() ==> 0 <= #[trigger] cx[k] < w,
                    forall|k: int| 0 <= k < cz.len() ==> 0 <= #[trigger] cz[k] < l,
                    cx == corner_positions(w),
                    cz == corner_positions(l),
                    layout == antistud_layout(w, l, bottom_offset(height_type)),
                    y == bottom_offset(height_type),
                    width >= 1,
                    length >= 1,
                    w == width,
                    l == length,
                    couplings@.len() == a * cz.len() + b,
                    forall|i: int| 0 <= i < couplings@.len() ==> placed_view(#[trigger] couplings@[i]) == layout[i],
                decreases zs@.len() - b,
            {
                let x = xs[a];
                let z = zs[b];
                proof {
                    let i = a * cz.len() + b;
                    vstd::arithmetic::div_mod::lemma_fundamental_div_mod_converse(i, cz.len() as int, a as int, b as int);
                    assert(i < cx.len() * cz.len()) by (nonlinear_arith)
                        requires
                            a < cx.len(),
                            b < cz.len(),
                            i == a * cz.len() + b,
                    ;
                    assert(layout[i] == at(
                        CouplingType::AntiStud,
                        grid_name("antistud"@, x as int, z as int),
                        offset(x as int, w),
                        y as int,
                        offset(z as int, l),
                        facing_down(),
                        CouplingGeometry::Point,
                    ));
                }
                let center: [i64; 3] = [offset_of(x, width), y, offset_of(z, length)];
                let normal: [i32; 3] = [0, -1000, 0];
                assert(center@ =~= seq![offset(x as int, w) as i64, y, offset(z as int, l) as i64]);
                assert(normal@ =~= facing_down());
                couplings.push(
                    PlacedCoupling {
                        coupling_type: CouplingType::AntiStud,
                        id: grid_id("antistud", x, z),
                        center,
                        normal,
                        geometry: CouplingGeometry::Point,
                    },
                );
                b = b + 1;
            }
            proof {
                assert(a * cz.len() + cz.len() == (a + 1) * cz.len()) by (nonlinear_arith);
            }
            a = a + 1;
        }
        if width >= 2 && length >= 2 {
            let ghost tl = l - 1;
            let mut x: u32 = 0;
            while x < width - 1
                invariant
                    width >= 2,
                    length >= 2,
                    tl == l - 1,
                    w == width,
                    l == length,
                    x <= width - 1,
                    layout == antistud_layout(w, l, bottom_offset(height_type)),
                    y == bottom_offset(height_type),
                    corners == corner_positions(w).len() * corner_positions(l).len(),
                    couplings@.len() == corners + x * tl,
                    forall|i: int| 0 <= i < couplings@.len() ==> placed_view(#[trigger] couplings@[i]) == layout[i],
                decreases width - 1 - x,
            {
                let mut z: u32 = 0;
                while z < length - 1
                    invariant
                        width >= 2,
                        length >= 2,
                        tl == l - 1,
                        w == width,
                        l == length,
                        x < width - 1,
                        z <= length - 1,
                        layout == antistud_layout(w, l, bottom_offset(height_type)),
                        y == bottom_offset(height_type),
                        corners == corner_positions(w).len() * corner_positions(l).len(),
                        couplings@.len() == corners + x * tl + z,
                        forall|i: int| 0 <= i < couplings@.len() ==> placed_view(#[trigger] couplings@[i]) == layout[i],
                    decreases length - 1 - z,
                {
                    proof {
                        let t = x * tl + z;
                        vstd::arithmetic::div_mod::lemma_fundamental_div_mod_converse(t, tl, x as int, z as int);
                        assert(t < (w - 1) * (l - 1)) by (nonlinear_arith)
                            requires
                                x < w - 1,
                                z < tl,
                                tl == l - 1,
                                t == x * tl + z,
                        ;
                        assert(layout[corners + t] == at(
                            CouplingType::Tube,
                            grid_name("tube"@, x as int, z as int),
                            offset(x as int, w - 1),
                            y as int,
                            offset(z as int, l - 1),
                            facing_down(),
                            CouplingGeometry::Circular { radius: 6000 },
                        ));
                    }
                    let center: [i64; 3] = [offset_of(x, width - 1), y, offset_of(z, length - 1)];
                    let normal: [i32; 3] = [0, -1000, 0];
                    assert(center@ =~= seq![offset(x as int, w - 1) as i64, y, offset(z as int, l - 1) as i64]);
                    assert(normal@ =~= facing_down());
                    couplings.push(
                        PlacedCoupling {
                            coupling_type: CouplingType::Tube,
                            id: grid_id("tube", x, z),
                            center,
                            normal,
                            geometry: CouplingGeometry::Circular { radius: 6000 },
                        },
                    );
                    z = z + 1;
                }
                proof {
                    assert(x * tl + tl == (x + 1) * tl) by (nonlinear_arith);
                }
                x = x + 1;
            }
        }
        proof {
            assert(placed_views(couplings@) =~= layout);
        }
        couplings
    }
}

/// Whether a part is as high as a plate or as a brick.
#[derive(Debug, Clone, Copy, PartialEq, Eq, Structural)]
pub enum HeightType {
    Plate,
    Brick,
}

/// How far below the top of a part of the given height its anti-studs sit,
/// as a negative offset along the y axis.
pub open spec fn bottom_offset(height_type: HeightType) -> int {
    match height_type {
        HeightType::Plate => -(CouplingPatterns::PLATE_HEIGHT as int),
        HeightType::Brick => -(CouplingPatterns::BRICK_HEIGHT as int),
    }
}

impl HeightType {
    /// The offset along the y axis of the bottom of a part of this height,
    /// where its anti-studs sit.
    pub fn bottom_offset(&self) -> (r: i32)
        ensures
            r == bottom_offset(*self),
    {
        match self {
            HeightType::Plate => -CouplingPatterns::PLATE_HEIGHT,
            HeightType::Brick => -CouplingPatterns::BRICK_HEIGHT,
        }
    }
}

/// Appends `more` to `all`, keeping what each coupling says.
fn append_placed(all: &mut Vec<PlacedCoupling>, more: Vec<PlacedCoupling>)
    ensures
        placed_views(final(all)@) == placed_views(old(all)@) + placed_views(more@),
{
    let ghost start = placed_views(all@);
    let ghost items = more@;
    proof {
        assert(items.take(0) =~= Seq::<PlacedCoupling>::empty());
        assert(start + placed_views(Seq::<PlacedCoupling>::empty()) =~= start);
    }
    for c in it: more
        invariant
            it.seq() == items,
            placed_views(all@) == start + placed_views(items.take(it.index() as int)),
    {
        let ghost i = it.index() as int;
        let ghost before = all@;
        all.push(c);
        proof {
            assert(items.take(i + 1) =~= items.take(i).push(items[i]));
            assert(placed_views(all@) =~= placed_views(before).push(placed_view(items[i])));
            assert(placed_views(items.take(i + 1)) =~= placed_views(items.take(i)).push(placed_view(items[i])));
            assert(placed_views(all@) =~= start + placed_views(items.take(i + 1)));
        }
    }
    proof {
        assert(items.take(items.len() as int) =~= items);
    }
}

/// The couplings of a brick or plate `width` by `length` studs: the studs on
/// top, then the anti-studs and tubes below.
pub fn generate_brick_couplings(width: u32, length: u32, height_type: HeightType) -> (r: Vec<PlacedCoupling>)
    requires
        width >= 1,
        length >= 1,
    ensures
        placed_views(r@) == stud_layout(width as int, length as int) + antistud_layout(
            width as int,
            length as int,
            bottom_offset(height_type),
        ),
{
    let mut couplings = CouplingPatterns::create_studs(width, length);
    append_placed(&mut couplings, CouplingPatterns::create_antistuds(width, length, height_type));
    couplings
}

/// The pin holes of a Technic beam `length` holes long.
pub fn generate_technic_beam_couplings(length: u32) -> (r: Vec<PlacedCoupling>)
    ensures
        placed_views(r@) == beam_layout(length as int),
{
    let mut couplings: Vec<PlacedCoupling> = Vec::new();
    let ghost l = length as int;
    let mut i: u32 = 0;
    while i < length
        invariant
            i <= length,
            l == length,
            couplings@.len() == i,
            forall|k: int| 0 <= k < i ==> placed_view(#[trigger] couplings@[k]) == beam_layout(l)[k],
        decreases length - i,
    {
        let mut id = "pin_hole".to_owned();
        push_char(&mut id, '_');
        push_decimal(&mut id, i as usize);
        let center: [i64; 3] = [offset_of(i, length), 0, 0];
        let normal: [i32; 3] = [0, 0, 1000];
        assert(center@ =~= seq![offset(i as int, l) as i64, 0i64, 0i64]);
        assert(normal@ =~= seq![0i32, 0i32, 1000i32]);
        assert(id@ =~= "pin_hole"@ + seq!['_'] + decimal(i as nat));
        couplings.push(
            PlacedCoupling {
                coupling_type: CouplingType::FullPinHole,
                id,
                center,
                normal,
                geometry: CouplingGeometry::Linear { length: 20000 },
            },
        );
        i = i + 1;
    }
    proof {
        assert(placed_views(couplings@) =~= beam_layout(l));
    }
    couplings
}

} // verus!
