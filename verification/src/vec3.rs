//! Three-dimensional points in fixed-point coordinates, with the two
//! geometric operations the mesh builder needs: the midpoint of two points
//! and the projection of a point onto the unit sphere.

use vstd::arithmetic::div_mod::{lemma_fundamental_div_mod, lemma_mod_division_less_than_divisor};
use vstd::prelude::*;

use crate::fixed::{isqrt, is_isqrt, COORD_LIMIT, FP_ONE, ISQRT_MAX_INPUT};

verus! {

/// A point, with each coordinate in fixed-point units of `1 / FP_ONE`.
#[derive(Clone, Copy, Debug, PartialEq, Eq, Structural)]
pub struct Vec3 {
    pub x: i64,
    pub y: i64,
    pub z: i64,
}

/// Smallest norm root accepted by [`normalize`]'s exact path: half a unit.
pub const HALF_UNIT: i64 = 500_000;

/// Coordinate bound inside the mesh builder: generous room around the unit
/// sphere, far below [`COORD_LIMIT`].
pub const MESH_COORD_BOUND: i64 = 4_000_000;

/// How far the squared length of a constructed vertex may drift from the
/// exact unit sphere. Relative to `FP_ONE * FP_ONE` this is `5 / FP_ONE`,
/// so the norm itself is within `3 / FP_ONE` of one.
pub const NEAR_UNIT_SLACK: i64 = 5_000_000;

pub open spec fn magnitude(c: int) -> int {
    if c >= 0 {
        c
    } else {
        -c
    }
}

pub open spec fn norm_sq(v: Vec3) -> int {
    v.x * v.x + v.y * v.y + v.z * v.z
}

/// Every coordinate lies within the library's carrying range.
pub open spec fn in_range(v: Vec3) -> bool {
    &&& magnitude(v.x as int) <= COORD_LIMIT as int
    &&& magnitude(v.y as int) <= COORD_LIMIT as int
    &&& magnitude(v.z as int) <= COORD_LIMIT as int
}

/// Every coordinate lies within the mesh builder's working range.
pub open spec fn mesh_range(v: Vec3) -> bool {
    &&& magnitude(v.x as int) <= MESH_COORD_BOUND as int
    &&& magnitude(v.y as int) <= MESH_COORD_BOUND as int
    &&& magnitude(v.z as int) <= MESH_COORD_BOUND as int
}

/// `v` lies on the unit sphere, up to the construction tolerance.
pub open spec fn near_unit(v: Vec3) -> bool {
    &&& (FP_ONE as int) * (FP_ONE as int) - NEAR_UNIT_SLACK as int <= norm_sq(v)
    &&& norm_sq(v) <= (FP_ONE as int) * (FP_ONE as int) + NEAR_UNIT_SLACK as int
}

/// Halving that truncates toward zero, as the coordinate average does.
pub open spec fn half_toward_zero(s: int) -> int {
    if s >= 0 {
        s / 2
    } else {
        -((-s) / 2)
    }
}

/// The midpoint of two points, each coordinate truncated toward zero.
pub open spec fn midpoint_of(a: Vec3, b: Vec3) -> Vec3 {
    Vec3 {
        x: half_toward_zero(a.x as int + b.x as int) as i64,
        y: half_toward_zero(a.y as int + b.y as int) as i64,
        z: half_toward_zero(a.z as int + b.z as int) as i64,
    }
}

/// One coordinate of the projection onto the unit sphere: `c * FP_ONE / rt`
/// truncated toward zero, where `rt` is the point's norm.
pub open spec fn scaled_unit(c: int, rt: int) -> int {
    if c >= 0 {
        (c * (FP_ONE as int)) / rt
    } else {
        -(((-c) * (FP_ONE as int)) / rt)
    }
}

/// The projection of `v` onto the unit sphere, given its norm root `rt`.
pub open spec fn unit_toward(v: Vec3, rt: int) -> Vec3 {
    Vec3 {
        x: scaled_unit(v.x as int, rt) as i64,
        y: scaled_unit(v.y as int, rt) as i64,
        z: scaled_unit(v.z as int, rt) as i64,
    }
}

/// What [`normalize`] returns: the projection of `v` onto the unit sphere
/// when `v`'s norm is at least half a unit, and a fixed unit vector on the
/// degenerate inputs the mesh builder never produces.
pub open spec fn normalized_point(v: Vec3) -> Vec3 {
    let rt = sqrt_floor(norm_sq(v) as nat) as int;
    if rt >= HALF_UNIT as int {
        unit_toward(v, rt)
    } else {
        Vec3 { x: FP_ONE, y: 0, z: 0 }
    }
}

/// The integer square root as a mathematical function.
pub open spec fn sqrt_floor(n: nat) -> nat
    decreases n,
{
    if n == 0 {
        0
    } else {
        let p = sqrt_floor((n - 1) as nat);
        if n < (p + 1) * (p + 1) {
            p
        } else {
            p + 1
        }
    }
}

pub proof fn lemma_sqrt_floor_is(n: nat)
    ensures
        is_isqrt(n as int, sqrt_floor(n) as int),
    decreases n,
{
    if n > 0 {
        lemma_sqrt_floor_is((n - 1) as nat);
        let p = sqrt_floor((n - 1) as nat);
        if n >= (p + 1) * (p + 1) {
            assert(n as int <= (p + 1) * (p + 1)) by {
                assert(n - 1 < (p + 1) * (p + 1));
            }
            assert((p + 1) * (p + 1) < (p + 2) * (p + 2)) by (nonlinear_arith)
                requires
                    p >= 0,
            ;
        }
    }
}

pub proof fn lemma_isqrt_unique(n: int, r1: int, r2: int)
    requires
        is_isqrt(n, r1),
        is_isqrt(n, r2),
    ensures
        r1 == r2,
{
    assert(r1 <= r2 || r1 >= r2 + 1);
    assert(r1 < r2 ==> (r1 + 1) * (r1 + 1) <= r2 * r2) by (nonlinear_arith)
        requires
            r1 >= 0 && r2 >= 0,
    ;
    assert(r2 < r1 ==> (r2 + 1) * (r2 + 1) <= r1 * r1) by (nonlinear_arith)
        requires
            r1 >= 0 && r2 >= 0,
    ;
}

/// A point near the unit sphere keeps every coordinate within a hair of one
/// unit, and in particular well inside the mesh working range.
pub proof fn lemma_near_unit_range(v: Vec3)
    requires
        near_unit(v),
    ensures
        magnitude(v.x as int) <= FP_ONE as int + 3,
        magnitude(v.y as int) <= FP_ONE as int + 3,
        magnitude(v.z as int) <= FP_ONE as int + 3,
        mesh_range(v),
{
    let fp = FP_ONE as int;
    let b = fp + 3;
    assert(v.x * v.x >= 0 && v.y * v.y >= 0 && v.z * v.z >= 0) by (nonlinear_arith);
    assert(fp * fp + (NEAR_UNIT_SLACK as int) <= b * b) by (nonlinear_arith)
        requires
            fp == 1_000_000,
            b == fp + 3,
            NEAR_UNIT_SLACK as int == 5_000_000,
    ;
    assert(-b <= v.x as int <= b) by (nonlinear_arith)
        requires
            (v.x as int) * (v.x as int) <= b * b,
            b >= 0,
    ;
    assert(-b <= v.y as int <= b) by (nonlinear_arith)
        requires
            (v.y as int) * (v.y as int) <= b * b,
            b >= 0,
    ;
    assert(-b <= v.z as int <= b) by (nonlinear_arith)
        requires
            (v.z as int) * (v.z as int) <= b * b,
            b >= 0,
    ;
}

/// The real norm of a near-unit point is within `3 / FP_ONE` of one.
pub proof fn lemma_near_unit_norm_bounds(v: Vec3)
    requires
        near_unit(v),
    ensures
        (FP_ONE as int - 3) * (FP_ONE as int - 3) < norm_sq(v),
        norm_sq(v) < (FP_ONE as int + 3) * (FP_ONE as int + 3),
{
    let fp = FP_ONE as int;
    assert((fp - 3) * (fp - 3) < fp * fp - NEAR_UNIT_SLACK as int) by (nonlinear_arith)
        requires
            fp == 1_000_000,
    ;
    assert(fp * fp + (NEAR_UNIT_SLACK as int) < (fp + 3) * (fp + 3)) by (nonlinear_arith)
        requires
            fp == 1_000_000,
    ;
}

/// The squared norm, as an executable value.
pub fn norm_sq_val(v: &Vec3) -> (r: u128)
    requires
        in_range(*v),
    ensures
        r == norm_sq(*v),
        r <= ISQRT_MAX_INPUT,
{
    proof {
        let lim = COORD_LIMIT as int;
        assert forall|c: int| magnitude(c) <= lim implies 0 <= c * c <= lim * lim by {
            assert(0 <= c * c <= lim * lim) by (nonlinear_arith)
                requires
                    magnitude(c) <= lim,
            ;
        }
        assert(3 * ((COORD_LIMIT as int) * (COORD_LIMIT as int)) <= ISQRT_MAX_INPUT as int)
            by (nonlinear_arith);
    }
    let xx = (v.x as i128) * (v.x as i128);
    let yy = (v.y as i128) * (v.y as i128);
    let zz = (v.z as i128) * (v.z as i128);
    (xx + yy + zz) as u128
}

/// The norm of a point: the integer square root of its squared norm.
pub fn norm_root(v: &Vec3) -> (r: u64)
    requires
        in_range(*v),
    ensures
        r == sqrt_floor(norm_sq(*v) as nat),
        is_isqrt(norm_sq(*v), r as int),
{
    let s = norm_sq_val(v);
    let rt = isqrt(s);
    proof {
        lemma_sqrt_floor_is(s as nat);
        lemma_isqrt_unique(s as int, rt as int, sqrt_floor(s as nat) as int);
    }
    rt
}

/// The midpoint of two near-unit points.
pub fn midpoint(a: &Vec3, b: &Vec3) -> (m: Vec3)
    requires
        near_unit(*a),
        near_unit(*b),
    ensures
        m == midpoint_of(*a, *b),
        mesh_range(m),
{
    proof {
        lemma_near_unit_range(*a);
        lemma_near_unit_range(*b);
    }
    Vec3 {
        x: half_avg(a.x, b.x),
        y: half_avg(a.y, b.y),
        z: half_avg(a.z, b.z),
    }
}

fn half_avg(c0: i64, c1: i64) -> (m: i64)
    requires
        magnitude(c0 as int) <= FP_ONE as int + 3,
        magnitude(c1 as int) <= FP_ONE as int + 3,
    ensures
        m == half_toward_zero(c0 as int + c1 as int),
        magnitude(m as int) <= MESH_COORD_BOUND as int,
{
    let s = c0 + c1;
    if s >= 0 {
        ((s as u64) / 2) as i64
    } else {
        -(((-s) as u64 / 2) as i64)
    }
}

/// Projects a point onto the unit sphere: each coordinate becomes
/// `c * FP_ONE / rt`, truncated toward zero, where `rt` is the point's norm.
/// A degenerate point whose norm is below half a unit (which the mesh
/// builder never produces) is replaced by a fixed unit vector, so the
/// near-unit guarantee holds unconditionally.
pub fn normalize(v: &Vec3) -> (r: Vec3)
    requires
        mesh_range(*v),
    ensures
        r == normalized_point(*v),
        near_unit(r),
{
    proof {
        lemma_mesh_range_in_range(*v);
    }
    let rt = norm_root(v);
    if rt < HALF_UNIT as u64 {
        let fallback = Vec3 { x: FP_ONE, y: 0, z: 0 };
        assert(norm_sq(fallback) == (FP_ONE as int) * (FP_ONE as int));
        fallback
    } else {
        let r = Vec3 {
            x: scale_to_unit(v.x, rt),
            y: scale_to_unit(v.y, rt),
            z: scale_to_unit(v.z, rt),
        };
        proof {
            lemma_unit_toward_near(*v, rt as int);
        }
        r
    }
}

pub proof fn lemma_mesh_range_in_range(v: Vec3)
    requires
        mesh_range(v),
    ensures
        in_range(v),
{
}

fn scale_to_unit(c: i64, rt: u64) -> (q: i64)
    requires
        magnitude(c as int) <= MESH_COORD_BOUND as int,
        HALF_UNIT as int <= rt as int,
    ensures
        q == scaled_unit(c as int, rt as int),
        magnitude(q as int) <= 8 * FP_ONE as int,
{
    let fp = FP_ONE as u128;
    let a: u128 = if c >= 0 {
        c as u128
    } else {
        (-(c as i128)) as u128
    };
    let qm: u128 = (a * fp) / (rt as u128);
    proof {
        lemma_fundamental_div_mod(a as int * fp as int, rt as int);
        lemma_mod_division_less_than_divisor(a as int * fp as int, rt as int);
        assert(qm as int <= 8 * fp as int) by (nonlinear_arith)
            requires
                qm as int * rt as int <= a as int * fp as int,
                a as int <= MESH_COORD_BOUND as int,
                MESH_COORD_BOUND as int == 4 * fp as int,
                rt as int >= HALF_UNIT as int,
                2 * HALF_UNIT as int == fp as int,
                qm as int >= 0,
                fp == 1_000_000,
        ;
    }
    if c >= 0 {
        qm as i64
    } else {
        -(qm as i64)
    }
}

/// The heart of the tolerance argument: projecting a mesh-range point whose
/// norm root is at least half a unit lands within the near-unit band.
proof fn lemma_unit_toward_near(v: Vec3, rt: int)
    requires
        mesh_range(v),
        is_isqrt(norm_sq(v), rt),
        rt >= HALF_UNIT as int,
    ensures
        near_unit(unit_toward(v, rt)),
{
    let fp = FP_ONE as int;
    let s = norm_sq(v);
    let ax = magnitude(v.x as int);
    let ay = magnitude(v.y as int);
    let az = magnitude(v.z as int);
    let qx = (ax * fp) / rt;
    let qy = (ay * fp) / rt;
    let qz = (az * fp) / rt;

    assert(ax == v.x as int || ax == -(v.x as int));
    assert(ay == v.y as int || ay == -(v.y as int));
    assert(az == v.z as int || az == -(v.z as int));
    assert(ax * ax == (v.x as int) * (v.x as int)) by (nonlinear_arith)
        requires
            ax == v.x as int || ax == -(v.x as int),
    ;
    assert(ay * ay == (v.y as int) * (v.y as int)) by (nonlinear_arith)
        requires
            ay == v.y as int || ay == -(v.y as int),
    ;
    assert(az * az == (v.z as int) * (v.z as int)) by (nonlinear_arith)
        requires
            az == v.z as int || az == -(v.z as int),
    ;
    assert(s == ax * ax + ay * ay + az * az);

    lemma_fundamental_div_mod(ax * fp, rt);
    lemma_mod_division_less_than_divisor(ax * fp, rt);
    lemma_fundamental_div_mod(ay * fp, rt);
    lemma_mod_division_less_than_divisor(ay * fp, rt);
    lemma_fundamental_div_mod(az * fp, rt);
    lemma_mod_division_less_than_divisor(az * fp, rt);
    assert(qx >= 0 && qy >= 0 && qz >= 0) by (nonlinear_arith)
        requires
            qx * rt + (ax * fp) % rt == ax * fp,
            qy * rt + (ay * fp) % rt == ay * fp,
            qz * rt + (az * fp) % rt == az * fp,
            (ax * fp) % rt < rt,
            (ay * fp) % rt < rt,
            (az * fp) % rt < rt,
            ax >= 0 && ay >= 0 && az >= 0,
            fp > 0,
            rt > 0,
    ;
    assert(qx * rt <= ax * fp && ax * fp < (qx + 1) * rt) by (nonlinear_arith)
        requires
            rt * qx + (ax * fp) % rt == ax * fp,
            0 <= (ax * fp) % rt < rt,
    ;
    assert(qy * rt <= ay * fp && ay * fp < (qy + 1) * rt) by (nonlinear_arith)
        requires
            rt * qy + (ay * fp) % rt == ay * fp,
            0 <= (ay * fp) % rt < rt,
    ;
    assert(qz * rt <= az * fp && az * fp < (qz + 1) * rt) by (nonlinear_arith)
        requires
            rt * qz + (az * fp) % rt == az * fp,
            0 <= (az * fp) % rt < rt,
    ;

    let sq = qx * qx + qy * qy + qz * qz;

    // Upper bound: the squared norm of the projection cannot exceed
    // fp * fp by more than 4 * fp.
    assert(qx * qx * (rt * rt) <= ax * ax * (fp * fp)) by (nonlinear_arith)
        requires
            qx * rt <= ax * fp,
            qx >= 0 && ax >= 0 && rt > 0 && fp > 0,
    ;
    assert(qy * qy * (rt * rt) <= ay * ay * (fp * fp)) by (nonlinear_arith)
        requires
            qy * rt <= ay * fp,
            qy >= 0 && ay >= 0 && rt > 0 && fp > 0,
    ;
    assert(qz * qz * (rt * rt) <= az * az * (fp * fp)) by (nonlinear_arith)
        requires
            qz * rt <= az * fp,
            qz >= 0 && az >= 0 && rt > 0 && fp > 0,
    ;
    assert(sq * (rt * rt) <= s * (fp * fp)) by (nonlinear_arith)
        requires
            qx * qx * (rt * rt) <= ax * ax * (fp * fp),
            qy * qy * (rt * rt) <= ay * ay * (fp * fp),
            qz * qz * (rt * rt) <= az * az * (fp * fp),
            sq == qx * qx + qy * qy + qz * qz,
            s == ax * ax + ay * ay + az * az,
    ;
    assert(sq <= fp * fp + 4 * fp) by (nonlinear_arith)
        requires
            sq * (rt * rt) <= s * (fp * fp),
            s < (rt + 1) * (rt + 1),
            rt >= 500_000,
            fp == 1_000_000,
            sq >= 0,
    ;

    // Lower bound: it cannot fall short of fp * fp by more than 5 * fp.
    assert(ax * ax * (fp * fp) < (qx + 1) * (qx + 1) * (rt * rt)) by (nonlinear_arith)
        requires
            ax * fp < (qx + 1) * rt,
            qx >= 0 && ax >= 0 && rt > 0 && fp > 0,
    ;
    assert(ay * ay * (fp * fp) < (qy + 1) * (qy + 1) * (rt * rt)) by (nonlinear_arith)
        requires
            ay * fp < (qy + 1) * rt,
            qy >= 0 && ay >= 0 && rt > 0 && fp > 0,
    ;
    assert(az * az * (fp * fp) < (qz + 1) * (qz + 1) * (rt * rt)) by (nonlinear_arith)
        requires
            az * fp < (qz + 1) * rt,
            qz >= 0 && az >= 0 && rt > 0 && fp > 0,
    ;
    assert(s * (fp * fp) < (sq + 2 * (qx + qy + qz) + 3) * (rt * rt)) by (nonlinear_arith)
        requires
            ax * ax * (fp * fp) < (qx + 1) * (qx + 1) * (rt * rt),
            ay * ay * (fp * fp) < (qy + 1) * (qy + 1) * (rt * rt),
            az * az * (fp * fp) < (qz + 1) * (qz + 1) * (rt * rt),
            sq == qx * qx + qy * qy + qz * qz,
            s == ax * ax + ay * ay + az * az,
    ;
    assert((ax + ay + az) * (ax + ay + az) <= 3 * s) by (nonlinear_arith)
        requires
            s == ax * ax + ay * ay + az * az,
    ;
    assert(ax + ay + az <= 2 * rt + 1) by (nonlinear_arith)
        requires
            (ax + ay + az) * (ax + ay + az) <= 3 * s,
            s < (rt + 1) * (rt + 1),
            ax + ay + az >= 0,
            rt >= 0,
    ;
    assert(qx + qy + qz <= 2 * fp + 2) by (nonlinear_arith)
        requires
            qx * rt <= ax * fp,
            qy * rt <= ay * fp,
            qz * rt <= az * fp,
            ax + ay + az <= 2 * rt + 1,
            ax >= 0 && ay >= 0 && az >= 0,
            qx + qy + qz >= 0,
            rt >= 500_000,
            fp == 1_000_000,
    ;
    assert(fp * fp < sq + 2 * (qx + qy + qz) + 3) by (nonlinear_arith)
        requires
            rt * rt <= s,
            s * (fp * fp) < (sq + 2 * (qx + qy + qz) + 3) * (rt * rt),
            rt > 0,
            fp > 0,
    ;
    assert(sq >= fp * fp - (4 * fp + 7));

    // The projection's coordinates are small enough that the fixed-width
    // casts in `unit_toward` are exact.
    assert(qx <= 8 * fp && qy <= 8 * fp && qz <= 8 * fp) by (nonlinear_arith)
        requires
            qx * rt <= ax * fp,
            qy * rt <= ay * fp,
            qz * rt <= az * fp,
            ax <= 4 * fp && ay <= 4 * fp && az <= 4 * fp,
            qx >= 0 && qy >= 0 && qz >= 0,
            rt >= 500_000,
            fp == 1_000_000,
    ;
    let r = unit_toward(v, rt);
    assert(r.x as int == scaled_unit(v.x as int, rt));
    assert(norm_sq(r) == sq) by (nonlinear_arith)
        requires
            r.x as int == if v.x >= 0 { qx } else { -qx },
            r.y as int == if v.y >= 0 { qy } else { -qy },
            r.z as int == if v.z >= 0 { qz } else { -qz },
            sq == qx * qx + qy * qy + qz * qz,
            norm_sq(r) == r.x * r.x + r.y * r.y + r.z * r.z,
    ;
}

} // verus!
