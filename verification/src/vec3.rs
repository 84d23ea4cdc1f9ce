//! Three-component vectors over the fixed-point quantities of
//! [`crate::fixed`].
//!
//! The mathematical model of a vector is [`V3`], a triple of integers; the
//! spec functions below state every operation exactly, floor rounding
//! included. Products descale once at the end (`dot`, `cross`), so a dot
//! product loses at most one unit to rounding.

use vstd::prelude::*;

verus! {

use crate::fixed::SCALE;
use crate::fixed::fdiv_v;
use crate::fixed::fmul_v;
use crate::fixed::fmul;
use crate::fixed::fdiv;
use crate::fixed::is_isqrt;
use crate::fixed::sqrt_v;
use crate::fixed::sqrt_fx;
use crate::fixed::within;
use crate::fixed::lemma_div_within;
use crate::fixed::lemma_div_within_dividend;
use crate::fixed::lemma_fmul_within;
use crate::fixed::lemma_fdiv_within;
use crate::fixed::lemma_sqrt_v_is_isqrt;
use crate::rng::Rng;
use crate::rng::draw_v;
use crate::rng::next_state;
use vstd::arithmetic::div_mod::lemma_div_by_multiple;
use vstd::arithmetic::div_mod::lemma_hoist_over_denominator;
use vstd::arithmetic::div_mod::lemma_div_is_ordered;
use vstd::arithmetic::div_mod::lemma_div_pos_is_pos;
use vstd::arithmetic::div_mod::lemma_fundamental_div_mod;

/// Magnitude cap on the components of the inputs of the multiplicative
/// operations: products of capped values descale into an `i64`.
pub const MUL_LIMIT: i64 = 0x40_0000_0000;

/// Magnitude cap on the components of the inputs of the additive
/// operations: sums of capped values stay in an `i64`.
pub const ADD_LIMIT: i64 = 0x3fff_ffff_ffff_ffff;

/// A component below this magnitude counts as vanishing; a vector is near
/// zero when all three components vanish. A vector that is not near zero
/// has a squared length of at least one unit.
pub const NEAR_ZERO_EPS: i64 = 256;

/// Magnitude cap on the components of a normalized vector.
pub const UNIT_LIMIT: i64 = 3 * 65536;

/// The mathematical model of a vector: a triple of integers.
pub struct V3 {
    pub x: int,
    pub y: int,
    pub z: int,
}

/// A vector of three fixed-point quantities. Also used for points in
/// space ([`Point3`]) and colors ([`crate::color::Color`]).
#[derive(Clone, Copy, Debug, PartialEq, Eq, Structural)]
pub struct Vec3 {
    pub x: i64,
    pub y: i64,
    pub z: i64,
}

/// A location in space.
pub type Point3 = Vec3;

impl View for Vec3 {
    type V = V3;

    open spec fn view(&self) -> V3 {
        V3 { x: self.x as int, y: self.y as int, z: self.z as int }
    }
}

/// Whether every component of `v` lies within magnitude `m`.
pub open spec fn bounded(v: V3, m: int) -> bool {
    &&& within(v.x, m)
    &&& within(v.y, m)
    &&& within(v.z, m)
}

/// The componentwise sum.
pub open spec fn add_v(a: V3, b: V3) -> V3 {
    V3 { x: a.x + b.x, y: a.y + b.y, z: a.z + b.z }
}

/// The componentwise difference.
pub open spec fn sub_v(a: V3, b: V3) -> V3 {
    V3 { x: a.x - b.x, y: a.y - b.y, z: a.z - b.z }
}

/// The componentwise negation.
pub open spec fn neg_v(a: V3) -> V3 {
    V3 { x: -a.x, y: -a.y, z: -a.z }
}

/// The componentwise product of two vectors.
pub open spec fn mul_v(a: V3, b: V3) -> V3 {
    V3 { x: fmul_v(a.x, b.x), y: fmul_v(a.y, b.y), z: fmul_v(a.z, b.z) }
}

/// The product of a vector and a quantity.
pub open spec fn smul_v(a: V3, s: int) -> V3 {
    V3 { x: fmul_v(a.x, s), y: fmul_v(a.y, s), z: fmul_v(a.z, s) }
}

/// The exact product of a vector and an integer, before descaling.
pub open spec fn smul_raw(a: V3, s: int) -> V3 {
    V3 { x: a.x * s, y: a.y * s, z: a.z * s }
}

/// The quotient of a vector and a quantity.
pub open spec fn sdiv_v(a: V3, s: int) -> V3 {
    V3 { x: fdiv_v(a.x, s), y: fdiv_v(a.y, s), z: fdiv_v(a.z, s) }
}

/// The exact inner product, before descaling.
pub open spec fn dot_raw(a: V3, b: V3) -> int {
    a.x * b.x + a.y * b.y + a.z * b.z
}

/// The inner product: the exact products are summed and descaled once.
pub open spec fn dot_v(a: V3, b: V3) -> int {
    dot_raw(a, b) / (SCALE as int)
}

/// The squared Euclidean length.
pub open spec fn norm_sq_v(a: V3) -> int {
    dot_v(a, a)
}

/// The Euclidean length: the integer square root of the rescaled squared
/// length.
pub open spec fn length_v(a: V3) -> int {
    sqrt_v(norm_sq_v(a) * (SCALE as int))
}

/// The normalization of `a`: `a` divided by its length.
pub open spec fn unit_v(a: V3) -> V3 {
    sdiv_v(a, length_v(a))
}

/// The cross product; each component descales once.
pub open spec fn cross_v(a: V3, b: V3) -> V3 {
    V3 {
        x: (a.y * b.z - a.z * b.y) / (SCALE as int),
        y: (a.z * b.x - a.x * b.z) / (SCALE as int),
        z: (a.x * b.y - a.y * b.x) / (SCALE as int),
    }
}

/// Whether every component of `a` vanishes.
pub open spec fn near_zero_v(a: V3) -> bool {
    bounded(a, (NEAR_ZERO_EPS - 1) as int)
}

/// The reflection of `v` about the axis `n`.
pub open spec fn reflect_v(v: V3, n: V3) -> V3 {
    sub_v(v, smul_v(n, 2 * dot_v(v, n)))
}

/// The refraction of the unit vector `v` through a surface of unit normal
/// `n`, for the given ratio of refraction indices: the components
/// perpendicular and parallel to the normal are rebuilt separately.
pub open spec fn refract_v(v: V3, n: V3, etai_over_etat: int) -> V3 {
    let cos_theta = if dot_v(neg_v(v), n) > SCALE as int {
        SCALE as int
    } else {
        dot_v(neg_v(v), n)
    };
    let r_out_perp = smul_v(add_v(v, smul_v(n, cos_theta)), etai_over_etat);
    let k = (SCALE as int) - norm_sq_v(r_out_perp);
    let k_abs = if k >= 0 {
        k
    } else {
        -k
    };
    let r_out_parallel = smul_v(n, -sqrt_v(k_abs * (SCALE as int)));
    add_v(r_out_perp, r_out_parallel)
}

/// How many rejection-sampling attempts the random generators make
/// before falling back to a fixed value.
pub const SAMPLE_ATTEMPTS: u32 = 64;

/// One cube sample: three consecutive draws over the closed unit range,
/// as a value and the state after them.
pub open spec fn cube_sample_v(s: int) -> (V3, int) {
    let x = draw_v(s, -(SCALE as int), SCALE as int + 1);
    let s1 = next_state(s);
    let y = draw_v(s1, -(SCALE as int), SCALE as int + 1);
    let s2 = next_state(s1);
    let z = draw_v(s2, -(SCALE as int), SCALE as int + 1);
    (V3 { x, y, z }, next_state(s2))
}

/// The unit-sphere sample a generator state yields: cube samples are
/// rejected until one falls inside the unit ball, away from the center,
/// and normalizes to a usable vector; after `attempts` rejections a
/// fixed axis vector stands in.
pub open spec fn sphere_sample_v(s: int, attempts: nat) -> (V3, int)
    decreases attempts,
{
    if attempts == 0 {
        (V3 { x: SCALE as int, y: 0, z: 0 }, s)
    } else {
        let (p, s1) = cube_sample_v(s);
        let ls = norm_sq_v(p);
        if 1 <= ls <= SCALE as int && !near_zero_v(unit_v(p)) {
            (unit_v(p), s1)
        } else {
            sphere_sample_v(s1, (attempts - 1) as nat)
        }
    }
}

/// The unit-disk sample a generator state yields: pairs of draws are
/// rejected until one falls inside the unit disk; after `attempts`
/// rejections the center stands in.
pub open spec fn disk_sample_v(s: int, attempts: nat) -> (V3, int)
    decreases attempts,
{
    if attempts == 0 {
        (V3 { x: 0, y: 0, z: 0 }, s)
    } else {
        let x = draw_v(s, -(SCALE as int), SCALE as int + 1);
        let s1 = next_state(s);
        let y = draw_v(s1, -(SCALE as int), SCALE as int + 1);
        let s2 = next_state(s1);
        let p = V3 { x, y, z: 0 };
        if norm_sq_v(p) < SCALE as int {
            (p, s2)
        } else {
            disk_sample_v(s2, (attempts - 1) as nat)
        }
    }
}

/// The hemisphere sample a generator state yields: a sphere sample,
/// flipped when it points against the normal. The flip is decided on
/// the exact inner product, before any rounding, so the result never
/// points against the normal.
pub open spec fn hemisphere_sample_v(normal: V3, s: int) -> (V3, int) {
    let (u, s1) = sphere_sample_v(s, SAMPLE_ATTEMPTS as nat);
    (
        if dot_raw(u, normal) > 0 {
            u
        } else {
            neg_v(u)
        },
        s1,
    )
}

/// Bound on a vector scaled by a quantity: if the caps' product descales
/// to at most `mo`, each result component lies within `mo` plus one.
pub proof fn lemma_smul_bounded(a: V3, s: int, ma: int, ms: int, mo: int)
    requires
        bounded(a, ma),
        within(s, ms),
        0 <= ma,
        0 <= ms,
        0 <= mo,
        ma * ms <= mo * (SCALE as int),
    ensures
        bounded(smul_v(a, s), mo + 1),
{
    lemma_fmul_within(a.x, s, ma, ms, mo);
    lemma_fmul_within(a.y, s, ma, ms, mo);
    lemma_fmul_within(a.z, s, ma, ms, mo);
}

/// Bound on a componentwise product, in the same shape.
pub proof fn lemma_mul_bounded(a: V3, b: V3, ma: int, mb: int, mo: int)
    requires
        bounded(a, ma),
        bounded(b, mb),
        0 <= ma,
        0 <= mb,
        0 <= mo,
        ma * mb <= mo * (SCALE as int),
    ensures
        bounded(mul_v(a, b), mo + 1),
{
    lemma_fmul_within(a.x, b.x, ma, mb, mo);
    lemma_fmul_within(a.y, b.y, ma, mb, mo);
    lemma_fmul_within(a.z, b.z, ma, mb, mo);
}

/// Bound on a vector divided by a positive quantity.
pub proof fn lemma_sdiv_bounded(a: V3, s: int, ma: int)
    requires
        bounded(a, ma),
        0 <= ma,
        s > 0,
    ensures
        bounded(sdiv_v(a, s), ma * (SCALE as int)),
{
    lemma_fdiv_within(a.x, s, ma);
    lemma_fdiv_within(a.y, s, ma);
    lemma_fdiv_within(a.z, s, ma);
}

/// Bound on an inner product: if three times the caps' product descales
/// to at most `mo`, the inner product lies within `mo` plus one.
pub proof fn lemma_dot_within(a: V3, b: V3, ma: int, mb: int, mo: int)
    requires
        bounded(a, ma),
        bounded(b, mb),
        0 <= ma,
        0 <= mb,
        0 <= mo,
        3 * ma * mb <= mo * (SCALE as int),
    ensures
        within(dot_v(a, b), mo + 1),
{
    assert(within(dot_raw(a, b), 3 * ma * mb)) by (nonlinear_arith)
        requires
            bounded(a, ma),
            bounded(b, mb),
            0 <= ma,
            0 <= mb,
    ;
    lemma_div_within(dot_raw(a, b), SCALE as int, mo * (SCALE as int));
    lemma_div_by_multiple(mo, SCALE as int);
}

/// Bound on a cross product, in the same shape.
pub proof fn lemma_cross_bounded(a: V3, b: V3, ma: int, mb: int, mo: int)
    requires
        bounded(a, ma),
        bounded(b, mb),
        0 <= ma,
        0 <= mb,
        0 <= mo,
        2 * ma * mb <= mo * (SCALE as int),
    ensures
        bounded(cross_v(a, b), mo + 1),
{
    assert(within(a.y * b.z - a.z * b.y, 2 * ma * mb) && within(
        a.z * b.x - a.x * b.z,
        2 * ma * mb,
    ) && within(a.x * b.y - a.y * b.x, 2 * ma * mb)) by (nonlinear_arith)
        requires
            bounded(a, ma),
            bounded(b, mb),
            0 <= ma,
            0 <= mb,
    ;
    lemma_div_within(a.y * b.z - a.z * b.y, SCALE as int, mo * (SCALE as int));
    lemma_div_within(a.z * b.x - a.x * b.z, SCALE as int, mo * (SCALE as int));
    lemma_div_within(a.x * b.y - a.y * b.x, SCALE as int, mo * (SCALE as int));
    lemma_div_by_multiple(mo, SCALE as int);
}

/// A squared length is never negative.
pub proof fn lemma_norm_sq_nonneg(a: V3)
    ensures
        0 <= norm_sq_v(a),
{
    assert(0 <= dot_raw(a, a)) by (nonlinear_arith);
    lemma_div_pos_is_pos(dot_raw(a, a), SCALE as int);
}

/// A vector that is not near zero has a squared length of at least one
/// unit.
pub proof fn lemma_not_near_zero(a: V3)
    requires
        !near_zero_v(a),
    ensures
        norm_sq_v(a) >= 1,
{
    assert(dot_raw(a, a) >= 65536) by (nonlinear_arith)
        requires
            !within(a.x, 255) || !within(a.y, 255) || !within(a.z, 255),
    ;
    lemma_div_is_ordered(65536, dot_raw(a, a), SCALE as int);
    assert(65536int / 65536 == 1);
}

/// Law: reflecting about an axis flips the inner product with that axis.
/// Over the exact products, before any rounding, a vector reflected about
/// `n` projects onto `n` as the negation of the original projection,
/// scaled by the squared length of `n`.
pub proof fn lemma_reflect_flips_projection(v: V3, n: V3)
    ensures
        dot_raw(sub_v(smul_raw(v, dot_raw(n, n)), smul_raw(n, 2 * dot_raw(v, n))), n) == -(dot_raw(
            n,
            n,
        ) * dot_raw(v, n)),
{
    let s = dot_raw(n, n);
    let d = dot_raw(v, n);
    let r = sub_v(smul_raw(v, s), smul_raw(n, 2 * d));
    assert(r.x * n.x == v.x * n.x * s - n.x * n.x * (2 * d)) by (nonlinear_arith)
        requires
            r.x == v.x * s - n.x * (2 * d),
    ;
    assert(r.y * n.y == v.y * n.y * s - n.y * n.y * (2 * d)) by (nonlinear_arith)
        requires
            r.y == v.y * s - n.y * (2 * d),
    ;
    assert(r.z * n.z == v.z * n.z * s - n.z * n.z * (2 * d)) by (nonlinear_arith)
        requires
            r.z == v.z * s - n.z * (2 * d),
    ;
    assert(v.x * n.x * s + v.y * n.y * s + v.z * n.z * s == d * s) by (nonlinear_arith)
        requires
            d == v.x * n.x + v.y * n.y + v.z * n.z,
    ;
    assert(n.x * n.x * (2 * d) + n.y * n.y * (2 * d) + n.z * n.z * (2 * d) == s * (2 * d))
        by (nonlinear_arith)
        requires
            s == n.x * n.x + n.y * n.y + n.z * n.z,
    ;
    assert(d * s - s * (2 * d) == -(s * d)) by (nonlinear_arith);
}

/// The square of one component of an exact reflection, expanded.
proof fn lemma_reflect_comp_sq(vc: int, nc: int, s: int, d: int, rc: int)
    requires
        rc == vc * s - nc * (2 * d),
    ensures
        rc * rc == s * s * (vc * vc) - 4 * s * d * (vc * nc) + 4 * d * d * (nc * nc),
{
    let a = vc * s;
    let b = nc * (2 * d);
    assert(rc * rc == a * a - 2 * (a * b) + b * b) by (nonlinear_arith)
        requires
            rc == a - b,
    ;
    assert(a * a == s * s * (vc * vc)) by (nonlinear_arith)
        requires
            a == vc * s,
    ;
    assert(2 * (a * b) == 4 * s * d * (vc * nc)) by (nonlinear_arith)
        requires
            a == vc * s,
            b == nc * (2 * d),
    ;
    assert(b * b == 4 * d * d * (nc * nc)) by (nonlinear_arith)
        requires
            b == nc * (2 * d),
    ;
}

/// Law: reflection preserves energy. Over the exact products, before
/// any rounding, the squared length of a vector reflected about `n` —
/// scaled, as in [`lemma_reflect_flips_projection`], by the squared
/// length of `n` — is the original squared length times that scale
/// squared.
pub proof fn lemma_reflect_preserves_length(v: V3, n: V3)
    ensures
        ({
            let s = dot_raw(n, n);
            let r = sub_v(smul_raw(v, s), smul_raw(n, 2 * dot_raw(v, n)));
            dot_raw(r, r) == s * s * dot_raw(v, v)
        }),
{
    let s = dot_raw(n, n);
    let d = dot_raw(v, n);
    let r = sub_v(smul_raw(v, s), smul_raw(n, 2 * d));
    lemma_reflect_comp_sq(v.x, n.x, s, d, r.x);
    lemma_reflect_comp_sq(v.y, n.y, s, d, r.y);
    lemma_reflect_comp_sq(v.z, n.z, s, d, r.z);
    assert(s * s * (v.x * v.x) + s * s * (v.y * v.y) + s * s * (v.z * v.z) == s * s * dot_raw(v, v))
        by (nonlinear_arith)
        requires
            dot_raw(v, v) == v.x * v.x + v.y * v.y + v.z * v.z,
    ;
    assert(4 * s * d * (v.x * n.x) + 4 * s * d * (v.y * n.y) + 4 * s * d * (v.z * n.z) == 4 * s * d
        * d) by (nonlinear_arith)
        requires
            d == v.x * n.x + v.y * n.y + v.z * n.z,
    ;
    assert(4 * d * d * (n.x * n.x) + 4 * d * d * (n.y * n.y) + 4 * d * d * (n.z * n.z) == 4 * d * d
        * s) by (nonlinear_arith)
        requires
            s == n.x * n.x + n.y * n.y + n.z * n.z,
    ;
    assert(4 * s * d * d == 4 * d * d * s) by (nonlinear_arith);
}

/// Law: the energy identity of reflection survives rounding. About an
/// axis whose exact squared length is one, the inner product of the
/// reflected vector with the axis is the negation of the original inner
/// product, up to three units of the representation.
pub proof fn lemma_reflect_projection_rounded(v: V3, n: V3)
    requires
        dot_raw(n, n) == (SCALE as int) * (SCALE as int),
    ensures
        within(dot_v(reflect_v(v, n), n) + dot_v(v, n), 3),
{
    let s = SCALE as int;
    let big_d = dot_raw(v, n);
    let d = dot_v(v, n);
    let f = big_d % s;
    lemma_fundamental_div_mod(big_d, s);

    let qx = fmul_v(n.x, 2 * d);
    let qy = fmul_v(n.y, 2 * d);
    let qz = fmul_v(n.z, 2 * d);
    let ex = (n.x * (2 * d)) % s;
    let ey = (n.y * (2 * d)) % s;
    let ez = (n.z * (2 * d)) % s;
    lemma_fundamental_div_mod(n.x * (2 * d), s);
    lemma_fundamental_div_mod(n.y * (2 * d), s);
    lemma_fundamental_div_mod(n.z * (2 * d), s);

    assert(within(n.x, s) && within(n.y, s) && within(n.z, s)) by (nonlinear_arith)
        requires
            n.x * n.x + n.y * n.y + n.z * n.z == s * s,
            s == SCALE as int,
    ;
    let e_total = n.x * ex + n.y * ey + n.z * ez;
    assert(within(e_total, 3 * s * s)) by (nonlinear_arith)
        requires
            e_total == n.x * ex + n.y * ey + n.z * ez,
            within(n.x, s) && within(n.y, s) && within(n.z, s),
            0 <= ex < s && 0 <= ey < s && 0 <= ez < s,
            s == SCALE as int,
    ;

    let r = reflect_v(v, n);
    assert(r.x == v.x - qx && r.y == v.y - qy && r.z == v.z - qz);
    let q_dot = qx * n.x + qy * n.y + qz * n.z;
    assert(2 * d * (n.x * n.x) == s * (qx * n.x) + n.x * ex) by (nonlinear_arith)
        requires
            n.x * (2 * d) == s * qx + ex,
    ;
    assert(2 * d * (n.y * n.y) == s * (qy * n.y) + n.y * ey) by (nonlinear_arith)
        requires
            n.y * (2 * d) == s * qy + ey,
    ;
    assert(2 * d * (n.z * n.z) == s * (qz * n.z) + n.z * ez) by (nonlinear_arith)
        requires
            n.z * (2 * d) == s * qz + ez,
    ;
    assert(2 * d * (n.x * n.x) + 2 * d * (n.y * n.y) + 2 * d * (n.z * n.z) == 2 * d * (s * s))
        by (nonlinear_arith)
        requires
            n.x * n.x + n.y * n.y + n.z * n.z == s * s,
    ;
    assert(s * (qx * n.x) + s * (qy * n.y) + s * (qz * n.z) == s * q_dot) by (nonlinear_arith)
        requires
            q_dot == qx * n.x + qy * n.y + qz * n.z,
    ;
    assert(s * q_dot == 2 * d * (s * s) - e_total);
    let big_q = dot_raw(r, n);
    assert(big_q == big_d - q_dot) by (nonlinear_arith)
        requires
            big_q == r.x * n.x + r.y * n.y + r.z * n.z,
            big_d == v.x * n.x + v.y * n.y + v.z * n.z,
            r.x == v.x - qx && r.y == v.y - qy && r.z == v.z - qz,
            q_dot == qx * n.x + qy * n.y + qz * n.z,
    ;
    assert(s * (big_q + d * s) == f * s + e_total) by (nonlinear_arith)
        requires
            s * q_dot == 2 * d * (s * s) - e_total,
            big_q == big_d - q_dot,
            big_d == s * d + f,
    ;
    assert(within(big_q + d * s, 4 * s)) by (nonlinear_arith)
        requires
            s * (big_q + d * s) == f * s + e_total,
            0 <= f < s,
            within(e_total, 3 * s * s),
            s == SCALE as int,
    ;
    lemma_hoist_over_denominator(big_q, d, SCALE as nat);
    lemma_div_within(big_q + d * s, s, 4 * s);
    assert((4 * (SCALE as int)) / (SCALE as int) == 4) by {
        lemma_div_by_multiple(4, SCALE as int);
    }
    assert(dot_v(r, n) + d == (big_q + d * s) / s);
    assert(within((big_q + d * s) / s, 3)) by {
        assert(big_q + d * s < 4 * s);
        assert((big_q + d * s) / s < 4) by {
            if (big_q + d * s) / s >= 4 {
                lemma_div_by_multiple(4, s);
                vstd::arithmetic::div_mod::lemma_div_is_ordered(4 * s, big_q + d * s, s);
            }
        }
    }
}

/// Each component of a normalization lies within twice the unit quantity,
/// plus one for rounding.
proof fn lemma_unit_comp_bound(c: int, num: int, ls: int, r: int)
    requires
        c * c <= num,
        0 <= num,
        ls == num / 65536,
        ls >= 1,
        is_isqrt(ls * 65536, r),
    ensures
        within(fdiv_v(c, r), (2 * 65536 + 1) as int),
        r >= 255,
{
    let n = ls * 65536;
    assert(n >= 65536) by (nonlinear_arith)
        requires
            ls >= 1,
            n == ls * 65536,
    ;
    assert(r >= 255) by (nonlinear_arith)
        requires
            is_isqrt(n, r),
            n >= 65536,
    ;
    lemma_fundamental_div_mod(num, 65536);
    assert(n >= num - 65535) by (nonlinear_arith)
        requires
            num == 65536 * ls + num % 65536,
            0 <= num % 65536 < 65536,
            n == ls * 65536,
    ;
    assert(within(c, 2 * r)) by (nonlinear_arith)
        requires
            c * c <= num,
            num <= n + 65535,
            n < (r + 1) * (r + 1),
            r >= 255,
    ;
    assert(within(c * 65536, (2 * 65536) * r)) by (nonlinear_arith)
        requires
            within(c, 2 * r),
            r >= 0,
    ;
    lemma_div_within(c * 65536, r, (2 * 65536) * r);
    lemma_div_by_multiple((2 * 65536) as int, r);
}

impl Vec3 {
    /// A vector from its three components.
    pub fn new(x: i64, y: i64, z: i64) -> (r: Vec3)
        ensures
            r@ == (V3 { x: x as int, y: y as int, z: z as int }),
    {
        Vec3 { x, y, z }
    }

    /// The first component.
    pub fn x(&self) -> (r: i64)
        ensures
            r as int == self@.x,
    {
        self.x
    }

    /// The second component.
    pub fn y(&self) -> (r: i64)
        ensures
            r as int == self@.y,
    {
        self.y
    }

    /// The third component.
    pub fn z(&self) -> (r: i64)
        ensures
            r as int == self@.z,
    {
        self.z
    }

    /// The componentwise negation.
    pub fn neg(&self) -> (r: Vec3)
        requires
            bounded(self@, ADD_LIMIT as int),
        ensures
            r@ == neg_v(self@),
    {
        Vec3 { x: -self.x, y: -self.y, z: -self.z }
    }

    /// The componentwise sum.
    pub fn add(&self, other: &Vec3) -> (r: Vec3)
        requires
            bounded(self@, ADD_LIMIT as int),
            bounded(other@, ADD_LIMIT as int),
        ensures
            r@ == add_v(self@, other@),
    {
        Vec3 { x: self.x + other.x, y: self.y + other.y, z: self.z + other.z }
    }

    /// The componentwise difference.
    pub fn sub(&self, other: &Vec3) -> (r: Vec3)
        requires
            bounded(self@, ADD_LIMIT as int),
            bounded(other@, ADD_LIMIT as int),
        ensures
            r@ == sub_v(self@, other@),
    {
        Vec3 { x: self.x - other.x, y: self.y - other.y, z: self.z - other.z }
    }

    /// The componentwise product.
    pub fn mul(&self, other: &Vec3) -> (r: Vec3)
        requires
            bounded(self@, MUL_LIMIT as int),
            bounded(other@, MUL_LIMIT as int),
        ensures
            r@ == mul_v(self@, other@),
    {
        proof {
            lemma_mul_bounded(
                self@,
                other@,
                MUL_LIMIT as int,
                MUL_LIMIT as int,
                0x1000_0000_0000_0000,
            );
        }
        Vec3 { x: fmul(self.x, other.x), y: fmul(self.y, other.y), z: fmul(self.z, other.z) }
    }

    /// The product with a quantity.
    pub fn scale(&self, s: i64) -> (r: Vec3)
        requires
            bounded(self@, MUL_LIMIT as int),
            within(s as int, MUL_LIMIT as int),
        ensures
            r@ == smul_v(self@, s as int),
    {
        proof {
            lemma_smul_bounded(
                self@,
                s as int,
                MUL_LIMIT as int,
                MUL_LIMIT as int,
                0x1000_0000_0000_0000,
            );
        }
        Vec3 { x: fmul(self.x, s), y: fmul(self.y, s), z: fmul(self.z, s) }
    }

    /// The quotient by a positive quantity.
    pub fn div(&self, s: i64) -> (r: Vec3)
        requires
            bounded(self@, MUL_LIMIT as int),
            s > 0,
        ensures
            r@ == sdiv_v(self@, s as int),
    {
        proof {
            lemma_sdiv_bounded(self@, s as int, MUL_LIMIT as int);
        }
        Vec3 { x: fdiv(self.x, s), y: fdiv(self.y, s), z: fdiv(self.z, s) }
    }

    /// The inner product: the exact 128-bit products are summed, then
    /// descaled once.
    pub fn dot(&self, other: &Vec3) -> (r: i64)
        requires
            bounded(self@, MUL_LIMIT as int),
            bounded(other@, MUL_LIMIT as int),
        ensures
            r as int == dot_v(self@, other@),
    {
        proof {
            assert(within((self@.x) * (other@.x), (MUL_LIMIT as int) * (MUL_LIMIT as int))
                && within((self@.y) * (other@.y), (MUL_LIMIT as int) * (MUL_LIMIT as int))
                && within((self@.z) * (other@.z), (MUL_LIMIT as int) * (MUL_LIMIT as int)))
                by (nonlinear_arith)
                requires
                    bounded(self@, MUL_LIMIT as int),
                    bounded(other@, MUL_LIMIT as int),
            ;
        }
        let p: i128 = (self.x as i128) * (other.x as i128) + (self.y as i128) * (other.y as i128)
            + (self.z as i128) * (other.z as i128);
        proof {
            assert(within(p as int, 3 * 0x1000_0000_0000_0000 * (SCALE as int)));
            lemma_div_within(p as int, SCALE as int, 3 * 0x1000_0000_0000_0000 * (SCALE as int));
            lemma_div_by_multiple((3 * 0x1000_0000_0000_0000) as int, SCALE as int);
            lemma_div_within_dividend(p as int, SCALE as int);
        }
        let q: i128 = p.checked_div_euclid(65536).unwrap();
        q as i64
    }

    /// The squared Euclidean length.
    pub fn length_squared(&self) -> (r: i64)
        requires
            bounded(self@, MUL_LIMIT as int),
        ensures
            r as int == norm_sq_v(self@),
            r >= 0,
    {
        proof {
            lemma_norm_sq_nonneg(self@);
        }
        self.dot(self)
    }

    /// The Euclidean length.
    pub fn length(&self) -> (r: i64)
        requires
            bounded(self@, MUL_LIMIT as int),
        ensures
            r as int == length_v(self@),
            r >= 0,
    {
        let ls = self.length_squared();
        sqrt_fx(ls)
    }

    /// The normalization: this vector divided by its length. The vector
    /// must not be degenerate: its squared length must be at least one
    /// unit.
    pub fn unit_vector(&self) -> (r: Vec3)
        requires
            bounded(self@, MUL_LIMIT as int),
            norm_sq_v(self@) >= 1,
        ensures
            r@ == unit_v(self@),
            bounded(r@, UNIT_LIMIT as int),
    {
        let len = self.length();
        proof {
            let vx = self@.x;
            let vy = self@.y;
            let vz = self@.z;
            let num = dot_raw(self@, self@);
            let ls = norm_sq_v(self@);
            assert(num == vx * vx + vy * vy + vz * vz);
            assert(0 <= num && vx * vx <= num && vy * vy <= num && vz * vz <= num)
                by (nonlinear_arith)
                requires
                    num == vx * vx + vy * vy + vz * vz,
            ;
            assert(0 <= ls * 65536) by {
                lemma_div_pos_is_pos(num, 65536);
            }
            lemma_sqrt_v_is_isqrt(ls * 65536);
            lemma_unit_comp_bound(vx, num, ls, len as int);
            lemma_unit_comp_bound(vy, num, ls, len as int);
            lemma_unit_comp_bound(vz, num, ls, len as int);
        }
        self.div(len)
    }

    /// Whether every component vanishes.
    pub fn near_zero(&self) -> (r: bool)
        ensures
            r == near_zero_v(self@),
    {
        self.x > -NEAR_ZERO_EPS && self.x < NEAR_ZERO_EPS && self.y > -NEAR_ZERO_EPS && self.y
            < NEAR_ZERO_EPS && self.z > -NEAR_ZERO_EPS && self.z < NEAR_ZERO_EPS
    }

    /// The reflection of this vector about the axis `other`.
    pub fn reflect(&self, other: &Vec3) -> (r: Vec3)
        requires
            bounded(self@, (8 * SCALE) as int),
            bounded(other@, (8 * SCALE) as int),
        ensures
            r@ == reflect_v(self@, other@),
            bounded(r@, (3100 * SCALE) as int),
    {
        let d = self.dot(other);
        proof {
            assert(3 * ((8 * SCALE) as int) * ((8 * SCALE) as int) <= ((192 * SCALE) as int) * (
            SCALE as int)) by (nonlinear_arith);
            lemma_dot_within(
                self@,
                other@,
                (8 * SCALE) as int,
                (8 * SCALE) as int,
                (192 * SCALE) as int,
            );
            lemma_smul_bounded(
                other@,
                2 * (d as int),
                (8 * SCALE) as int,
                (386 * SCALE) as int,
                (3088 * SCALE) as int,
            );
        }
        let scaled = other.scale(2 * d);
        self.sub(&scaled)
    }

    /// The refraction of this (unit) vector through a surface of unit
    /// normal `n`, for the given ratio of refraction indices.
    pub fn refract(&self, n: &Vec3, etai_over_etat: i64) -> (r: Vec3)
        requires
            bounded(self@, (8 * SCALE) as int),
            bounded(n@, (8 * SCALE) as int),
            0 < etai_over_etat <= 8 * SCALE,
        ensures
            r@ == refract_v(self@, n@, etai_over_etat as int),
            bounded(r@, (200000 * SCALE) as int),
    {
        let mut cos_theta = self.neg().dot(n);
        proof {
            assert(3 * ((8 * SCALE) as int) * ((8 * SCALE) as int) <= ((192 * SCALE) as int) * (
            SCALE as int)) by (nonlinear_arith);
            lemma_dot_within(
                neg_v(self@),
                n@,
                (8 * SCALE) as int,
                (8 * SCALE) as int,
                (192 * SCALE) as int,
            );
        }
        if cos_theta > SCALE {
            cos_theta = SCALE;
        }
        proof {
            lemma_smul_bounded(
                n@,
                cos_theta as int,
                (8 * SCALE) as int,
                (193 * SCALE) as int,
                (1544 * SCALE) as int,
            );
        }
        let scaled_n = n.scale(cos_theta);
        let shifted = self.add(&scaled_n);
        proof {
            lemma_smul_bounded(
                add_v(self@, smul_v(n@, cos_theta as int)),
                etai_over_etat as int,
                (1553 * SCALE) as int,
                (8 * SCALE) as int,
                (12424 * SCALE) as int,
            );
        }
        let r_out_perp = shifted.scale(etai_over_etat);
        let perp_ls = r_out_perp.length_squared();
        proof {
            assert(3 * ((12425 * SCALE) as int) * ((12425 * SCALE) as int) <= (463141875 * (
            SCALE as int)) * (SCALE as int)) by (nonlinear_arith);
            lemma_dot_within(
                r_out_perp@,
                r_out_perp@,
                (12425 * SCALE) as int,
                (12425 * SCALE) as int,
                463141875 * (SCALE as int),
            );
        }
        let k = SCALE - perp_ls;
        let k_abs = if k >= 0 {
            k
        } else {
            -k
        };
        let s = sqrt_fx(k_abs);
        proof {
            assert((s as int) * (s as int) <= (k_abs as int) * 65536);
            assert(s <= 22000 * 65536) by (nonlinear_arith)
                requires
                    0 <= s,
                    (s as int) * (s as int) <= (k_abs as int) * 65536,
                    k_abs as int <= 463141877 * 65536,
            ;
            lemma_smul_bounded(
                n@,
                -(s as int),
                (8 * SCALE) as int,
                (22000 * SCALE) as int,
                (176000 * SCALE) as int,
            );
        }
        let r_out_parallel = n.scale(-s);
        r_out_perp.add(&r_out_parallel)
    }

    /// The cross product: each component's exact 128-bit value descales
    /// once.
    pub fn cross(&self, other: &Vec3) -> (r: Vec3)
        requires
            bounded(self@, MUL_LIMIT as int),
            bounded(other@, MUL_LIMIT as int),
        ensures
            r@ == cross_v(self@, other@),
    {
        let cx = cross_component(self.y, other.z, self.z, other.y);
        let cy = cross_component(self.z, other.x, self.x, other.z);
        let cz = cross_component(self.x, other.y, self.y, other.x);
        Vec3 { x: cx, y: cy, z: cz }
    }

    /// A vector with components drawn uniformly from the given range:
    /// three consecutive draws, exactly.
    pub fn random(rng: &mut Rng, lo: i64, hi: i64) -> (r: Vec3)
        requires
            lo < hi,
            hi - lo <= i64::MAX,
        ensures
            lo as int <= r@.x < hi as int,
            lo as int <= r@.y < hi as int,
            lo as int <= r@.z < hi as int,
            ({
                let s = old(rng).state as int;
                &&& r@ == (V3 {
                    x: draw_v(s, lo as int, hi as int),
                    y: draw_v(next_state(s), lo as int, hi as int),
                    z: draw_v(next_state(next_state(s)), lo as int, hi as int),
                })
                &&& final(rng).state as int == next_state(next_state(next_state(s)))
            }),
    {
        let x = rng.next_range(lo, hi);
        let y = rng.next_range(lo, hi);
        let z = rng.next_range(lo, hi);
        Vec3 { x, y, z }
    }

    /// A vector drawn from the unit sphere's surface, exactly
    /// [`sphere_sample_v`] of the generator state.
    pub fn random_unit_vector(rng: &mut Rng) -> (r: Vec3)
        ensures
            bounded(r@, UNIT_LIMIT as int),
            !near_zero_v(r@),
            ({
                let (v, s1) = sphere_sample_v(old(rng).state as int, SAMPLE_ATTEMPTS as nat);
                r@ == v && final(rng).state as int == s1
            }),
    {
        sphere_sample(rng, SAMPLE_ATTEMPTS)
    }

    /// A vector drawn uniformly from the unit disk in the first two
    /// coordinates, exactly [`disk_sample_v`] of the generator state.
    pub fn random_in_unit_disk(rng: &mut Rng) -> (r: Vec3)
        ensures
            bounded(r@, SCALE as int),
            r@.z == 0,
            norm_sq_v(r@) < SCALE as int,
            ({
                let (v, s1) = disk_sample_v(old(rng).state as int, SAMPLE_ATTEMPTS as nat);
                r@ == v && final(rng).state as int == s1
            }),
    {
        disk_sample(rng, SAMPLE_ATTEMPTS)
    }

    /// A unit vector drawn from the hemisphere around the given normal,
    /// exactly [`hemisphere_sample_v`] of the generator state. The flip
    /// is decided on the exact inner product, so the result's inner
    /// product with the normal is never negative.
    pub fn random_on_hemisphere(normal: &Vec3, rng: &mut Rng) -> (r: Vec3)
        requires
            bounded(normal@, MUL_LIMIT as int),
        ensures
            bounded(r@, UNIT_LIMIT as int),
            !near_zero_v(r@),
            dot_v(r@, normal@) >= 0,
            ({
                let (v, s1) = hemisphere_sample_v(normal@, old(rng).state as int);
                r@ == v && final(rng).state as int == s1
            }),
    {
        let on_unit_sphere = Vec3::random_unit_vector(rng);
        if dot_raw_positive(&on_unit_sphere, normal) {
            proof {
                lemma_div_pos_is_pos(dot_raw(on_unit_sphere@, normal@), SCALE as int);
            }
            on_unit_sphere
        } else {
            proof {
                lemma_flip_makes_dot_nonneg(on_unit_sphere@, normal@);
            }
            on_unit_sphere.neg()
        }
    }
}

/// Flipping a vector whose exact inner product with an axis is not
/// positive leaves a nonnegative inner product.
proof fn lemma_flip_makes_dot_nonneg(u: V3, n: V3)
    requires
        dot_raw(u, n) <= 0,
    ensures
        dot_v(neg_v(u), n) >= 0,
{
    let big_d = dot_raw(u, n);
    assert(dot_raw(neg_v(u), n) == -big_d) by (nonlinear_arith)
        requires
            big_d == u.x * n.x + u.y * n.y + u.z * n.z,
    ;
    lemma_div_pos_is_pos(-big_d, SCALE as int);
}

/// Whether the exact inner product of two vectors, before descaling, is
/// positive.
fn dot_raw_positive(a: &Vec3, b: &Vec3) -> (r: bool)
    requires
        bounded(a@, MUL_LIMIT as int),
        bounded(b@, MUL_LIMIT as int),
    ensures
        r == (dot_raw(a@, b@) > 0),
{
    proof {
        assert(within((a@.x) * (b@.x), (MUL_LIMIT as int) * (MUL_LIMIT as int)) && within(
            (a@.y) * (b@.y),
            (MUL_LIMIT as int) * (MUL_LIMIT as int),
        ) && within((a@.z) * (b@.z), (MUL_LIMIT as int) * (MUL_LIMIT as int)))
            by (nonlinear_arith)
            requires
                bounded(a@, MUL_LIMIT as int),
                bounded(b@, MUL_LIMIT as int),
        ;
    }
    let p: i128 = (a.x as i128) * (b.x as i128) + (a.y as i128) * (b.y as i128) + (a.z as i128)
        * (b.z as i128);
    p > 0
}

/// One attempt round of the unit-sphere sampler, mirroring
/// [`sphere_sample_v`] exactly.
fn sphere_sample(rng: &mut Rng, attempts: u32) -> (r: Vec3)
    ensures
        bounded(r@, UNIT_LIMIT as int),
        !near_zero_v(r@),
        ({
            let (v, s1) = sphere_sample_v(old(rng).state as int, attempts as nat);
            r@ == v && final(rng).state as int == s1
        }),
    decreases attempts,
{
    if attempts == 0 {
        Vec3 { x: SCALE, y: 0, z: 0 }
    } else {
        let p = Vec3::random(rng, -SCALE, SCALE + 1);
        let ls = p.length_squared();
        if 1 <= ls && ls <= SCALE {
            let u = p.unit_vector();
            if !u.near_zero() {
                return u;
            }
        }
        sphere_sample(rng, attempts - 1)
    }
}

/// The origin has squared length zero.
proof fn lemma_origin_norm_sq()
    ensures
        norm_sq_v(V3 { x: 0, y: 0, z: 0 }) == 0,
{
    assert(dot_raw(V3 { x: 0, y: 0, z: 0 }, V3 { x: 0, y: 0, z: 0 }) == 0);
    assert(0int / 65536 == 0);
}

/// One attempt round of the unit-disk sampler, mirroring
/// [`disk_sample_v`] exactly.
fn disk_sample(rng: &mut Rng, attempts: u32) -> (r: Vec3)
    ensures
        bounded(r@, SCALE as int),
        r@.z == 0,
        norm_sq_v(r@) < SCALE as int,
        ({
            let (v, s1) = disk_sample_v(old(rng).state as int, attempts as nat);
            r@ == v && final(rng).state as int == s1
        }),
    decreases attempts,
{
    if attempts == 0 {
        proof {
            lemma_origin_norm_sq();
        }
        Vec3 { x: 0, y: 0, z: 0 }
    } else {
        let x = rng.next_range(-SCALE, SCALE + 1);
        let y = rng.next_range(-SCALE, SCALE + 1);
        let p = Vec3 { x, y, z: 0 };
        let ls = p.length_squared();
        if ls < SCALE {
            return p;
        }
        disk_sample(rng, attempts - 1)
    }
}

/// One component of a cross product: the exact difference of two 128-bit
/// products, descaled once.
fn cross_component(a: i64, b: i64, c: i64, d: i64) -> (r: i64)
    requires
        within(a as int, MUL_LIMIT as int),
        within(b as int, MUL_LIMIT as int),
        within(c as int, MUL_LIMIT as int),
        within(d as int, MUL_LIMIT as int),
    ensures
        r as int == (a * b - c * d) / (SCALE as int),
{
    proof {
        assert(within((a as int) * (b as int), (MUL_LIMIT as int) * (MUL_LIMIT as int)) && within(
            (c as int) * (d as int),
            (MUL_LIMIT as int) * (MUL_LIMIT as int),
        )) by (nonlinear_arith)
            requires
                within(a as int, MUL_LIMIT as int),
                within(b as int, MUL_LIMIT as int),
                within(c as int, MUL_LIMIT as int),
                within(d as int, MUL_LIMIT as int),
        ;
    }
    let p: i128 = (a as i128) * (b as i128) - (c as i128) * (d as i128);
    proof {
        assert(within(p as int, 2 * 0x1000_0000_0000_0000 * (SCALE as int)));
        lemma_div_within(p as int, SCALE as int, 2 * 0x1000_0000_0000_0000 * (SCALE as int));
        lemma_div_by_multiple((2 * 0x1000_0000_0000_0000) as int, SCALE as int);
        lemma_div_within_dividend(p as int, SCALE as int);
    }
    let q: i128 = p.checked_div_euclid(65536).unwrap();
    q as i64
}

} // verus!
