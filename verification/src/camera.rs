//! The camera: viewport construction, per-pixel sample rays, the
//! recursive path-tracing integrator, and the full-image render loop.

use vstd::prelude::*;

verus! {

use crate::fixed::HALF_SCALE;
use crate::fixed::SCALE;
use crate::fixed::clamp;
use crate::fixed::clamp_v;
use crate::fixed::fdiv;
use crate::fixed::fdiv_v;
use crate::fixed::fmul;
use crate::fixed::fmul_v;
use crate::fixed::is_isqrt;
use crate::fixed::lemma_fdiv_unit_within;
use crate::fixed::lemma_fdiv_within;
use crate::fixed::lemma_fmul_within;
use crate::fixed::within;
use crate::color::Color;
use crate::color::lemma_attenuate_unit;
use crate::color::to_rgb;
use crate::hittable::COORD_LIMIT;
use crate::hittable::DIR_LIMIT;
use crate::hittable::list::List;
use crate::hittable::list::list_hit_fold;
use crate::hittable::list::wf_list;
use crate::hittable::sphere::Sphere;
use crate::hittable::sphere::wf_sphere;
use crate::hittable::wf_ray;
use crate::interval::Interval;
use crate::color::rgb_byte_v;
use crate::material::color_ok;
use crate::material::scatter_spec;
use crate::ray::Ray;
use crate::rng::Rng;
use crate::rng::draw_v;
use crate::rng::next_state;
use crate::vec3::MUL_LIMIT;
use crate::vec3::Point3;
use crate::vec3::UNIT_LIMIT;
use crate::vec3::V3;
use crate::vec3::Vec3;
use crate::vec3::add_v;
use crate::vec3::mul_v;
use crate::vec3::bounded;
use crate::vec3::cross_v;
use crate::vec3::dot_raw;
use crate::vec3::dot_v;
use crate::vec3::length_v;
use crate::vec3::lemma_cross_bounded;
use crate::vec3::lemma_dot_within;
use crate::vec3::lemma_not_near_zero;
use crate::vec3::lemma_smul_bounded;
use crate::vec3::near_zero_v;
use crate::vec3::neg_v;
use crate::vec3::norm_sq_v;
use crate::vec3::sdiv_v;
use crate::vec3::smul_v;
use crate::vec3::sub_v;
use crate::vec3::unit_v;
use vstd::arithmetic::div_mod::lemma_div_by_multiple;
use vstd::arithmetic::div_mod::lemma_div_nonincreasing;
use vstd::arithmetic::div_mod::lemma_div_pos_is_pos;

/// Lower end of the valid hit range: suppresses self-intersection at the
/// ray origin (about a thousandth of a unit).
pub const T_MIN_EPS: i64 = 66;

/// Upper end of the valid hit range; stands in for an unbounded reach.
pub const T_FAR: i64 = 0x40_0000_0000;

/// Sky gradient color at the top, red channel.
pub const SKY_RED: i64 = 32768;

/// Sky gradient color at the top, green channel.
pub const SKY_GREEN: i64 = 45875;

/// Sky gradient color at the top, blue channel.
pub const SKY_BLUE: i64 = 65536;

/// The background gradient: a vertical blend from white at the bottom to
/// sky blue at the top, keyed by the normalized direction's height.
pub open spec fn background_v(dir: V3) -> V3 {
    let u = unit_v(dir);
    let a = clamp_v(fmul_v(u.y + SCALE as int, HALF_SCALE as int), 0, SCALE as int);
    add_v(
        smul_v(V3 { x: SCALE as int, y: SCALE as int, z: SCALE as int }, (SCALE as int) - a),
        smul_v(V3 { x: SKY_RED as int, y: SKY_GREEN as int, z: SKY_BLUE as int }, a),
    )
}

/// The background color of a ray that escapes the scene.
pub fn background_color(ray: &Ray) -> (r: Color)
    requires
        wf_ray(*ray),
    ensures
        r@ == background_v(ray.direction@),
        color_ok(r@),
{
    let u = ray.direction().unit_vector();
    let a = clamp(fmul(u.y() + SCALE, HALF_SCALE), 0, SCALE);
    proof {
        let white = V3 { x: SCALE as int, y: SCALE as int, z: SCALE as int };
        let blue = V3 { x: SKY_RED as int, y: SKY_GREEN as int, z: SKY_BLUE as int };
        lemma_smul_bounded(white, (SCALE as int) - a, SCALE as int, SCALE as int, SCALE as int);
        lemma_smul_bounded(blue, a as int, SCALE as int, SCALE as int, SCALE as int);
        lemma_channel_blend((SCALE as int) - a, a as int);
    }
    let white = Vec3::new(SCALE, SCALE, SCALE);
    let blue = Vec3::new(SKY_RED, SKY_GREEN, SKY_BLUE);
    white.scale(SCALE - a).add(&blue.scale(a))
}

/// Blending full intensity by `s` and a channel value by `a`, with
/// `s + a` one, lands in the unit range.
proof fn lemma_channel_blend(s: int, a: int)
    requires
        0 <= s <= SCALE as int,
        0 <= a <= SCALE as int,
        s + a == SCALE as int,
    ensures
        forall|c: int|
            0 <= c <= SCALE as int ==> 0 <= fmul_v(SCALE as int, s) + #[trigger] fmul_v(c, a)
                <= SCALE as int,
{
    lemma_div_by_multiple(s, SCALE as int);
    vstd::arithmetic::mul::lemma_mul_is_commutative(SCALE as int, s);
    assert(fmul_v(SCALE as int, s) == s);
    assert forall|c: int| 0 <= c <= SCALE as int implies 0 <= fmul_v(SCALE as int, s)
        + #[trigger] fmul_v(c, a) <= SCALE as int by {
        lemma_attenuate_unit(a, c);
        vstd::arithmetic::mul::lemma_mul_is_commutative(c, a);
        lemma_attenuate_unit(c, a);
    }
}

/// The jittered ray direction of a pixel sample: from the camera center
/// toward the sample point, with a fallback axis direction when the
/// difference degenerates or leaves the accepted range.
pub open spec fn pixel_ray_dir(
    origin_loc: V3,
    delta_u: V3,
    delta_v: V3,
    center: V3,
    fx: int,
    fy: int,
) -> V3 {
    let sample = add_v(add_v(origin_loc, smul_v(delta_u, fx)), smul_v(delta_v, fy));
    let d = sub_v(sample, center);
    if bounded(d, DIR_LIMIT as int) && !near_zero_v(d) {
        d
    } else {
        V3 { x: 0, y: 0, z: -(SCALE as int) }
    }
}

/// The jittered direction of one pixel sample, exactly: two draws give
/// the in-pixel offset, then [`pixel_ray_dir`] builds the direction;
/// paired with the generator state after the draws.
pub open spec fn get_ray_dir_spec(c: Camera, x: int, y: int, s: int) -> (V3, int) {
    let ox = draw_v(s, -(HALF_SCALE as int), HALF_SCALE as int);
    let s1 = next_state(s);
    let oy = draw_v(s1, -(HALF_SCALE as int), HALF_SCALE as int);
    let s2 = next_state(s1);
    (
        pixel_ray_dir(
            c.pixel_origin_location@,
            c.pixel_delta_u@,
            c.pixel_delta_v@,
            c.center@,
            x * (SCALE as int) + ox,
            y * (SCALE as int) + oy,
        ),
        s2,
    )
}

/// The color a ray gathers, exactly, as a function of the scene, the
/// ray, the recursion budget and the generator state: black once the
/// budget is spent, the background on a miss, and otherwise the
/// nearest hit's scatter outcome — the attenuation times the color
/// gathered beyond the hit, or black on absorption.
pub open spec fn ray_color_spec(objects: Seq<Sphere>, origin: V3, dir: V3, depth: nat, s: int) -> (
    V3,
    int,
)
    decreases depth,
{
    if depth == 0 {
        (V3 { x: 0, y: 0, z: 0 }, s)
    } else {
        match crate::hittable::list::list_hit_fold(
            objects,
            origin,
            dir,
            T_MIN_EPS as int,
            T_FAR as int,
        ) {
            None => (background_v(dir), s),
            Some((i, t, p, out)) => {
                let normal = if dot_v(dir, out) < 0 {
                    out
                } else {
                    neg_v(out)
                };
                let front_face = dot_v(dir, out) < 0;
                match scatter_spec(objects[i].material, dir, normal, front_face, s) {
                    (None, s1) => (V3 { x: 0, y: 0, z: 0 }, s1),
                    (Some((d, att)), s1) => {
                        let (c, s2) = ray_color_spec(objects, p, d, (depth - 1) as nat, s1);
                        (mul_v(att, c), s2)
                    },
                }
            },
        }
    }
}

/// The sum of one pixel's first `k` integrator samples, with the state
/// after them.
pub open spec fn pixel_sum_spec(c: Camera, objects: Seq<Sphere>, x: int, y: int, k: nat, s: int) -> (
    V3,
    int,
)
    decreases k,
{
    if k == 0 {
        (V3 { x: 0, y: 0, z: 0 }, s)
    } else {
        let (acc, s1) = pixel_sum_spec(c, objects, x, y, (k - 1) as nat, s);
        let (d, s2) = get_ray_dir_spec(c, x, y, s1);
        let (col, s3) = ray_color_spec(objects, c.center@, d, c.max_depth as nat, s2);
        (add_v(acc, col), s3)
    }
}

/// The display bytes of one pixel: the average of its samples, each
/// channel gamma-mapped once at the write boundary. Opaque: callers go
/// through [`Camera::render_pixel`]'s contract and [`lemma_render_step`]
/// rather than the definition.
#[verifier::opaque]
pub open spec fn pixel_bytes_spec(c: Camera, objects: Seq<Sphere>, x: int, y: int, s: int) -> (
    (int, int, int),
    int,
) {
    let (sum, s1) = pixel_sum_spec(c, objects, x, y, c.samples_per_pixel as nat, s);
    (
        (
            rgb_byte_v(sum.x / (c.samples_per_pixel as int)),
            rgb_byte_v(sum.y / (c.samples_per_pixel as int)),
            rgb_byte_v(sum.z / (c.samples_per_pixel as int)),
        ),
        s1,
    )
}

/// The raster of the first `n` pixels in row-major order, with the
/// state after them: three bytes per pixel, each pixel exactly
/// [`pixel_bytes_spec`]. Opaque: the render loop walks it one pixel at
/// a time through [`lemma_render_step`].
#[verifier::opaque]
pub open spec fn render_spec(c: Camera, objects: Seq<Sphere>, n: nat, s: int) -> (Seq<u8>, int)
    decreases n,
{
    if n == 0 {
        (Seq::empty(), s)
    } else {
        let (prefix, s1) = render_spec(c, objects, (n - 1) as nat, s);
        let x = (n - 1) as int % (c.image_width as int);
        let y = (n - 1) as int / (c.image_width as int);
        let (bytes, s2) = pixel_bytes_spec(c, objects, x, y, s1);
        (prefix.push(bytes.0 as u8).push(bytes.1 as u8).push(bytes.2 as u8), s2)
    }
}

/// The raster of `n` pixels holds three bytes per pixel.
pub proof fn lemma_render_spec_len(c: Camera, objects: Seq<Sphere>, n: nat, s: int)
    ensures
        render_spec(c, objects, n, s).0.len() == 3 * n,
    decreases n,
{
    reveal(render_spec);
    if n > 0 {
        lemma_render_spec_len(c, objects, (n - 1) as nat, s);
    }
}

/// A row-major pixel index splits into a column before the width and a
/// row before the height.
pub proof fn lemma_pixel_index_in_range(n: int, w: int, h: int)
    requires
        0 <= n < w * h,
        w >= 1,
    ensures
        0 <= n % w < w,
        0 <= n / w < h,
{
    vstd::arithmetic::div_mod::lemma_fundamental_div_mod(n, w);
    vstd::arithmetic::div_mod::lemma_div_pos_is_pos(n, w);
    assert(n / w < h) by (nonlinear_arith)
        requires
            n == w * (n / w) + n % w,
            0 <= n % w,
            n < w * h,
            w >= 1,
    ;
}

/// One unfolding step of [`render_spec`]: the raster of `n + 1` pixels
/// extends the raster of `n` pixels by the bytes of pixel `n`.
pub proof fn lemma_render_step(c: Camera, objects: Seq<Sphere>, n: nat, s0: int)
    ensures
        ({
            let (prefix, s1) = render_spec(c, objects, n, s0);
            let x = n as int % (c.image_width as int);
            let y = n as int / (c.image_width as int);
            let (bytes, s2) = pixel_bytes_spec(c, objects, x, y, s1);
            render_spec(c, objects, (n + 1) as nat, s0) == (
                prefix.push(bytes.0 as u8).push(bytes.1 as u8).push(bytes.2 as u8),
                s2,
            )
        }),
{
    reveal(render_spec);
}

/// Configuration and derived viewport state of the camera. Immutable
/// once constructed; rendering only reads it.
pub struct Camera {
    /// Rendered image width in pixel count.
    pub image_width: u32,
    /// Rendered image height.
    pub image_height: u32,
    /// Camera center.
    pub center: Point3,
    /// Location of the sample center of the first pixel.
    pub pixel_origin_location: Point3,
    /// Offset to the pixel to the right.
    pub pixel_delta_u: Vec3,
    /// Offset to the pixel below.
    pub pixel_delta_v: Vec3,
    /// Count of random samples for each pixel.
    pub samples_per_pixel: u8,
    /// Maximum number of ray bounces into the scene.
    pub max_depth: u8,
    /// Point the camera is looking from.
    pub look_from: Point3,
    /// Point the camera is looking at.
    pub look_at: Point3,
    /// Camera-relative up direction.
    pub relative_up: Vec3,
    /// Camera frame basis vector pointing right.
    pub u: Vec3,
    /// Camera frame basis vector pointing up.
    pub v: Vec3,
    /// Camera frame basis vector pointing backward.
    pub w: Vec3,
}

/// What rendering relies on: pixel counts in range and every derived
/// vector within the bounds the ray arithmetic accepts.
pub open spec fn wf_camera(c: Camera) -> bool {
    &&& 1 <= c.image_width <= 16384
    &&& 1 <= c.image_height <= 65536
    &&& c.samples_per_pixel >= 1
    &&& bounded(c.center@, COORD_LIMIT as int)
    &&& bounded(c.pixel_origin_location@, 0x80_0000_0000)
    &&& bounded(c.pixel_delta_u@, MUL_LIMIT as int)
    &&& bounded(c.pixel_delta_v@, MUL_LIMIT as int)
}

/// The state a camera derives at construction: image height, the basis
/// vectors, the per-pixel deltas and the location of the first pixel's
/// sample center, each as an exact formula of the configuration.
pub open spec fn camera_derived(aspect: int, width: int, tan: int, from: V3, at: V3, up: V3) -> (
    int,
    V3,
    V3,
    V3,
    V3,
    V3,
    V3,
) {
    let height = clamp_v((width * (SCALE as int)) / aspect, 1, 65536);
    let gaze = sub_v(from, at);
    let w_axis = unit_v(gaze);
    let focal = length_v(gaze);
    let cross_uw = cross_v(up, w_axis);
    let u_axis = if near_zero_v(cross_uw) {
        V3 { x: SCALE as int, y: 0, z: 0 }
    } else {
        unit_v(cross_uw)
    };
    let v_axis = cross_v(w_axis, u_axis);
    let vh = 2 * fmul_v(tan, focal);
    let ratio = clamp_v(fdiv_v(width, height), 1, 16 * (SCALE as int));
    let vw = fmul_v(vh, ratio);
    let viewport_u = smul_v(u_axis, vw);
    let viewport_v = smul_v(neg_v(v_axis), vh);
    let delta_u = sdiv_v(viewport_u, width * (SCALE as int));
    let delta_v = sdiv_v(viewport_v, height * (SCALE as int));
    let upper_left = sub_v(
        sub_v(sub_v(from, smul_v(w_axis, focal)), smul_v(viewport_u, HALF_SCALE as int)),
        smul_v(viewport_v, HALF_SCALE as int),
    );
    let origin_loc = add_v(upper_left, smul_v(add_v(delta_u, delta_v), HALF_SCALE as int));
    (height, w_axis, u_axis, v_axis, delta_u, delta_v, origin_loc)
}

impl Default for Camera {
    /// A square, low-resolution camera at the origin looking along the
    /// negative third axis, with a ninety-degree field of view.
    fn default() -> (r: Camera)
        ensures
            wf_camera(r),
            r.image_width == 100,
            r.samples_per_pixel == 10,
            r.max_depth == 10,
            r.center@ == (V3 { x: 0, y: 0, z: 0 }),
            r.look_from@ == (V3 { x: 0, y: 0, z: 0 }),
            r.look_at@ == (V3 { x: 0, y: 0, z: -(SCALE as int) }),
            r.relative_up@ == (V3 { x: 0, y: SCALE as int, z: 0 }),
            ({
                let (height, w_axis, u_axis, v_axis, delta_u, delta_v, origin_loc) =
                    camera_derived(
                    SCALE as int,
                    100,
                    SCALE as int,
                    V3 { x: 0, y: 0, z: 0 },
                    V3 { x: 0, y: 0, z: -(SCALE as int) },
                    V3 { x: 0, y: SCALE as int, z: 0 },
                );
                &&& r.image_height == height
                &&& r.w@ == w_axis
                &&& r.u@ == u_axis
                &&& r.v@ == v_axis
                &&& r.pixel_delta_u@ == delta_u
                &&& r.pixel_delta_v@ == delta_v
                &&& r.pixel_origin_location@ == origin_loc
            }),
    {
        proof {
            let g = V3 { x: 0, y: 0, z: SCALE as int };
            assert(sub_v(V3 { x: 0, y: 0, z: 0 }, V3 { x: 0, y: 0, z: -(SCALE as int) }) == g);
            assert(dot_raw(g, g) == (SCALE as int) * (SCALE as int));
            lemma_div_by_multiple(SCALE as int, SCALE as int);
            assert(norm_sq_v(g) == SCALE as int);
        }
        Camera::new(
            SCALE,
            100,
            10,
            10,
            SCALE,
            Vec3::new(0, 0, 0),
            Vec3::new(0, 0, -SCALE),
            Vec3::new(0, SCALE, 0),
        )
    }
}

impl Camera {
    /// Derives the viewport from the configuration: image height from
    /// the aspect ratio, the orthonormal frame from the view direction
    /// and up vector, viewport extents from the field of view's tangent
    /// and the focal distance, and from them the per-pixel deltas and
    /// the first pixel's sample center — each exactly as
    /// [`camera_derived`] states.
    ///
    /// The numeric preconditions are overflow budgets of the
    /// representation, not features of the model: the aspect ratio in
    /// [1/4, 4] and width up to 16384 bound the image height and the
    /// viewport ratio; the tangent up to 16 and look points within 64
    /// units bound the focal length and viewport extents so every
    /// derived vector stays within the ranges the ray arithmetic
    /// accepts; and a gaze of at least one unit of squared length is
    /// where normalization is accurate, so the derived frame is unit
    /// length up to rounding.
    pub fn new(
        aspect_ratio: i64,
        image_width: u32,
        samples_per_pixel: u8,
        max_depth: u8,
        half_fov_tan: i64,
        look_from: Point3,
        look_at: Point3,
        relative_up: Vec3,
    ) -> (r: Camera)
        requires
            16384 <= aspect_ratio <= 4 * (SCALE as int),
            1 <= image_width <= 16384,
            samples_per_pixel >= 1,
            1 <= half_fov_tan <= 16 * (SCALE as int),
            bounded(look_from@, 0x40_0000),
            bounded(look_at@, 0x40_0000),
            bounded(relative_up@, 0x40_0000),
            norm_sq_v(sub_v(look_from@, look_at@)) >= SCALE as int,
        ensures
            wf_camera(r),
            r.image_width == image_width,
            r.samples_per_pixel == samples_per_pixel,
            r.max_depth == max_depth,
            r.center == look_from,
            r.look_from == look_from,
            r.look_at == look_at,
            r.relative_up == relative_up,
            ({
                let (height, w_axis, u_axis, v_axis, delta_u, delta_v, origin_loc) =
                    camera_derived(
                    aspect_ratio as int,
                    image_width as int,
                    half_fov_tan as int,
                    look_from@,
                    look_at@,
                    relative_up@,
                );
                &&& r.image_height == height
                &&& r.w@ == w_axis
                &&& r.u@ == u_axis
                &&& r.v@ == v_axis
                &&& r.pixel_delta_u@ == delta_u
                &&& r.pixel_delta_v@ == delta_v
                &&& r.pixel_origin_location@ == origin_loc
            }),
    {
        let height_raw: u64 = ((image_width as u64) * 65536) / (aspect_ratio as u64);
        proof {
            lemma_div_pos_is_pos((image_width as int) * 65536, aspect_ratio as int);
            lemma_div_nonincreasing((image_width as int) * 65536, aspect_ratio as int);
        }
        let image_height_i = clamp(height_raw as i64, 1, 65536);
        let image_height: u32 = image_height_i as u32;

        let center = look_from;
        let gaze = look_from.sub(&look_at);
        proof {
            assert(3 * 0x80_0000 * 0x80_0000 <= (0xC000_0000 as int) * (SCALE as int))
                by (nonlinear_arith);
            lemma_dot_within(gaze@, gaze@, 0x80_0000, 0x80_0000, 0xC000_0000);
        }
        let focal_length = gaze.length();
        let w = gaze.unit_vector();
        proof {
            crate::fixed::lemma_sqrt_v_is_isqrt(norm_sq_v(gaze@) * (SCALE as int));
            assert(focal_length as int <= 0x100_0000) by (nonlinear_arith)
                requires
                    0 <= focal_length as int,
                    is_isqrt(norm_sq_v(gaze@) * (SCALE as int), focal_length as int),
                    norm_sq_v(gaze@) <= 0xC000_0001,
            ;
        }

        let cross_uw = relative_up.cross(&w);
        proof {
            assert(2 * 0x40_0000 * ((UNIT_LIMIT + 1) as int) <= (0x200_0000 as int) * (
            SCALE as int)) by (nonlinear_arith);
            lemma_cross_bounded(
                relative_up@,
                w@,
                0x40_0000,
                (UNIT_LIMIT + 1) as int,
                0x200_0000,
            );
        }
        let u = if cross_uw.near_zero() {
            Vec3::new(SCALE, 0, 0)
        } else {
            proof {
                lemma_not_near_zero(cross_uw@);
            }
            cross_uw.unit_vector()
        };
        let v = w.cross(&u);
        proof {
            assert(2 * ((UNIT_LIMIT + 1) as int) * ((UNIT_LIMIT + 1) as int) <= (19 * SCALE)
                * (SCALE as int)) by (nonlinear_arith);
            lemma_cross_bounded(
                w@,
                u@,
                (UNIT_LIMIT + 1) as int,
                (UNIT_LIMIT + 1) as int,
                (19 * SCALE) as int,
            );
        }

        proof {
            assert((16 * SCALE) as int * 0x100_0000 <= (0x1000_0000 as int) * (SCALE as int))
                by (nonlinear_arith);
            lemma_fmul_within(
                half_fov_tan as int,
                focal_length as int,
                (16 * SCALE) as int,
                0x100_0000,
                0x1000_0000,
            );
        }
        let viewport_height = 2 * fmul(half_fov_tan, focal_length);
        let ratio = clamp(fdiv(image_width as i64, image_height_i), 1, 16 * SCALE);
        proof {
            lemma_fdiv_within(image_width as int, image_height_i as int, 16384);
            assert((0x2000_0002 as int) * (16 * SCALE + 1) <= (0x2_0001_0000 as int) * (
            SCALE as int)) by (nonlinear_arith);
            lemma_fmul_within(
                viewport_height as int,
                ratio as int,
                0x2000_0002,
                (16 * SCALE + 1) as int,
                0x2_0001_0000,
            );
        }
        let viewport_width = fmul(viewport_height, ratio);
        proof {
            assert(((UNIT_LIMIT + 1) as int) * (0x2_0001_0001 as int) <= (0x8_0000_0000 as int) * (
            SCALE as int)) by (nonlinear_arith);
            lemma_smul_bounded(
                u@,
                viewport_width as int,
                (UNIT_LIMIT + 1) as int,
                0x2_0001_0001,
                0x8_0000_0000,
            );
            assert(((19 * SCALE + 1) as int) * (0x2000_0002 as int) <= (0x4_0000_0000 as int) * (
            SCALE as int)) by (nonlinear_arith);
            lemma_smul_bounded(
                neg_v(v@),
                viewport_height as int,
                (19 * SCALE + 1) as int,
                0x2000_0002,
                0x4_0000_0000,
            );
        }
        let viewport_u = u.scale(viewport_width);
        let viewport_v = v.neg().scale(viewport_height);

        let width_fx = (image_width as i64) * SCALE;
        let height_fx = image_height_i * SCALE;
        proof {
            lemma_fdiv_unit_within(viewport_u@.x, width_fx as int, 0x8_0000_0001);
            lemma_fdiv_unit_within(viewport_u@.y, width_fx as int, 0x8_0000_0001);
            lemma_fdiv_unit_within(viewport_u@.z, width_fx as int, 0x8_0000_0001);
            lemma_fdiv_unit_within(viewport_v@.x, height_fx as int, 0x4_0000_0001);
            lemma_fdiv_unit_within(viewport_v@.y, height_fx as int, 0x4_0000_0001);
            lemma_fdiv_unit_within(viewport_v@.z, height_fx as int, 0x4_0000_0001);
        }
        let pixel_delta_u = viewport_u.div(width_fx);
        let pixel_delta_v = viewport_v.div(height_fx);

        proof {
            assert(((UNIT_LIMIT + 1) as int) * 0x100_0000 <= (0x4_0000_0000 as int) * (SCALE as int))
                by (nonlinear_arith);
            lemma_smul_bounded(
                w@,
                focal_length as int,
                (UNIT_LIMIT + 1) as int,
                0x100_0000,
                0x4_0000_0000,
            );
            assert((0x8_0000_0001 as int) * (HALF_SCALE as int) <= (0x4_0000_0001 as int) * (
            SCALE as int)) by (nonlinear_arith);
            lemma_smul_bounded(
                viewport_u@,
                HALF_SCALE as int,
                0x8_0000_0001,
                HALF_SCALE as int,
                0x4_0000_0001,
            );
            assert((0x4_0000_0001 as int) * (HALF_SCALE as int) <= (0x2_0000_0001 as int) * (
            SCALE as int)) by (nonlinear_arith);
            lemma_smul_bounded(
                viewport_v@,
                HALF_SCALE as int,
                0x4_0000_0001,
                HALF_SCALE as int,
                0x2_0000_0001,
            );
        }
        let viewport_upper_left = center.sub(&w.scale(focal_length)).sub(
            &viewport_u.scale(HALF_SCALE),
        ).sub(&viewport_v.scale(HALF_SCALE));
        proof {
            assert(((0xC_0000_0004 as int)) * (HALF_SCALE as int) <= (0x6_0000_0002 as int) * (
            SCALE as int)) by (nonlinear_arith);
            lemma_smul_bounded(
                add_v(pixel_delta_u@, pixel_delta_v@),
                HALF_SCALE as int,
                0xC_0000_0004,
                HALF_SCALE as int,
                0x6_0000_0002,
            );
        }
        let pixel_origin_location = viewport_upper_left.add(
            &pixel_delta_u.add(&pixel_delta_v).scale(HALF_SCALE),
        );

        Camera {
            image_width,
            image_height,
            center,
            pixel_origin_location,
            pixel_delta_u,
            pixel_delta_v,
            samples_per_pixel,
            max_depth,
            look_from,
            look_at,
            relative_up,
            u,
            v,
            w,
        }
    }

    /// A square jitter: an offset within half a pixel on each axis.
    fn sample_square(rng: &mut Rng) -> (r: Vec3)
        ensures
            -(HALF_SCALE as int) <= r@.x < HALF_SCALE as int,
            -(HALF_SCALE as int) <= r@.y < HALF_SCALE as int,
            r@.z == 0,
            ({
                let s = old(rng).state as int;
                &&& r@.x == draw_v(s, -(HALF_SCALE as int), HALF_SCALE as int)
                &&& r@.y == draw_v(next_state(s), -(HALF_SCALE as int), HALF_SCALE as int)
                &&& final(rng).state as int == next_state(next_state(s))
            }),
    {
        let x = rng.next_range(-HALF_SCALE, HALF_SCALE);
        let y = rng.next_range(-HALF_SCALE, HALF_SCALE);
        Vec3::new(x, y, 0)
    }

    /// A camera ray for pixel `(x, y)`: from the center toward a point
    /// jittered within the pixel's square, for antialiasing; exactly
    /// [`get_ray_dir_spec`] of the generator state.
    pub fn get_ray(&self, x: u32, y: u32, rng: &mut Rng) -> (r: Ray)
        requires
            wf_camera(*self),
            x < self.image_width,
            y < self.image_height,
        ensures
            wf_ray(r),
            r.origin == self.center,
            ({
                let (d, s2) = get_ray_dir_spec(*self, x as int, y as int, old(rng).state as int);
                r.direction@ == d && final(rng).state as int == s2
            }),
    {
        let offset = Self::sample_square(rng);
        let fx: i64 = (x as i64) * SCALE + offset.x();
        let fy: i64 = (y as i64) * SCALE + offset.y();
        proof {
            assert((MUL_LIMIT as int) * (0x2_0000_0000 as int) <= (0x80_0000_0000_0000 as int) * (
            SCALE as int)) by (nonlinear_arith);
            lemma_smul_bounded(
                self.pixel_delta_u@,
                fx as int,
                MUL_LIMIT as int,
                0x2_0000_0000,
                0x80_0000_0000_0000,
            );
            lemma_smul_bounded(
                self.pixel_delta_v@,
                fy as int,
                MUL_LIMIT as int,
                0x2_0000_0000,
                0x80_0000_0000_0000,
            );
        }
        let su = self.pixel_delta_u.scale(fx);
        let sv = self.pixel_delta_v.scale(fy);
        let pixel_sample = self.pixel_origin_location.add(&su).add(&sv);
        let candidate = pixel_sample.sub(&self.center);
        let direction = if in_dir_range(&candidate) && !candidate.near_zero() {
            candidate
        } else {
            Vec3::new(0, 0, -SCALE)
        };
        proof {
            lemma_not_near_zero(direction@);
            assert(direction@ == pixel_ray_dir(
                self.pixel_origin_location@,
                self.pixel_delta_u@,
                self.pixel_delta_v@,
                self.center@,
                (x as int) * (SCALE as int) + offset@.x,
                (y as int) * (SCALE as int) + offset@.y,
            ));
        }
        Ray::new(self.center, direction)
    }

    /// The color a ray gathers from the scene: black once the recursion
    /// budget is spent; otherwise the nearest hit's material scatters the
    /// ray and tints the color gathered beyond it, absorption yields
    /// black, and a miss yields the background gradient.
    pub fn ray_color(ray: &Ray, world: &List, depth: u8, rng: &mut Rng) -> (r: Color)
        requires
            wf_ray(*ray),
            wf_list(*world),
        ensures
            color_ok(r@),
            depth == 0 ==> r@ == (V3 { x: 0, y: 0, z: 0 }),
            depth > 0 && list_hit_fold(
                world.objects@,
                ray.origin@,
                ray.direction@,
                T_MIN_EPS as int,
                T_FAR as int,
            ) is None ==> r@ == background_v(ray.direction@),
            ({
                let (c, s1) = ray_color_spec(
                    world.objects@,
                    ray.origin@,
                    ray.direction@,
                    depth as nat,
                    old(rng).state as int,
                );
                r@ == c && final(rng).state as int == s1
            }),
        decreases depth,
    {
        if depth == 0 {
            return Vec3::new(0, 0, 0);
        }
        let hit = world.hit(ray, Interval::new(T_MIN_EPS, T_FAR));
        match hit {
            Some(record) => {
                proof {
                    match list_hit_fold(
                        world.objects@,
                        ray.origin@,
                        ray.direction@,
                        T_MIN_EPS as int,
                        T_FAR as int,
                    ) {
                        Some((i, t, p, out)) => {
                            assert(wf_sphere(world.objects@[i]));
                        },
                        None => {
                            assert(false);
                        },
                    }
                }
                match record.material().scatter(ray, &record, rng) {
                    Some((scattered, attenuation)) => {
                        let color = Self::ray_color(&scattered, world, depth - 1, rng);
                        proof {
                            lemma_attenuate_unit(attenuation@.x, color@.x);
                            lemma_attenuate_unit(attenuation@.y, color@.y);
                            lemma_attenuate_unit(attenuation@.z, color@.z);
                        }
                        attenuation.mul(&color)
                    },
                    None => Vec3::new(0, 0, 0),
                }
            },
            None => background_color(ray),
        }
    }

    /// One pixel's display bytes: the average of `samples_per_pixel`
    /// integrator samples, gamma-mapped — exactly [`pixel_bytes_spec`]
    /// of the generator state.
    fn render_pixel(&self, world: &List, x: u32, y: u32, rng: &mut Rng) -> (r: (u8, u8, u8))
        requires
            wf_camera(*self),
            wf_list(*world),
            x < self.image_width,
            y < self.image_height,
        ensures
            ({
                let (bytes, s1) = pixel_bytes_spec(
                    *self,
                    world.objects@,
                    x as int,
                    y as int,
                    old(rng).state as int,
                );
                &&& r.0 as int == bytes.0
                &&& r.1 as int == bytes.1
                &&& r.2 as int == bytes.2
                &&& final(rng).state as int == s1
            }),
    {
        let ghost s_pix = rng.state as int;
        let samples = self.samples_per_pixel;
        let mut sum = Vec3::new(0, 0, 0);
        for s in 0..samples
            invariant
                wf_camera(*self),
                wf_list(*world),
                x < self.image_width,
                y < self.image_height,
                samples == self.samples_per_pixel,
                s_pix == old(rng).state as int,
                0 <= sum@.x <= (s as int) * (SCALE as int),
                0 <= sum@.y <= (s as int) * (SCALE as int),
                0 <= sum@.z <= (s as int) * (SCALE as int),
                ({
                    let (acc, s1) = pixel_sum_spec(
                        *self,
                        world.objects@,
                        x as int,
                        y as int,
                        s as nat,
                        s_pix,
                    );
                    sum@ == acc && rng.state as int == s1
                }),
        {
            let ray = self.get_ray(x, y, rng);
            let color = Self::ray_color(&ray, world, self.max_depth, rng);
            sum = sum.add(&color);
        }
        let average = scale_to_average(&sum, samples);
        proof {
            reveal(pixel_bytes_spec);
        }
        to_rgb(&average)
    }

    /// Renders the scene into a row-major byte raster, three bytes per
    /// pixel: every pixel averages `samples_per_pixel` integrator
    /// samples and maps the result to display bytes — exactly
    /// [`render_spec`] of the camera, the scene and the generator
    /// state. Two renders from equal configurations and seeds are
    /// therefore equal, bit for bit.
    pub fn render(&self, world: &List, rng: &mut Rng) -> (r: Vec<u8>)
        requires
            wf_camera(*self),
            wf_list(*world),
        ensures
            r@.len() == 3 * (self.image_width as int) * (self.image_height as int),
            ({
                let total = ((self.image_width as int) * (self.image_height as int)) as nat;
                let (bytes, s1) = render_spec(*self, world.objects@, total, old(rng).state as int);
                r@ == bytes && final(rng).state as int == s1
            }),
    {
        let ghost s0 = rng.state as int;
        let width = self.image_width;
        let height = self.image_height;
        proof {
            reveal(render_spec);
            assert((width as int) * (height as int) <= 0x4000_0000) by (nonlinear_arith)
                requires
                    width <= 16384,
                    height <= 65536,
            ;
        }
        let total: u32 = width * height;
        let mut buf: Vec<u8> = Vec::new();
        let mut n: u32 = 0;
        while n < total
            invariant
                wf_camera(*self),
                wf_list(*world),
                width == self.image_width,
                height == self.image_height,
                total as int == (width as int) * (height as int),
                n <= total,
                s0 == old(rng).state as int,
                ({
                    let (bytes, s1) = render_spec(*self, world.objects@, n as nat, s0);
                    buf@ == bytes && rng.state as int == s1
                }),
            decreases total - n,
        {
            proof {
                lemma_pixel_index_in_range(n as int, width as int, height as int);
                lemma_render_step(*self, world.objects@, n as nat, s0);
            }
            let x = n % width;
            let y = n / width;
            let (red, green, blue) = self.render_pixel(world, x, y, rng);
            buf.push(red);
            buf.push(green);
            buf.push(blue);
            n = n + 1;
        }
        proof {
            lemma_render_spec_len(
                *self,
                world.objects@,
                ((self.image_width as int) * (self.image_height as int)) as nat,
                s0,
            );
            assert(3 * (width as int) * (height as int) == 3 * ((width as int) * (height as int)))
                by (nonlinear_arith);
        }
        buf
    }
}

/// Whether every component of a direction lies in the accepted range.
fn in_dir_range(p: &Vec3) -> (r: bool)
    ensures
        r == bounded(p@, DIR_LIMIT as int),
{
    -DIR_LIMIT <= p.x && p.x <= DIR_LIMIT && -DIR_LIMIT <= p.y && p.y <= DIR_LIMIT && -DIR_LIMIT
        <= p.z && p.z <= DIR_LIMIT
}

/// The average of a nonnegative sample sum over the sample count.
fn scale_to_average(sum: &Vec3, samples: u8) -> (r: Vec3)
    requires
        samples >= 1,
        0 <= sum@.x,
        0 <= sum@.y,
        0 <= sum@.z,
    ensures
        r@ == (V3 {
            x: sum@.x / (samples as int),
            y: sum@.y / (samples as int),
            z: sum@.z / (samples as int),
        }),
{
    proof {
        lemma_div_pos_is_pos(sum@.x, samples as int);
        lemma_div_nonincreasing(sum@.x, samples as int);
        lemma_div_pos_is_pos(sum@.y, samples as int);
        lemma_div_nonincreasing(sum@.y, samples as int);
        lemma_div_pos_is_pos(sum@.z, samples as int);
        lemma_div_nonincreasing(sum@.z, samples as int);
    }
    let rx = ((sum.x as u64) / (samples as u64)) as i64;
    let ry = ((sum.y as u64) / (samples as u64)) as i64;
    let rz = ((sum.z as u64) / (samples as u64)) as i64;
    Vec3::new(rx, ry, rz)
}

} // verus!
