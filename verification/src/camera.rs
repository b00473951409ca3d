//! The camera: derives view geometry from its configuration, generates
//! jittered primary rays through pixels, follows their bounces through the
//! scene, and accumulates pixel colours.

use vstd::prelude::*;

use crate::colour::{colour01, encode_colour, encode_colour_s, Colour, Rgb};
use crate::fixed::{
    abs_i, fx_mul, fx_mul_s, lemma_fx_mul_bound, lemma_fx_mul_one, lemma_mul_abs_le,
    lemma_tdiv_cancel, lemma_tdiv_facts, lemma_tdiv_mono, lemma_unit_interval_mul, tdiv, FX_INF,
    FX_LIM, FX_ONE,
};
use crate::hittable::sphere::Sphere;
use crate::hittable::{list_hit_s, Hittable, HittableList};
use crate::material::scatter_outcome_s;
use crate::interval::{clamp_s, Interval};
use crate::ray::{ray_wf, Ray, GEOM_LIM};
use crate::rng::RandomSource;
use crate::vec3::{
    addv, cross_s, div_countv, dot_s, len_sq_s, lemma_len_sq_nonneg, mulv, negv,
    random_in_unit_disk, scalev, subv, unitv, v3, vb, Point3, Vec3, VEC_LIM,
};

verus! {

/// Lower end of the hit interval while shading: about one thousandth of a
/// unit, excluding immediate self-intersection with the originating surface.
pub const SHADOW_ACNE_MIN: i128 = 66;

pub struct Camera {
    /// Ratio of image width over height, in fixed point.
    pub aspect_ratio: i128,
    /// Rendered image width in pixels.
    pub image_width: usize,
    /// Random samples gathered per pixel.
    pub samples_per_pixel: usize,
    /// Bounce budget per primary ray.
    pub max_depth: u32,
    /// Tangent of half the vertical field of view, in fixed point.
    pub tan_half_vfov: i128,
    /// Point the camera looks from.
    pub lookfrom: Point3,
    /// Point the camera looks at.
    pub lookat: Point3,
    /// The camera's up direction.
    pub vup: Vec3,
    /// Tangent of half the defocus cone angle; zero disables depth of field.
    pub tan_half_defocus: i128,
    /// Distance from the camera to the plane of perfect focus.
    pub focus_dist: i128,
    /// Derived per-render state, recomputed from the configuration when a
    /// render starts and meaningless before that.
    pub image_height: usize,
    pub centre: Point3,
    pub pixel00_loc: Point3,
    pub pixel_delta_u: Vec3,
    pub pixel_delta_v: Vec3,
    pub basis_u: Vec3,
    pub basis_v: Vec3,
    pub basis_w: Vec3,
    pub defocus_disk_u: Vec3,
    pub defocus_disk_v: Vec3,
}

/// Configuration the renderer accepts: everything bounded so that the whole
/// fixed-point pipeline stays in range, a view direction of sensible length,
/// and an up vector not parallel to it.
pub open spec fn config_wf(c: Camera) -> bool {
    8192 <= c.aspect_ratio <= 524288 && 1 <= c.image_width <= 4096 && 1 <= c.samples_per_pixel
        <= 1024 && c.max_depth <= 256 && 1 <= c.tan_half_vfov <= 131072 && vb(c.lookfrom, 16777216)
        && vb(c.lookat, 16777216) && vb(c.vup, 16777216) && 1 <= c.focus_dist <= 16777216 && 0
        <= c.tan_half_defocus <= 16384 && len_sq_s(subv(c.lookfrom, c.lookat)) >= 1 && len_sq_s(
        cross_s(c.vup, unitv(subv(c.lookfrom, c.lookat))),
    ) >= 1
}

/// The derived image height: width over aspect ratio, at least one pixel.
#[verifier::opaque]
pub open spec fn camera_height_s(c: Camera) -> int {
    let h = tdiv(c.image_width * (FX_ONE as int), c.aspect_ratio as int);
    if h < 1 {
        1
    } else {
        h
    }
}

#[verifier::opaque]
pub open spec fn camera_w_s(c: Camera) -> Vec3 {
    unitv(subv(c.lookfrom, c.lookat))
}

#[verifier::opaque]
pub open spec fn camera_u_s(c: Camera) -> Vec3 {
    unitv(cross_s(c.vup, camera_w_s(c)))
}

#[verifier::opaque]
pub open spec fn camera_v_s(c: Camera) -> Vec3 {
    cross_s(camera_w_s(c), camera_u_s(c))
}

#[verifier::opaque]
pub open spec fn camera_viewport_height_s(c: Camera) -> int {
    2 * fx_mul_s(c.tan_half_vfov as int, c.focus_dist as int)
}

#[verifier::opaque]
pub open spec fn camera_viewport_width_s(c: Camera) -> int {
    fx_mul_s(
        camera_viewport_height_s(c),
        crate::fixed::fx_div_s(c.image_width * (FX_ONE as int), camera_height_s(c) * (
        FX_ONE as int)),
    )
}

#[verifier::opaque]
pub open spec fn camera_viewport_u_s(c: Camera) -> Vec3 {
    scalev(camera_u_s(c), camera_viewport_width_s(c))
}

#[verifier::opaque]
pub open spec fn camera_viewport_v_s(c: Camera) -> Vec3 {
    scalev(negv(camera_v_s(c)), camera_viewport_height_s(c))
}

#[verifier::opaque]
pub open spec fn camera_pdu_s(c: Camera) -> Vec3 {
    div_countv(camera_viewport_u_s(c), c.image_width as int)
}

#[verifier::opaque]
pub open spec fn camera_pdv_s(c: Camera) -> Vec3 {
    div_countv(camera_viewport_v_s(c), camera_height_s(c))
}

#[verifier::opaque]
pub open spec fn camera_pixel00_s(c: Camera) -> Vec3 {
    let upper_left = subv(
        subv(
            subv(c.lookfrom, scalev(camera_w_s(c), c.focus_dist as int)),
            div_countv(camera_viewport_u_s(c), 2),
        ),
        div_countv(camera_viewport_v_s(c), 2),
    );
    addv(upper_left, div_countv(addv(camera_pdu_s(c), camera_pdv_s(c)), 2))
}

#[verifier::opaque]
pub open spec fn camera_defocus_radius_s(c: Camera) -> int {
    fx_mul_s(c.focus_dist as int, c.tan_half_defocus as int)
}

#[verifier::opaque]
pub open spec fn camera_ddu_s(c: Camera) -> Vec3 {
    scalev(camera_u_s(c), camera_defocus_radius_s(c))
}

#[verifier::opaque]
pub open spec fn camera_ddv_s(c: Camera) -> Vec3 {
    scalev(camera_v_s(c), camera_defocus_radius_s(c))
}

/// The derived state a render relies on, with the bounds ray generation
/// needs.
pub open spec fn derived_wf(c: Camera) -> bool {
    1 <= c.image_height <= 32768 && c.image_height == camera_height_s(c) && vb(c.centre, 16777216)
        && c.centre == c.lookfrom && vb(c.pixel00_loc, 8589934592) && vb(
        c.pixel_delta_u,
        2147483648,
    ) && vb(c.pixel_delta_v, 2147483648) && abs_i(c.pixel_delta_u.x as int) * c.image_width
        <= 2147483648 && abs_i(c.pixel_delta_u.y as int) * c.image_width <= 2147483648 && abs_i(
        c.pixel_delta_u.z as int,
    ) * c.image_width <= 2147483648 && abs_i(c.pixel_delta_v.x as int) * c.image_height
        <= 2147483648 && abs_i(c.pixel_delta_v.y as int) * c.image_height <= 2147483648 && abs_i(
        c.pixel_delta_v.z as int,
    ) * c.image_height <= 2147483648 && vb(c.defocus_disk_u, 33554432) && vb(
        c.defocus_disk_v,
        33554432,
    )
}

/// The primary ray through pixel `(i, j)` for the jitter `(ox, oy)` and the
/// lens-disk sample `disk`: aim at a jittered point of the pixel's footprint
/// from the camera centre (or from a point of the defocus disk), falling
/// back to the view axis when the difference degenerates.
pub open spec fn ray_through_s(c: Camera, i: int, j: int, ox: int, oy: int, disk: Vec3) -> Ray {
    let su = i * (FX_ONE as int) + ox;
    let sv = j * (FX_ONE as int) + oy;
    let pixel_sample = addv(
        addv(c.pixel00_loc, scalev(c.pixel_delta_u, su)),
        scalev(c.pixel_delta_v, sv),
    );
    let origin = if c.tan_half_defocus <= 0 {
        c.centre
    } else {
        addv(
            c.centre,
            addv(
                scalev(c.defocus_disk_u, disk.x as int),
                scalev(c.defocus_disk_v, disk.y as int),
            ),
        )
    };
    let d0 = subv(pixel_sample, origin);
    if len_sq_s(d0) >= 1 {
        Ray { origin, direction: d0 }
    } else {
        Ray { origin, direction: v3(0, 0, FX_ONE as int) }
    }
}

/// The background a missed ray contributes: a vertical blend from white at
/// the horizon's lower half to sky blue upward, driven by the unit
/// direction's height.
pub open spec fn background_s(ray: Ray) -> Colour {
    let unit_direction = unitv(ray.direction);
    let a = clamp_s(
        Interval { min: 0, max: FX_ONE },
        tdiv(unit_direction.y as int + FX_ONE, 2),
    );
    addv(
        scalev(v3(FX_ONE as int, FX_ONE as int, FX_ONE as int), FX_ONE - a),
        scalev(v3(32768, 45875, FX_ONE as int), a),
    )
}

/// One blended colour channel stays inside `[0, 1]`.
proof fn lemma_blend_unit(c1: int, c2: int, a: int)
    requires
        0 <= c1 <= FX_ONE as int,
        0 <= c2 <= FX_ONE as int,
        0 <= a <= FX_ONE as int,
    ensures
        0 <= fx_mul_s(c1, FX_ONE - a) + fx_mul_s(c2, a) <= FX_ONE as int,
{
    lemma_unit_interval_mul(c1, FX_ONE as int - a);
    lemma_unit_interval_mul(c2, a);
}

/// The background colour of a ray that hits nothing.
pub fn background(ray: &Ray) -> (c: Colour)
    requires
        ray_wf(*ray),
    ensures
        c == background_s(*ray),
        colour01(c),
{
    let unit_direction = ray.direction.unit();
    proof {
        lemma_tdiv_facts(unit_direction.y as int + FX_ONE, 2);
    }
    let half_up = (unit_direction.y + FX_ONE) / 2;
    let a = Interval::new(0, FX_ONE).clamp(half_up);
    let white = Vec3::new(FX_ONE, FX_ONE, FX_ONE);
    let sky = Vec3::new(32768, 45875, FX_ONE);
    proof {
        lemma_blend_unit(FX_ONE as int, 32768, a as int);
        lemma_blend_unit(FX_ONE as int, 45875, a as int);
        lemma_blend_unit(FX_ONE as int, FX_ONE as int, a as int);
        lemma_unit_interval_mul(FX_ONE as int, FX_ONE as int - a as int);
        lemma_unit_interval_mul(32768, a as int);
        lemma_unit_interval_mul(45875, a as int);
        lemma_unit_interval_mul(FX_ONE as int, a as int);
    }
    white.scale(FX_ONE - a).add(sky.scale(a))
}

/// The background gradient always has a full blue channel: it blends two
/// colours whose blue is one, and blending ones gives one exactly.
pub proof fn lemma_background_full_blue(ray: Ray)
    ensures
        background_s(ray).z == FX_ONE,
{
    let unit_direction = unitv(ray.direction);
    let a = clamp_s(
        Interval { min: 0, max: FX_ONE },
        tdiv(unit_direction.y as int + FX_ONE, 2),
    );
    assert(0 <= a <= FX_ONE as int);
    lemma_fx_mul_one(FX_ONE as int - a);
    lemma_fx_mul_one(a);
}

/// The shading relation: what following a ray can yield for some
/// admissible sequence of scatter draws. An exhausted budget gives black;
/// a miss gives the background; a hit gives black when the material
/// absorbs, and otherwise the attenuation multiplied component-wise into
/// a colour the scattered ray itself can yield one bounce shallower.
#[verifier::opaque]
pub open spec fn ray_colour_rel(objs: Seq<Sphere>, ray: Ray, depth: int, c: Colour) -> bool
    decreases depth,
{
    if depth <= 0 {
        c == v3(0, 0, 0)
    } else {
        match list_hit_s(objs, ray, Interval { min: SHADOW_ACNE_MIN, max: FX_INF }) {
            None => c == background_s(ray),
            Some(rec) => exists|outcome: Option<(Colour, Ray)>|
                #[trigger] scatter_outcome_s(rec.mat, ray, rec, outcome) && match outcome {
                    None => c == v3(0, 0, 0),
                    Some(pair) => exists|sub: Colour|
                        ray_colour_rel(objs, pair.1, depth - 1, sub) && c == #[trigger] mulv(
                            pair.0,
                            sub,
                        ),
                },
        }
    }
}

/// One per-pixel sample: a colour that shading can yield for a ray through
/// pixel `(i, j)` at some admissible jitter and lens draw.
#[verifier::opaque]
pub open spec fn pixel_sample_ok(
    cam: Camera,
    objs: Seq<Sphere>,
    i: int,
    j: int,
    col: Colour,
) -> bool {
    exists|ox: int, oy: int, disk: Vec3|
        -32768 <= ox < 32768 && -32768 <= oy < 32768 && vb(disk, FX_ONE as int) && len_sq_s(disk)
            < FX_ONE && disk.z == 0 && ray_colour_rel(
            objs,
            #[trigger] ray_through_s(cam, i, j, ox, oy, disk),
            cam.max_depth as int,
            col,
        )
}

/// The component-wise sum of a sequence of colours.
#[verifier::opaque]
pub open spec fn sum_colours_s(samples: Seq<Colour>) -> Vec3
    decreases samples.len(),
{
    if samples.len() == 0 {
        v3(0, 0, 0)
    } else {
        addv(sum_colours_s(samples.drop_last()), samples.last())
    }
}

/// Everything a pixel's colour satisfies: the truncating average of one
/// shading sample per configured draw through the pixel; black when the
/// bounce budget is zero; a full blue channel over an empty scene.
#[verifier::opaque]
pub open spec fn pixel_colour_ok(
    cam: Camera,
    objs: Seq<Sphere>,
    i: int,
    j: int,
    c: Colour,
) -> bool {
    &&& colour01(c)
    &&& (cam.max_depth == 0 ==> c == v3(0, 0, 0))
    &&& (objs.len() == 0 && cam.max_depth > 0 ==> c.z == FX_ONE)
    &&& exists|samples: Seq<Colour>|
        #![trigger sum_colours_s(samples)]
        samples.len() == cam.samples_per_pixel && (forall|k: int|
            0 <= k < samples.len() ==> colour01(#[trigger] samples[k]) && pixel_sample_ok(
                cam,
                objs,
                i,
                j,
                samples[k],
            )) && c == div_countv(sum_colours_s(samples), cam.samples_per_pixel as int)
}

/// Every emitted pixel encodes a colour that per-pixel sampling can
/// produce at that pixel's row and column of the row-major buffer: some
/// sequence of per-pixel colours explains the whole image.
pub open spec fn rendered_ok(cam: Camera, objs: Seq<Sphere>, pixels: Seq<Rgb>) -> bool {
    exists|cols: Seq<Colour>|
        #![trigger cols.len()]
        cols.len() == pixels.len() && forall|p: int| #![trigger pixels[p]]
            0 <= p < pixels.len() ==> pixels[p] == encode_colour_s(cols[p]) && pixel_colour_ok(
                cam,
                objs,
                p % (cam.image_width as int),
                p / (cam.image_width as int),
                cols[p],
            )
}

impl Camera {
    /// A camera with the default configuration: square aspect, a small
    /// image, a right angle of vertical view, looking down the negative z
    /// axis with y up, no defocus.
    pub fn new() -> (r: Camera)
        ensures
            r.aspect_ratio == FX_ONE,
            r.image_width == 100,
            r.samples_per_pixel == 10,
            r.max_depth == 10,
            r.tan_half_vfov == FX_ONE,
            r.lookfrom == v3(0, 0, 0),
            r.lookat == v3(0, 0, -(FX_ONE as int)),
            r.vup == v3(0, FX_ONE as int, 0),
            r.tan_half_defocus == 0,
            r.focus_dist == 10 * FX_ONE,
    {
        Camera {
            aspect_ratio: FX_ONE,
            image_width: 100,
            samples_per_pixel: 10,
            max_depth: 10,
            tan_half_vfov: FX_ONE,
            lookfrom: Vec3::new(0, 0, 0),
            lookat: Vec3::new(0, 0, -FX_ONE),
            vup: Vec3::new(0, FX_ONE, 0),
            tan_half_defocus: 0,
            focus_dist: 10 * FX_ONE,
            image_height: 0,
            centre: Vec3::new(0, 0, 0),
            pixel00_loc: Vec3::new(0, 0, 0),
            pixel_delta_u: Vec3::new(0, 0, 0),
            pixel_delta_v: Vec3::new(0, 0, 0),
            basis_u: Vec3::new(0, 0, 0),
            basis_v: Vec3::new(0, 0, 0),
            basis_w: Vec3::new(0, 0, 0),
            defocus_disk_u: Vec3::new(0, 0, 0),
            defocus_disk_v: Vec3::new(0, 0, 0),
        }
    }

    /// Whether the configuration is one the renderer accepts; unverified
    /// callers check this before asking for a render.
    pub fn config_ok(&self) -> (b: bool)
        ensures
            b == config_wf(*self),
    {
        let basic = 8192 <= self.aspect_ratio && self.aspect_ratio <= 524288 && 1
            <= self.image_width && self.image_width <= 4096 && 1 <= self.samples_per_pixel
            && self.samples_per_pixel <= 1024 && self.max_depth <= 256 && 1 <= self.tan_half_vfov
            && self.tan_half_vfov <= 131072 && self.lookfrom.bounded_by(16777216)
            && self.lookat.bounded_by(16777216) && self.vup.bounded_by(16777216) && 1
            <= self.focus_dist && self.focus_dist <= 16777216 && 0 <= self.tan_half_defocus
            && self.tan_half_defocus <= 16384;
        if !basic {
            return false;
        }
        let gaze = self.lookfrom.sub(self.lookat);
        if gaze.length_squared() < 1 {
            return false;
        }
        let w = gaze.unit();
        let across = self.vup.cross(w);
        proof {
            lemma_fx_mul_bound(self.vup.y as int, w.z as int, 16777216, 131072);
            lemma_fx_mul_bound(self.vup.z as int, w.y as int, 16777216, 131072);
            lemma_fx_mul_bound(self.vup.z as int, w.x as int, 16777216, 131072);
            lemma_fx_mul_bound(self.vup.x as int, w.z as int, 16777216, 131072);
            lemma_fx_mul_bound(self.vup.x as int, w.y as int, 16777216, 131072);
            lemma_fx_mul_bound(self.vup.y as int, w.x as int, 16777216, 131072);
        }
        across.length_squared() >= 1
    }

    /// Recompute the derived view geometry from the configuration: image
    /// height, orthonormal view basis, pixel grid anchor and deltas, and the
    /// defocus disk basis.
    /// The derived image height, computed from width and aspect ratio.
    fn compute_height(&self) -> (h: i128)
        requires
            config_wf(*self),
        ensures
            h as int == camera_height_s(*self),
            1 <= h <= 32768,
    {
        proof {
            reveal(camera_height_s);
        }
        let width_fx = (self.image_width as i128) * FX_ONE;
        proof {
            lemma_tdiv_facts(width_fx as int, self.aspect_ratio as int);
        }
        let height_raw = width_fx / self.aspect_ratio;
        proof {
            assert(height_raw as int * 8192 <= height_raw as int * self.aspect_ratio as int)
                by (nonlinear_arith)
                requires
                    height_raw as int >= 0,
                    self.aspect_ratio as int >= 8192,
            ;
            assert(height_raw as int * self.aspect_ratio as int <= width_fx as int);
            assert(height_raw <= 32768);
        }
        if height_raw < 1 {
            1
        } else {
            height_raw
        }
    }

    /// The orthonormal view basis `(u, v, w)` derived from the gaze and up
    /// directions.
    fn view_basis(&self) -> (r: (Vec3, Vec3, Vec3))
        requires
            config_wf(*self),
        ensures
            r.0 == camera_u_s(*self),
            r.1 == camera_v_s(*self),
            r.2 == camera_w_s(*self),
            vb(r.0, 131072),
            vb(r.1, 524288),
            vb(r.2, 131072),
    {
        proof {
            reveal(camera_w_s);
            reveal(camera_u_s);
            reveal(camera_v_s);
        }
        let gaze = self.lookfrom.sub(self.lookat);
        let w = gaze.unit();
        let across = self.vup.cross(w);
        proof {
            lemma_fx_mul_bound(self.vup.y as int, w.z as int, 16777216, 131072);
            lemma_fx_mul_bound(self.vup.z as int, w.y as int, 16777216, 131072);
            lemma_fx_mul_bound(self.vup.z as int, w.x as int, 16777216, 131072);
            lemma_fx_mul_bound(self.vup.x as int, w.z as int, 16777216, 131072);
            lemma_fx_mul_bound(self.vup.x as int, w.y as int, 16777216, 131072);
            lemma_fx_mul_bound(self.vup.y as int, w.x as int, 16777216, 131072);
        }
        let u = across.unit();
        let v = w.cross(u);
        proof {
            lemma_fx_mul_bound(w.y as int, u.z as int, 131072, 131072);
            lemma_fx_mul_bound(w.z as int, u.y as int, 131072, 131072);
            lemma_fx_mul_bound(w.z as int, u.x as int, 131072, 131072);
            lemma_fx_mul_bound(w.x as int, u.z as int, 131072, 131072);
            lemma_fx_mul_bound(w.x as int, u.y as int, 131072, 131072);
            lemma_fx_mul_bound(w.y as int, u.x as int, 131072, 131072);
        }
        (u, v, w)
    }

    /// The viewport extents `(height, width)` in world units.
    fn viewport_size(&self, height: i128) -> (r: (i128, i128))
        requires
            config_wf(*self),
            height as int == camera_height_s(*self),
            1 <= height <= 32768,
        ensures
            r.0 == camera_viewport_height_s(*self),
            r.1 == camera_viewport_width_s(*self),
            abs_i(r.0 as int) <= 67108864,
            abs_i(r.1 as int) <= 1006632960,
    {
        proof {
            reveal(camera_height_s);
            reveal(camera_viewport_height_s);
            reveal(camera_viewport_width_s);
        }
        let width_fx = (self.image_width as i128) * FX_ONE;
        proof {
            lemma_mul_abs_le(self.tan_half_vfov as int, self.focus_dist as int, 131072, 16777216);
            lemma_fx_mul_bound(self.tan_half_vfov as int, self.focus_dist as int, 131072, 16777216);
        }
        let viewport_height = 2 * fx_mul(self.tan_half_vfov, self.focus_dist);
        let height_fx = height * FX_ONE;
        proof {
            lemma_mul_abs_le(width_fx as int, FX_ONE as int, 268435456, 65536);
            lemma_tdiv_facts(width_fx as int * FX_ONE as int, height_fx as int);
        }
        let aspect_actual = crate::fixed::fx_div(width_fx, height_fx);
        proof {
            // the width never exceeds eight times the height (plus division
            // slack), so the realised aspect ratio stays below sixteen
            let height_raw = tdiv(width_fx as int, self.aspect_ratio as int);
            lemma_tdiv_facts(width_fx as int, self.aspect_ratio as int);
            vstd::arithmetic::div_mod::lemma_fundamental_div_mod(
                width_fx as int,
                self.aspect_ratio as int,
            );
            assert(self.aspect_ratio as int * height_raw <= 524288 * (height as int))
                by (nonlinear_arith)
                requires
                    self.aspect_ratio as int <= 524288,
                    0 <= height_raw <= height as int,
            ;
            assert(self.image_width * 65536 <= 524288 * (height as int) + 524287);
            assert(self.image_width <= 8 * height as int + 7);
            assert(aspect_actual as int * (height_fx as int) <= width_fx as int * 65536);
            assert(aspect_actual as int >= 0);
            assert(aspect_actual as int <= 983040) by (nonlinear_arith)
                requires
                    aspect_actual as int * ((height as int) * 65536) <= (self.image_width * 65536)
                        * 65536,
                    self.image_width <= 8 * height as int + 7,
                    height as int >= 1,
                    aspect_actual as int >= 0,
                    height_fx as int == (height as int) * 65536,
            ;
            lemma_mul_abs_le(viewport_height as int, aspect_actual as int, 67108864, 983040);
            lemma_fx_mul_bound(viewport_height as int, aspect_actual as int, 67108864, 983040);
        }
        let viewport_width = fx_mul(viewport_height, aspect_actual);
        (viewport_height, viewport_width)
    }

    /// Viewport edge vectors and the pixel-to-pixel deltas.
    #[verifier::rlimit(100)]
    fn pixel_deltas(&self, height: i128, u: Vec3, v: Vec3, vh: i128, vw: i128) -> (r: (
        Vec3,
        Vec3,
        Vec3,
        Vec3,
    ))
        requires
            config_wf(*self),
            height as int == camera_height_s(*self),
            1 <= height <= 32768,
            u == camera_u_s(*self),
            v == camera_v_s(*self),
            vb(u, 131072),
            vb(v, 524288),
            vh == camera_viewport_height_s(*self),
            vw == camera_viewport_width_s(*self),
            abs_i(vh as int) <= 67108864,
            abs_i(vw as int) <= 1006632960,
        ensures
            r.0 == camera_viewport_u_s(*self),
            r.1 == camera_viewport_v_s(*self),
            r.2 == camera_pdu_s(*self),
            r.3 == camera_pdv_s(*self),
            vb(r.0, 2147483648),
            vb(r.1, 536870912),
            vb(r.2, 2147483648),
            vb(r.3, 2147483648),
            abs_i(r.2.x as int) * self.image_width <= 2147483648,
            abs_i(r.2.y as int) * self.image_width <= 2147483648,
            abs_i(r.2.z as int) * self.image_width <= 2147483648,
            abs_i(r.3.x as int) * height <= 2147483648,
            abs_i(r.3.y as int) * height <= 2147483648,
            abs_i(r.3.z as int) * height <= 2147483648,
    {
        proof {
            reveal(camera_viewport_u_s);
            reveal(camera_viewport_v_s);
            reveal(camera_pdu_s);
            reveal(camera_pdv_s);
            lemma_fx_mul_bound(u.x as int, vw as int, 131072, 1073741824);
            lemma_fx_mul_bound(u.y as int, vw as int, 131072, 1073741824);
            lemma_fx_mul_bound(u.z as int, vw as int, 131072, 1073741824);
        }
        let viewport_u = u.scale(vw);
        let neg_v = v.neg();
        proof {
            lemma_fx_mul_bound(neg_v.x as int, vh as int, 524288, 67108864);
            lemma_fx_mul_bound(neg_v.y as int, vh as int, 524288, 67108864);
            lemma_fx_mul_bound(neg_v.z as int, vh as int, 524288, 67108864);
        }
        let viewport_v = neg_v.scale(vh);
        proof {
            lemma_tdiv_facts(viewport_u.x as int, self.image_width as int);
            lemma_tdiv_facts(viewport_u.y as int, self.image_width as int);
            lemma_tdiv_facts(viewport_u.z as int, self.image_width as int);
            lemma_tdiv_facts(viewport_v.x as int, height as int);
            lemma_tdiv_facts(viewport_v.y as int, height as int);
            lemma_tdiv_facts(viewport_v.z as int, height as int);
        }
        let pixel_delta_u = viewport_u.div_by_count(self.image_width as i128);
        let pixel_delta_v = viewport_v.div_by_count(height);
        (viewport_u, viewport_v, pixel_delta_u, pixel_delta_v)
    }

    /// The centre of the first (upper-left) pixel.
    #[verifier::rlimit(100)]
    fn pixel_anchor(&self, w: Vec3, vu: Vec3, vv: Vec3, pdu: Vec3, pdv: Vec3) -> (r: Vec3)
        requires
            config_wf(*self),
            w == camera_w_s(*self),
            vb(w, 131072),
            vu == camera_viewport_u_s(*self),
            vv == camera_viewport_v_s(*self),
            pdu == camera_pdu_s(*self),
            pdv == camera_pdv_s(*self),
            vb(vu, 2147483648),
            vb(vv, 536870912),
            vb(pdu, 2147483648),
            vb(pdv, 2147483648),
        ensures
            r == camera_pixel00_s(*self),
            vb(r, 8589934592),
    {
        proof {
            reveal(camera_pixel00_s);
            lemma_fx_mul_bound(w.x as int, self.focus_dist as int, 131072, 16777216);
            lemma_fx_mul_bound(w.y as int, self.focus_dist as int, 131072, 16777216);
            lemma_fx_mul_bound(w.z as int, self.focus_dist as int, 131072, 16777216);
            lemma_tdiv_facts(vu.x as int, 2);
            lemma_tdiv_facts(vu.y as int, 2);
            lemma_tdiv_facts(vu.z as int, 2);
            lemma_tdiv_facts(vv.x as int, 2);
            lemma_tdiv_facts(vv.y as int, 2);
            lemma_tdiv_facts(vv.z as int, 2);
        }
        let focus_step = w.scale(self.focus_dist);
        let viewport_upper_left = self.lookfrom.sub(focus_step).sub(vu.div_by_count(2)).sub(
            vv.div_by_count(2),
        );
        let delta_sum = pdu.add(pdv);
        proof {
            lemma_tdiv_facts(delta_sum.x as int, 2);
            lemma_tdiv_facts(delta_sum.y as int, 2);
            lemma_tdiv_facts(delta_sum.z as int, 2);
        }
        viewport_upper_left.add(delta_sum.div_by_count(2))
    }

    /// The defocus disk's basis vectors.
    fn defocus_basis(&self, u: Vec3, v: Vec3) -> (r: (Vec3, Vec3))
        requires
            config_wf(*self),
            u == camera_u_s(*self),
            v == camera_v_s(*self),
            vb(u, 131072),
            vb(v, 524288),
        ensures
            r.0 == camera_ddu_s(*self),
            r.1 == camera_ddv_s(*self),
            vb(r.0, 33554432),
            vb(r.1, 33554432),
    {
        proof {
            reveal(camera_defocus_radius_s);
            reveal(camera_ddu_s);
            reveal(camera_ddv_s);
            lemma_mul_abs_le(self.focus_dist as int, self.tan_half_defocus as int, 16777216, 16384);
            lemma_fx_mul_bound(self.focus_dist as int, self.tan_half_defocus as int, 16777216, 16384);
        }
        let defocus_radius = fx_mul(self.focus_dist, self.tan_half_defocus);
        proof {
            lemma_fx_mul_bound(u.x as int, defocus_radius as int, 131072, 4194304);
            lemma_fx_mul_bound(u.y as int, defocus_radius as int, 131072, 4194304);
            lemma_fx_mul_bound(u.z as int, defocus_radius as int, 131072, 4194304);
            lemma_fx_mul_bound(v.x as int, defocus_radius as int, 524288, 4194304);
            lemma_fx_mul_bound(v.y as int, defocus_radius as int, 524288, 4194304);
            lemma_fx_mul_bound(v.z as int, defocus_radius as int, 524288, 4194304);
        }
        (u.scale(defocus_radius), v.scale(defocus_radius))
    }

    #[verifier::rlimit(100)]
    pub fn initialize(&mut self)
        requires
            config_wf(*old(self)),
        ensures
            *final (self) == (Camera {
                image_height: final (self).image_height,
                centre: final (self).centre,
                pixel00_loc: final (self).pixel00_loc,
                pixel_delta_u: final (self).pixel_delta_u,
                pixel_delta_v: final (self).pixel_delta_v,
                basis_u: final (self).basis_u,
                basis_v: final (self).basis_v,
                basis_w: final (self).basis_w,
                defocus_disk_u: final (self).defocus_disk_u,
                defocus_disk_v: final (self).defocus_disk_v,
                ..*old(self)
            }),
            final (self).image_height == camera_height_s(*old(self)),
            final (self).centre == old(self).lookfrom,
            final (self).basis_w == camera_w_s(*old(self)),
            final (self).basis_u == camera_u_s(*old(self)),
            final (self).basis_v == camera_v_s(*old(self)),
            final (self).pixel_delta_u == camera_pdu_s(*old(self)),
            final (self).pixel_delta_v == camera_pdv_s(*old(self)),
            final (self).pixel00_loc == camera_pixel00_s(*old(self)),
            final (self).defocus_disk_u == camera_ddu_s(*old(self)),
            final (self).defocus_disk_v == camera_ddv_s(*old(self)),
            config_wf(*final (self)),
            derived_wf(*final (self)),
    {
        let height = self.compute_height();
        let basis = self.view_basis();
        let u = basis.0;
        let v = basis.1;
        let w = basis.2;
        let viewport = self.viewport_size(height);
        let deltas = self.pixel_deltas(height, u, v, viewport.0, viewport.1);
        let anchor = self.pixel_anchor(w, deltas.0, deltas.1, deltas.2, deltas.3);
        let disks = self.defocus_basis(u, v);
        self.image_height = height as usize;
        self.centre = self.lookfrom;
        self.basis_w = w;
        self.basis_u = u;
        self.basis_v = v;
        self.pixel_delta_u = deltas.2;
        self.pixel_delta_v = deltas.3;
        self.pixel00_loc = anchor;
        self.defocus_disk_u = disks.0;
        self.defocus_disk_v = disks.1;
        proof {
            reveal(camera_height_s);
        }
    }

    /// A random point of the defocus disk around the camera centre.
    pub fn defocus_disk_sample<R: RandomSource>(&self, rng: &mut R) -> (r: Point3)
        requires
            config_wf(*self),
            derived_wf(*self),
        ensures
            vb(r, 134217728),
            exists|disk: Vec3|
                vb(disk, FX_ONE as int) && len_sq_s(disk) < FX_ONE && disk.z == 0 && r == addv(
                    self.centre,
                    addv(
                        #[trigger] scalev(self.defocus_disk_u, disk.x as int),
                        scalev(self.defocus_disk_v, disk.y as int),
                    ),
                ),
    {
        let p = random_in_unit_disk(rng);
        proof {
            lemma_fx_mul_bound(self.defocus_disk_u.x as int, p.x as int, 33554432, 65536);
            lemma_fx_mul_bound(self.defocus_disk_u.y as int, p.x as int, 33554432, 65536);
            lemma_fx_mul_bound(self.defocus_disk_u.z as int, p.x as int, 33554432, 65536);
            lemma_fx_mul_bound(self.defocus_disk_v.x as int, p.y as int, 33554432, 65536);
            lemma_fx_mul_bound(self.defocus_disk_v.y as int, p.y as int, 33554432, 65536);
            lemma_fx_mul_bound(self.defocus_disk_v.z as int, p.y as int, 33554432, 65536);
        }
        let step_u = self.defocus_disk_u.scale(p.x);
        let step_v = self.defocus_disk_v.scale(p.y);
        let r = self.centre.add(step_u.add(step_v));
        proof {
            assert(r == addv(
                self.centre,
                addv(
                    scalev(self.defocus_disk_u, p.x as int),
                    scalev(self.defocus_disk_v, p.y as int),
                ),
            ));
        }
        r
    }

    /// A jitter within a pixel's footprint: both offsets lie in
    /// `[-1/2, 1/2)` of a pixel.
    pub fn sample_square<R: RandomSource>(rng: &mut R) -> (r: Vec3)
        ensures
            -32768 <= r.x < 32768,
            -32768 <= r.y < 32768,
            r.z == 0,
    {
        let x = crate::random_fx(rng) - 32768;
        let y = crate::random_fx(rng) - 32768;
        Vec3 { x, y, z: 0 }
    }

    /// A camera ray from the defocus disk (or the camera centre) toward a
    /// randomly jittered point within pixel `(i, j)`.
    #[verifier::rlimit(100)]
    pub fn get_ray<R: RandomSource>(&self, i: usize, j: usize, rng: &mut R) -> (r: Ray)
        requires
            config_wf(*self),
            derived_wf(*self),
            i < self.image_width,
            j < self.image_height,
        ensures
            ray_wf(r),
            exists|ox: int, oy: int, disk: Vec3|
                -32768 <= ox < 32768 && -32768 <= oy < 32768 && vb(disk, FX_ONE as int)
                    && len_sq_s(disk) < FX_ONE && disk.z == 0 && r == #[trigger] ray_through_s(
                    *self,
                    i as int,
                    j as int,
                    ox,
                    oy,
                    disk,
                ),
    {
        let offset = Camera::sample_square(rng);
        let su = (i as i128) * FX_ONE + offset.x;
        let sv = (j as i128) * FX_ONE + offset.y;
        proof {
            assert(abs_i(su as int) <= (self.image_width as int) * 65536) by (nonlinear_arith)
                requires
                    0 <= (i as int) <= (self.image_width as int) - 1,
                    -32768 <= (offset.x as int) < 32768,
                    (su as int) == (i as int) * 65536 + (offset.x as int),
            ;
            assert(abs_i(sv as int) <= (self.image_height as int) * 65536) by (nonlinear_arith)
                requires
                    0 <= (j as int) <= (self.image_height as int) - 1,
                    -32768 <= (offset.y as int) < 32768,
                    (sv as int) == (j as int) * 65536 + (offset.y as int),
            ;
            assert(abs_i(self.pixel_delta_u.x as int * su as int) <= 2147483648 * 65536)
                by (nonlinear_arith)
                requires
                    abs_i(self.pixel_delta_u.x as int) * (self.image_width as int) <= 2147483648,
                    abs_i(su as int) <= (self.image_width as int) * 65536,
                    self.image_width as int >= 1,
            ;
            assert(abs_i(self.pixel_delta_u.y as int * su as int) <= 2147483648 * 65536)
                by (nonlinear_arith)
                requires
                    abs_i(self.pixel_delta_u.y as int) * (self.image_width as int) <= 2147483648,
                    abs_i(su as int) <= (self.image_width as int) * 65536,
                    self.image_width as int >= 1,
            ;
            assert(abs_i(self.pixel_delta_u.z as int * su as int) <= 2147483648 * 65536)
                by (nonlinear_arith)
                requires
                    abs_i(self.pixel_delta_u.z as int) * (self.image_width as int) <= 2147483648,
                    abs_i(su as int) <= (self.image_width as int) * 65536,
                    self.image_width as int >= 1,
            ;
            assert(abs_i(self.pixel_delta_v.x as int * sv as int) <= 2147483648 * 65536)
                by (nonlinear_arith)
                requires
                    abs_i(self.pixel_delta_v.x as int) * (self.image_height as int) <= 2147483648,
                    abs_i(sv as int) <= (self.image_height as int) * 65536,
                    self.image_height as int >= 1,
            ;
            assert(abs_i(self.pixel_delta_v.y as int * sv as int) <= 2147483648 * 65536)
                by (nonlinear_arith)
                requires
                    abs_i(self.pixel_delta_v.y as int) * (self.image_height as int) <= 2147483648,
                    abs_i(sv as int) <= (self.image_height as int) * 65536,
                    self.image_height as int >= 1,
            ;
            assert(abs_i(self.pixel_delta_v.z as int * sv as int) <= 2147483648 * 65536)
                by (nonlinear_arith)
                requires
                    abs_i(self.pixel_delta_v.z as int) * (self.image_height as int) <= 2147483648,
                    abs_i(sv as int) <= (self.image_height as int) * 65536,
                    self.image_height as int >= 1,
            ;
            lemma_tdiv_facts(self.pixel_delta_u.x as int * su as int, 65536);
            lemma_tdiv_facts(self.pixel_delta_u.y as int * su as int, 65536);
            lemma_tdiv_facts(self.pixel_delta_u.z as int * su as int, 65536);
            lemma_tdiv_facts(self.pixel_delta_v.x as int * sv as int, 65536);
            lemma_tdiv_facts(self.pixel_delta_v.y as int * sv as int, 65536);
            lemma_tdiv_facts(self.pixel_delta_v.z as int * sv as int, 65536);
        }
        let step_u = self.pixel_delta_u.scale(su);
        let step_v = self.pixel_delta_v.scale(sv);
        let pixel_sample = self.pixel00_loc.add(step_u).add(step_v);
        if self.tan_half_defocus <= 0 {
            let ray_origin = self.centre;
            let d0 = pixel_sample.sub(ray_origin);
            let dir_ok = d0.length_squared() >= 1;
            let ray_direction = if dir_ok {
                d0
            } else {
                Vec3::new(0, 0, FX_ONE)
            };
            proof {
                lemma_tdiv_cancel(65536, 65536);
                let rt = ray_through_s(
                    *self,
                    i as int,
                    j as int,
                    offset.x as int,
                    offset.y as int,
                    v3(0, 0, 0),
                );
                lemma_len_sq_nonneg(v3(0, 0, 0));
                lemma_tdiv_facts(0, 65536);
                assert(Ray { origin: ray_origin, direction: ray_direction } == rt);
            }
            Ray::new(ray_origin, ray_direction)
        } else {
            let ray_origin = self.defocus_disk_sample(rng);
            let d0 = pixel_sample.sub(ray_origin);
            let dir_ok = d0.length_squared() >= 1;
            let ray_direction = if dir_ok {
                d0
            } else {
                Vec3::new(0, 0, FX_ONE)
            };
            proof {
                lemma_tdiv_cancel(65536, 65536);
                let disk = choose|disk: Vec3|
                    vb(disk, FX_ONE as int) && len_sq_s(disk) < FX_ONE && disk.z == 0 && ray_origin
                        == addv(
                        self.centre,
                        addv(
                            #[trigger] scalev(self.defocus_disk_u, disk.x as int),
                            scalev(self.defocus_disk_v, disk.y as int),
                        ),
                    );
                let rt = ray_through_s(
                    *self,
                    i as int,
                    j as int,
                    offset.x as int,
                    offset.y as int,
                    disk,
                );
                assert(Ray { origin: ray_origin, direction: ray_direction } == rt);
            }
            Ray::new(ray_origin, ray_direction)
        }
    }

    /// Follow a ray through the scene for at most `depth` bounces: a miss
    /// contributes the background, absorption contributes black, and a
    /// scattered hit contributes the attenuation multiplied component-wise
    /// into the colour of the scattered ray at one less depth; an exhausted
    /// budget contributes black.
    pub fn ray_colour<R: RandomSource>(
        ray: &Ray,
        depth: u32,
        world: &HittableList,
        rng: &mut R,
    ) -> (c: Colour)
        requires
            ray_wf(*ray),
            world.wf(),
        ensures
            colour01(c),
            ray_colour_rel(world@, *ray, depth as int, c),
            depth == 0 ==> c == v3(0, 0, 0),
            depth > 0 && list_hit_s(
                world@,
                *ray,
                Interval { min: SHADOW_ACNE_MIN, max: FX_INF },
            ) is None ==> c == background_s(*ray),
        decreases depth,
    {
        let ghost query = Interval { min: SHADOW_ACNE_MIN, max: FX_INF };
        if depth == 0 {
            proof {
                reveal(ray_colour_rel);
            }
            return Vec3::zero();
        }
        let hit = world.hit(ray, Interval::new(SHADOW_ACNE_MIN, FX_INF));
        proof {
            assert(hit == list_hit_s(world@, *ray, query));
        }
        match hit {
            None => {
                let bg = background(ray);
                proof {
                    reveal(ray_colour_rel);
                }
                bg
            },
            Some(rec) => {
                proof {
                    crate::hittable::lemma_list_hit_closest(
                        world@,
                        *ray,
                        query,
                        world@.len() as int,
                    );
                    let witness = choose|k: int|
                        0 <= k < world@.len() && crate::hittable::sphere::sphere_hit_s(
                            #[trigger] world@[k],
                            *ray,
                            query,
                        ) == Some(rec);
                    crate::hittable::sphere::lemma_sphere_hit_props(world@[witness], *ray, query);
                }
                let scattered = rec.mat.scatter(ray, &rec, rng);
                match scattered {
                    None => {
                        proof {
                            reveal(ray_colour_rel);
                            assert(scatter_outcome_s(rec.mat, *ray, rec, scattered));
                            assert(ray_colour_rel(world@, *ray, depth as int, v3(0, 0, 0)));
                        }
                        Vec3::zero()
                    },
                    Some(pair) => {
                        let attenuation = pair.0;
                        let next_ray = pair.1;
                        let sub = Camera::ray_colour(&next_ray, depth - 1, world, rng);
                        proof {
                            lemma_unit_interval_mul(attenuation.x as int, sub.x as int);
                            lemma_unit_interval_mul(attenuation.y as int, sub.y as int);
                            lemma_unit_interval_mul(attenuation.z as int, sub.z as int);
                        }
                        let c = attenuation.mul(sub);
                        proof {
                            reveal(ray_colour_rel);
                            assert(c == mulv(pair.0, sub));
                            assert(scatter_outcome_s(rec.mat, *ray, rec, scattered));
                            assert(ray_colour_rel(world@, *ray, depth as int, c));
                        }
                        c
                    },
                }
            },
        }
    }

    /// The averaged colour of one pixel: `samples_per_pixel` jittered rays,
    /// each traced to the bounce budget, summed and averaged by the
    /// truncating division by the sample count.
    pub fn pixel_colour<R: RandomSource>(
        &self,
        world: &HittableList,
        i: usize,
        j: usize,
        rng: &mut R,
    ) -> (c: Colour)
        requires
            config_wf(*self),
            derived_wf(*self),
            world.wf(),
            i < self.image_width,
            j < self.image_height,
        ensures
            colour01(c),
            pixel_colour_ok(*self, world@, i as int, j as int, c),
    {
        let mut sum = Vec3::zero();
        let ghost mut samples: Seq<Colour> = Seq::empty();
        proof {
            reveal(sum_colours_s);
        }
        let mut s: usize = 0;
        while s < self.samples_per_pixel
            invariant
                config_wf(*self),
                derived_wf(*self),
                world.wf(),
                i < self.image_width,
                j < self.image_height,
                s <= self.samples_per_pixel,
                samples.len() == s,
                forall|k: int|
                    0 <= k < samples.len() ==> colour01(#[trigger] samples[k]) && pixel_sample_ok(
                        *self,
                        world@,
                        i as int,
                        j as int,
                        samples[k],
                    ),
                sum == sum_colours_s(samples),
                0 <= sum.x <= s * FX_ONE,
                0 <= sum.y <= s * FX_ONE,
                0 <= sum.z <= s * FX_ONE,
                self.max_depth == 0 ==> sum == v3(0, 0, 0),
                world@.len() == 0 && self.max_depth > 0 ==> sum.z == s * FX_ONE,
            decreases self.samples_per_pixel - s,
        {
            let r = self.get_ray(i, j, rng);
            let sample = Camera::ray_colour(&r, self.max_depth, world, rng);
            proof {
                reveal(pixel_sample_ok);
                reveal(sum_colours_s);
                assert(pixel_sample_ok(*self, world@, i as int, j as int, sample)) by {
                    let (ox, oy, disk) = choose|ox: int, oy: int, disk: Vec3|
                        -32768 <= ox < 32768 && -32768 <= oy < 32768 && vb(disk, FX_ONE as int)
                            && len_sq_s(disk) < FX_ONE && disk.z == 0 && r
                            == #[trigger] ray_through_s(*self, i as int, j as int, ox, oy, disk);
                    assert(ray_colour_rel(
                        world@,
                        ray_through_s(*self, i as int, j as int, ox, oy, disk),
                        self.max_depth as int,
                        sample,
                    ));
                };
                if world@.len() == 0 && self.max_depth > 0 {
                    assert(list_hit_s(
                        world@,
                        r,
                        Interval { min: SHADOW_ACNE_MIN, max: FX_INF },
                    ) is None);
                    lemma_background_full_blue(r);
                    assert(sample.z == FX_ONE);
                }
                let ghost previous = samples;
                samples = samples.push(sample);
                assert(samples.drop_last() =~= previous);
                assert(samples.last() == sample);
            }
            sum = sum.add(sample);
            s = s + 1;
        }
        let count = self.samples_per_pixel as i128;
        proof {
            lemma_tdiv_facts(sum.x as int, count as int);
            lemma_tdiv_facts(sum.y as int, count as int);
            lemma_tdiv_facts(sum.z as int, count as int);
            lemma_tdiv_mono(sum.x as int, count as int * 65536, count as int);
            lemma_tdiv_mono(sum.y as int, count as int * 65536, count as int);
            lemma_tdiv_mono(sum.z as int, count as int * 65536, count as int);
            lemma_tdiv_cancel(65536, count as int);
            assert(count as int * 65536 == 65536 * count as int) by (nonlinear_arith);
        }
        let avg = sum.div_by_count(count);
        proof {
            reveal(pixel_colour_ok);
            assert(avg == div_countv(sum_colours_s(samples), self.samples_per_pixel as int));
            assert(pixel_colour_ok(*self, world@, i as int, j as int, avg));
        }
        avg
    }

    /// Render the whole image into a row-major pixel buffer, top row
    /// first: each emitted pixel encodes a colour that pixel sampling can
    /// produce for its own coordinates; the configuration itself is left
    /// unchanged.
    pub fn render<R: RandomSource>(&mut self, world: &HittableList, rng: &mut R) -> (pixels: Vec<
        Rgb,
    >)
        requires
            config_wf(*old(self)),
            world.wf(),
        ensures
            config_wf(*final (self)),
            derived_wf(*final (self)),
            *final (self) == (Camera {
                image_height: final (self).image_height,
                centre: final (self).centre,
                pixel00_loc: final (self).pixel00_loc,
                pixel_delta_u: final (self).pixel_delta_u,
                pixel_delta_v: final (self).pixel_delta_v,
                basis_u: final (self).basis_u,
                basis_v: final (self).basis_v,
                basis_w: final (self).basis_w,
                defocus_disk_u: final (self).defocus_disk_u,
                defocus_disk_v: final (self).defocus_disk_v,
                ..*old(self)
            }),
            final (self).image_width == old(self).image_width,
            final (self).image_height == camera_height_s(*old(self)),
            pixels@.len() == final (self).image_width * final (self).image_height,
            rendered_ok(*final (self), world@, pixels@),
    {
        self.initialize();
        let mut pixels: Vec<Rgb> = Vec::new();
        let ghost mut pixel_cols: Seq<Colour> = Seq::empty();
        let mut j: usize = 0;
        while j < self.image_height
            invariant
                config_wf(*self),
                derived_wf(*self),
                world.wf(),
                j <= self.image_height,
                pixels@.len() == j * self.image_width,
                pixel_cols.len() == pixels@.len(),
                forall|p: int| #![trigger pixels@[p]]
                    0 <= p < pixels@.len() ==> pixels@[p] == encode_colour_s(pixel_cols[p])
                        && pixel_colour_ok(
                        *self,
                        world@,
                        p % (self.image_width as int),
                        p / (self.image_width as int),
                        pixel_cols[p],
                    ),
            decreases self.image_height - j,
        {
            let mut i: usize = 0;
            while i < self.image_width
                invariant
                    config_wf(*self),
                    derived_wf(*self),
                    world.wf(),
                    j < self.image_height,
                    i <= self.image_width,
                    pixels@.len() == j * self.image_width + i,
                    pixel_cols.len() == pixels@.len(),
                    forall|p: int| #![trigger pixels@[p]]
                        0 <= p < pixels@.len() ==> pixels@[p] == encode_colour_s(pixel_cols[p])
                            && pixel_colour_ok(
                            *self,
                            world@,
                            p % (self.image_width as int),
                            p / (self.image_width as int),
                            pixel_cols[p],
                        ),
                decreases self.image_width - i,
            {
                let colour = self.pixel_colour(world, i, j, rng);
                let rgb = encode_colour(colour);
                pixels.push(rgb);
                proof {
                    pixel_cols = pixel_cols.push(colour);
                    let width = self.image_width as int;
                    let fresh = j as int * width + i as int;
                    vstd::arithmetic::div_mod::lemma_fundamental_div_mod_converse(
                        fresh,
                        width,
                        j as int,
                        i as int,
                    );
                    assert(pixels@[fresh] == encode_colour_s(colour));
                    assert(pixel_colour_ok(*self, world@, fresh % width, fresh / width, colour));
                }
                i = i + 1;
            }
            j = j + 1;
            proof {
                assert((j - 1) * self.image_width + self.image_width == j * self.image_width)
                    by (nonlinear_arith);
            }
        }
        proof {
            assert(self.image_height * self.image_width == self.image_width * self.image_height)
                by (nonlinear_arith);
            assert(pixel_cols.len() == pixels@.len());
            assert(rendered_ok(*self, world@, pixels@));
        }
        pixels
    }
}

} // verus!
