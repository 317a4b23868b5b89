//! The pinhole camera, the shading function, and the renderer.
//!
//! The camera maps a pixel `(i, j)` of a `w x h` image to the ray from
//! the camera origin through the viewport point at `u = i / (w - 1)`,
//! `v = j / (h - 1)`. The shading function colors a hit from its surface
//! normal and a miss from a vertical white-to-sky gradient. The renderer
//! walks the image top row first, left to right, and emits one level
//! triple per pixel; the whole image is a pure function of scene and
//! camera.

use vstd::prelude::*;
use vstd::arithmetic::div_mod::{
    lemma_div_is_ordered, lemma_div_is_ordered_by_denominator, lemma_div_multiples_vanish,
    lemma_fundamental_div_mod_converse_div, lemma_fundamental_div_mod_converse_mod,
};
use crate::fixed::{
    Fp, SCALE, mag, fmul, fdiv, lemma_sqrt_fp_bounds, lemma_sdiv_pos, lemma_fmul_bound,
    lemma_fmul_self_nonneg,
};
use crate::vec3::{
    Vec3, V3, v3_zero, v3_add, v3_sub, v3_scale, v3_divs, spec_dot, spec_unit, v3_bounded,
    lemma_dot_fits_from_bounds, lemma_scale_fits_from_bounds, lemma_divs_fits_from_bounds,
    lemma_dot_self_nonneg,
};
use crate::ray::{Ray, RayV};
use crate::sphere::{
    Sphere, SphereV, COORD_LIMIT, ray_in_range, sphere_hit_t, sphere_hit_rec,
    lemma_hit_rec_bounds,
};
use crate::scene::{HitTableList, scene_hit, scene_in_range, lemma_scene_hit_nearest};
use crate::color::{color_levels, color_level_sat, LEVEL_NUM, lemma_color_fits_from_bounds};

verus! {

/// The far bound of the ray parameter interval, standing in for an
/// unbounded search: no in-range geometry lies beyond it.
pub const T_FAR: i128 = COORD_LIMIT;

/// Every color the shader produces has components of magnitude below
/// this bound.
pub const COLOR_LIMIT: i128 = 2_000_000_000_000_000_000_000_000;

/// Largest camera field component accepted: four such terms summed stay
/// within the geometry's coordinate range.
pub const CAM_LIMIT: i128 = 250_000_000_000;

/// Largest viewport parameter handed to the camera constructor.
pub const CAM_INPUT_LIMIT: i128 = 62_500_000_000;

pub open spec fn white() -> V3 {
    V3 { x: 1_000_000, y: 1_000_000, z: 1_000_000 }
}

pub open spec fn sky_blue() -> V3 {
    V3 { x: 500_000, y: 700_000, z: 1_000_000 }
}

/// The background gradient of a missed ray: a linear blend from white to
/// sky blue by the height of the unit direction.
pub open spec fn spec_background(dir: V3) -> V3 {
    let u = spec_unit(dir);
    let t = fmul(500_000, u.y + 1_000_000);
    v3_add(v3_scale(1_000_000 - t, white()), v3_scale(t, sky_blue()))
}

/// The color of a ray: the scene's nearest hit over `[0, T_FAR]` shaded
/// from its normal, or the background gradient on a miss.
pub open spec fn spec_ray_color(objs: Seq<SphereV>, r: RayV) -> V3 {
    match scene_hit(objs, r, 0, T_FAR as int) {
        Option::Some(rec) => v3_scale(500_000, v3_add(rec.normal, white())),
        Option::None => spec_background(r.dir),
    }
}

/// Computes the color of a ray against the scene, exactly as
/// [`spec_ray_color`] states: normal shading on the nearest hit, the
/// white-to-sky gradient on a miss.
pub fn ray_color(r: &Ray, world: &HitTableList) -> (c: Vec3)
    requires
        scene_in_range(world@),
        ray_in_range(r@),
        spec_dot(r@.dir, r@.dir) > 0,
    ensures
        c@ == spec_ray_color(world@, r@),
        v3_bounded(c@, COLOR_LIMIT as int),
{
    let ghost cl: int = COORD_LIMIT as int;
    let ghost sc: int = SCALE as int;
    proof {
        assert(cl * cl <= i128::MAX / 2 && cl * sc <= i128::MAX) by (nonlinear_arith)
            requires
                cl == 1_000_000_000_000int,
                sc == 1_000_000int,
        ;
        lemma_dot_fits_from_bounds(r@.dir, r@.dir, cl, cl);
        lemma_dot_self_nonneg(r@.dir);
    }
    let hit_res = world.hit(r, Fp::raw(0), Fp::raw(T_FAR));
    match hit_res {
        Option::Some(rec) => {
            proof {
                lemma_scene_hit_nearest(world@, r@, 0, T_FAR as int);
                let i = choose|i: int|
                    0 <= i < world@.len() && #[trigger] sphere_hit_t(
                        world@[i],
                        r@,
                        0,
                        T_FAR as int,
                    ) == Some(rec@.t) && rec@ == sphere_hit_rec(world@[i], r@, rec@.t);
                lemma_hit_rec_bounds(world@[i], r@, rec@.t);
                assert(500_000 * (2_000_000_000_000_000_000_000_000int + 1_000_000) <= i128::MAX
                    / 2 && (500_000 * (2_000_000_000_000_000_000_000_000int + 1_000_000)) / sc
                    <= 2_000_000_000_000_000_000_000_000int) by (nonlinear_arith)
                    requires
                        sc == 1_000_000int,
                ;
                lemma_scale_fits_from_bounds(
                    500_000,
                    v3_add(rec@.normal, white()),
                    500_000,
                    2_000_000_000_000_000_000_000_000int + 1_000_000,
                );
            }
            let white_v: Vec3 = Vec3::new_val(Fp::raw(SCALE), Fp::raw(SCALE), Fp::raw(SCALE));
            rec.normal.add(white_v).scale(Fp::raw(500_000))
        },
        Option::None => {
            proof {
                let lensq = spec_dot(r@.dir, r@.dir);
                lemma_sqrt_fp_bounds(lensq);
                let ls = crate::fixed::sqrt_fp(lensq);
                assert(lensq * sc >= sc) by (nonlinear_arith)
                    requires
                        lensq >= 1,
                        sc == 1_000_000int,
                ;
                assert(ls != 0) by (nonlinear_arith)
                    requires
                        ls >= 0,
                        (ls + 1) * (ls + 1) > 1_000_000int,
                ;
                assert(spec_unit(r@.dir) == v3_divs(r@.dir, ls));
                lemma_divs_fits_from_bounds(r@.dir, ls, cl);
                assert(500_000 * (cl * sc + 1_000_000) <= i128::MAX / 2 && (500_000 * (cl * sc
                    + 1_000_000)) / sc + 1_000_000 <= i128::MAX / 2 && ((500_000 * (cl * sc
                    + 1_000_000)) / sc + 1_000_000) * 1_000_000 <= i128::MAX / 2 && (((500_000 * (
                cl * sc + 1_000_000)) / sc + 1_000_000) * 1_000_000) / sc * 2
                    <= 2_000_000_000_000_000_000_000_000int) by (nonlinear_arith)
                    requires
                        cl == 1_000_000_000_000int,
                        sc == 1_000_000int,
                ;
            }
            let unit_direction: Vec3 = Vec3::unit_vector(&r.direction());
            let t: Fp = Fp::raw(500_000).mul(unit_direction.y().add(Fp::raw(SCALE)));
            let ghost bt: int = (500_000 * ((COORD_LIMIT as int) * (SCALE as int) + 1_000_000)) / (
            SCALE as int);
            proof {
                lemma_fmul_bound(500_000, spec_unit(r@.dir).y + 1_000_000, 500_000, cl * sc
                    + 1_000_000);
                lemma_scale_fits_from_bounds(1_000_000 - t@, white(), bt + 1_000_000, 1_000_000);
                lemma_scale_fits_from_bounds(t@, sky_blue(), bt + 1_000_000, 1_000_000);
            }
            let white_v: Vec3 = Vec3::new_val(Fp::raw(SCALE), Fp::raw(SCALE), Fp::raw(SCALE));
            let sky_v: Vec3 = Vec3::new_val(Fp::raw(500_000), Fp::raw(700_000), Fp::raw(SCALE));
            white_v.scale(Fp::raw(SCALE).sub(t)).add(sky_v.scale(t))
        },
    }
}

/// The mathematical model of a camera.
pub struct CamV {
    pub origin: V3,
    pub horizontal: V3,
    pub vertical: V3,
    pub lower_left_corner: V3,
}

/// Every camera field component is small enough that a viewport point
/// stays within the geometry's coordinate range.
pub open spec fn cam_in_range(cam: CamV) -> bool {
    &&& v3_bounded(cam.origin, CAM_LIMIT as int)
    &&& v3_bounded(cam.horizontal, CAM_LIMIT as int)
    &&& v3_bounded(cam.vertical, CAM_LIMIT as int)
    &&& v3_bounded(cam.lower_left_corner, CAM_LIMIT as int)
}

/// The standard pinhole layout: origin at zero, the viewport rectangle
/// spanned by `horizontal` and `vertical`, its lower left corner one
/// focal length in front of the origin.
pub open spec fn spec_pinhole(vw: int, vh: int, f: int) -> CamV {
    let origin = v3_zero();
    let horizontal = V3 { x: vw, y: 0, z: 0 };
    let vertical = V3 { x: 0, y: vh, z: 0 };
    let lower_left_corner = v3_sub(
        v3_sub(v3_sub(origin, v3_divs(horizontal, 2_000_000)), v3_divs(vertical, 2_000_000)),
        V3 { x: 0, y: 0, z: f },
    );
    CamV { origin, horizontal, vertical, lower_left_corner }
}

/// The direction of the ray for pixel `(i, j)` of a `w x h` image:
/// `lower_left_corner + u * horizontal + v * vertical - origin` with
/// `u = i / (w - 1)`, `v = j / (h - 1)`.
pub open spec fn spec_pixel_dir(cam: CamV, i: int, j: int, w: int, h: int) -> V3 {
    let u = fdiv(i * (SCALE as int), (w - 1) * (SCALE as int));
    let v = fdiv(j * (SCALE as int), (h - 1) * (SCALE as int));
    v3_sub(
        v3_add(
            v3_add(cam.lower_left_corner, v3_scale(u, cam.horizontal)),
            v3_scale(v, cam.vertical),
        ),
        cam.origin,
    )
}

/// Every pixel of a `w x h` image gets a direction of positive squared
/// length, so the shader's unit vector is defined.
pub open spec fn camera_covers(cam: CamV, w: int, h: int) -> bool {
    forall|i: int, j: int|
        0 <= i < w && 0 <= j < h ==> spec_dot(
            #[trigger] spec_pixel_dir(cam, i, j, w, h),
            spec_pixel_dir(cam, i, j, w, h),
        ) > 0
}

/// A pinhole camera over fixed-point reals.
#[derive(Clone, Copy, PartialEq, Eq, Structural, Debug)]
pub struct Camera {
    pub origin: Vec3,
    pub horizontal: Vec3,
    pub vertical: Vec3,
    pub lower_left_corner: Vec3,
}

impl View for Camera {
    type V = CamV;

    open spec fn view(&self) -> CamV {
        CamV {
            origin: self.origin@,
            horizontal: self.horizontal@,
            vertical: self.vertical@,
            lower_left_corner: self.lower_left_corner@,
        }
    }
}

/// A ray parameter `i / n` scaled to fixed point lies in `[0, 1]`.
proof fn lemma_param_unit(i: int, n: int)
    requires
        1 <= n,
        0 <= i <= n,
    ensures
        0 <= fdiv(i * (SCALE as int), n * (SCALE as int)) <= SCALE as int,
{
    let sc = SCALE as int;
    vstd::arithmetic::mul::lemma_mul_nonnegative(i, sc);
    vstd::arithmetic::mul::lemma_mul_nonnegative(i * sc, sc);
    vstd::arithmetic::mul::lemma_mul_strictly_positive(n, sc);
    lemma_sdiv_pos((i * sc) * sc, n * sc);
    let q = crate::fixed::sdiv((i * sc) * sc, n * sc);
    assert(q <= sc) by (nonlinear_arith)
        requires
            q * (n * sc) <= (i * sc) * sc,
            0 <= i <= n,
            1 <= n,
            sc == 1_000_000int,
            q >= 0,
    ;
}

impl Camera {
    /// Builds the pinhole camera of [`spec_pinhole`] from viewport width,
    /// viewport height, and focal length.
    pub fn pinhole(viewport_width: Fp, viewport_height: Fp, focal_length: Fp) -> (cam: Camera)
        requires
            mag(viewport_width@) <= CAM_INPUT_LIMIT as int,
            mag(viewport_height@) <= CAM_INPUT_LIMIT as int,
            mag(focal_length@) <= CAM_INPUT_LIMIT as int,
        ensures
            cam@ == spec_pinhole(viewport_width@, viewport_height@, focal_length@),
            cam_in_range(cam@),
    {
        let ghost sc: int = SCALE as int;
        let origin: Vec3 = Vec3::new();
        let horizontal: Vec3 = Vec3::new_val(viewport_width, Fp::raw(0), Fp::raw(0));
        let vertical: Vec3 = Vec3::new_val(Fp::raw(0), viewport_height, Fp::raw(0));
        proof {
            assert((CAM_INPUT_LIMIT as int) * sc <= i128::MAX) by (nonlinear_arith)
                requires
                    sc == 1_000_000int,
            ;
            lemma_divs_fits_from_bounds(horizontal@, 2_000_000, CAM_INPUT_LIMIT as int);
            lemma_divs_fits_from_bounds(vertical@, 2_000_000, CAM_INPUT_LIMIT as int);
            lemma_half_shrinks(viewport_width@);
            lemma_half_shrinks(viewport_height@);
            lemma_half_shrinks(0);
        }
        let two: Fp = Fp::from_int(2);
        let lower_left_corner: Vec3 = origin.sub(horizontal.div_scalar(two)).sub(
            vertical.div_scalar(two),
        ).sub(Vec3::new_val(Fp::raw(0), Fp::raw(0), focal_length));
        Camera { origin, horizontal, vertical, lower_left_corner }
    }
}

/// Halving by the fixed-point two never grows a value.
proof fn lemma_half_shrinks(x: int)
    ensures
        mag(fdiv(x, 2_000_000)) <= mag(x),
{
    let sc = SCALE as int;
    lemma_sdiv_pos(x * sc, 2_000_000);
    assert(mag(x * sc) == mag(x) * sc) by (nonlinear_arith)
        requires
            sc == 1_000_000int,
    ;
    lemma_div_is_ordered_by_denominator(mag(x) * sc, sc, 2_000_000);
    lemma_div_multiples_vanish(mag(x), sc);
    assert(sc * mag(x) == mag(x) * sc) by (nonlinear_arith);
}

/// The ray for pixel `(i, j)`: from the camera origin toward the
/// viewport point of [`spec_pixel_dir`].
pub fn pixel_ray(cam: &Camera, i: usize, j: usize, w: usize, h: usize) -> (ray: Ray)
    requires
        cam_in_range(cam@),
        2 <= w <= 10_000,
        2 <= h <= 10_000,
        i < w,
        j < h,
    ensures
        ray@.orig == cam@.origin,
        ray@.dir == spec_pixel_dir(cam@, i as int, j as int, w as int, h as int),
        ray_in_range(ray@),
{
    let ghost sc: int = SCALE as int;
    let ghost cam4: int = CAM_LIMIT as int;
    let u: Fp = Fp::raw((i as i128) * SCALE).div(Fp::raw(((w - 1) as i128) * SCALE));
    let v: Fp = Fp::raw((j as i128) * SCALE).div(Fp::raw(((h - 1) as i128) * SCALE));
    proof {
        lemma_param_unit(i as int, (w - 1) as int);
        lemma_param_unit(j as int, (h - 1) as int);
        assert(sc * cam4 <= i128::MAX / 2 && (sc * cam4) / sc == cam4) by (nonlinear_arith)
            requires
                sc == 1_000_000int,
                cam4 == 250_000_000_000int,
        ;
        lemma_scale_fits_from_bounds(u@, cam@.horizontal, sc, cam4);
        lemma_scale_fits_from_bounds(v@, cam@.vertical, sc, cam4);
    }
    let dir: Vec3 = cam.lower_left_corner.add(cam.horizontal.scale(u)).add(
        cam.vertical.scale(v),
    ).sub(cam.origin);
    Ray::new_val(&cam.origin, &dir)
}

/// The view of a level triple as mathematical integers.
pub open spec fn pix_view(t: (i32, i32, i32)) -> (int, int, int) {
    (t.0 as int, t.1 as int, t.2 as int)
}

/// The level triple of pixel `p` in raster order: row `h - 1 - p / w`
/// (top row first), column `p % w` (left to right).
pub open spec fn spec_pixel_levels(
    objs: Seq<SphereV>,
    cam: CamV,
    w: int,
    h: int,
    p: int,
) -> (int, int, int) {
    let i = p % w;
    let j = h - 1 - p / w;
    let dir = spec_pixel_dir(cam, i, j, w, h);
    let col = spec_ray_color(objs, RayV { orig: cam.origin, dir: dir });
    (color_level_sat(col.x), color_level_sat(col.y), color_level_sat(col.z))
}

/// Renders the scene: one level triple per pixel, rows from the top of
/// the image down, columns left to right, each pixel exactly the value
/// of [`spec_pixel_levels`].
pub fn render(world: &HitTableList, cam: &Camera, image_width: usize, image_height: usize) -> (pixels:
    Vec<(i32, i32, i32)>)
    requires
        scene_in_range(world@),
        cam_in_range(cam@),
        camera_covers(cam@, image_width as int, image_height as int),
        2 <= image_width <= 10_000,
        2 <= image_height <= 10_000,
    ensures
        pixels@.len() == image_width * image_height,
        forall|p: int|
            0 <= p < pixels@.len() ==> pix_view(#[trigger] pixels@[p]) == spec_pixel_levels(
                world@,
                cam@,
                image_width as int,
                image_height as int,
                p,
            ),
{
    let w: usize = image_width;
    let h: usize = image_height;
    let mut pixels: Vec<(i32, i32, i32)> = Vec::new();
    let mut jj: usize = 0;
    while jj < h
        invariant
            scene_in_range(world@),
            cam_in_range(cam@),
            camera_covers(cam@, w as int, h as int),
            2 <= w <= 10_000,
            2 <= h <= 10_000,
            jj <= h,
            pixels@.len() == jj * w,
            forall|p: int|
                0 <= p < pixels@.len() ==> pix_view(#[trigger] pixels@[p]) == spec_pixel_levels(
                    world@,
                    cam@,
                    w as int,
                    h as int,
                    p,
                ),
        decreases h - jj,
    {
        let j: usize = h - 1 - jj;
        let mut i: usize = 0;
        proof {
            assert(jj * w + w == (jj + 1) * w && jj * w <= 10_000 * 10_000 && (jj + 1) * w
                <= 10_000 * 10_000) by (nonlinear_arith)
                requires
                    jj < h,
                    2 <= w <= 10_000,
                    2 <= h <= 10_000,
            ;
        }
        while i < w
            invariant
                scene_in_range(world@),
                cam_in_range(cam@),
                camera_covers(cam@, w as int, h as int),
                2 <= w <= 10_000,
                2 <= h <= 10_000,
                jj < h,
                j == h - 1 - jj,
                i <= w,
                pixels@.len() == jj * w + i,
                jj * w + w <= 10_000 * 10_000,
                forall|p: int|
                    0 <= p < pixels@.len() ==> pix_view(#[trigger] pixels@[p])
                        == spec_pixel_levels(world@, cam@, w as int, h as int, p),
            decreases w - i,
        {
            let ray: Ray = pixel_ray(cam, i, j, w, h);
            proof {
                assert(spec_dot(
                    spec_pixel_dir(cam@, i as int, j as int, w as int, h as int),
                    spec_pixel_dir(cam@, i as int, j as int, w as int, h as int),
                ) > 0);
                assert((COLOR_LIMIT as int) * (LEVEL_NUM as int) <= i128::MAX)
                    by (nonlinear_arith);
            }
            let col: Vec3 = ray_color(&ray, world);
            proof {
                lemma_color_fits_from_bounds(col@, COLOR_LIMIT as int);
            }
            let levels: (i32, i32, i32) = color_levels(&col);
            proof {
                let p: int = jj * w + i;
                lemma_fundamental_div_mod_converse_div(p, w as int, jj as int, i as int);
                lemma_fundamental_div_mod_converse_mod(p, w as int, jj as int, i as int);
            }
            pixels.push(levels);
            i = i + 1;
        }
        jj = jj + 1;
    }
    proof {
        assert(h * w == (h as int) * (w as int));
        assert(pixels@.len() == (w as int) * (h as int)) by (nonlinear_arith)
            requires
                pixels@.len() == (h as int) * (w as int),
        ;
    }
    pixels
}

/// Rendering is a pure function of scene and camera: any two pixel
/// streams that both satisfy the renderer's contract for the same scene,
/// camera, and dimensions are identical.
pub proof fn lemma_render_deterministic(
    objs: Seq<SphereV>,
    cam: CamV,
    w: int,
    h: int,
    p1: Seq<(i32, i32, i32)>,
    p2: Seq<(i32, i32, i32)>,
)
    requires
        p1.len() == w * h,
        p2.len() == w * h,
        forall|p: int|
            0 <= p < p1.len() ==> pix_view(#[trigger] p1[p]) == spec_pixel_levels(
                objs,
                cam,
                w,
                h,
                p,
            ),
        forall|p: int|
            0 <= p < p2.len() ==> pix_view(#[trigger] p2[p]) == spec_pixel_levels(
                objs,
                cam,
                w,
                h,
                p,
            ),
    ensures
        p1 == p2,
{
    assert forall|p: int| 0 <= p < p1.len() implies p1[p] == p2[p] by {
        assert(pix_view(p1[p]) == pix_view(p2[p]));
    }
    assert(p1 =~= p2);
}

/// Directions from a pinhole camera with a forward focal length always
/// have positive squared length: their depth component is the negated
/// focal length.
pub proof fn lemma_pinhole_covers(vw: int, vh: int, f: int, w: int, h: int)
    requires
        f >= 1000,
    ensures
        camera_covers(spec_pinhole(vw, vh, f), w, h),
{
    let cam = spec_pinhole(vw, vh, f);
    let sc = SCALE as int;
    assert forall|i: int, j: int| 0 <= i < w && 0 <= j < h implies spec_dot(
        #[trigger] spec_pixel_dir(cam, i, j, w, h),
        spec_pixel_dir(cam, i, j, w, h),
    ) > 0 by {
        let dir = spec_pixel_dir(cam, i, j, w, h);
        let u = fdiv(i * sc, (w - 1) * sc);
        let v = fdiv(j * sc, (h - 1) * sc);
        assert(fmul(u, 0) == 0 && fmul(v, 0) == 0 && fdiv(0, 2_000_000) == 0);
        assert(dir.z == -f);
        lemma_fmul_self_nonneg(dir.x);
        lemma_fmul_self_nonneg(dir.y);
        assert(f * f >= 1_000_000) by (nonlinear_arith)
            requires
                f >= 1000,
        ;
        assert(-f * -f == f * f) by (nonlinear_arith);
        lemma_div_is_ordered(1_000_000, f * f, 1_000_000);
        assert(fmul(dir.z, dir.z) >= 1);
    }
}

/// The fixed two-sphere scene: a unit-scale sphere in front of the
/// camera and a large ground sphere below it.
pub open spec fn two_sphere_scene_spec() -> Seq<SphereV> {
    seq![
        SphereV { center: V3 { x: 0, y: 0, z: -1_000_000 }, radius: 500_000 },
        SphereV { center: V3 { x: 0, y: -100_500_000, z: -1_000_000 }, radius: 100_000_000 },
    ]
}

/// Builds the fixed two-sphere scene.
pub fn two_sphere_scene() -> (world: HitTableList)
    ensures
        world@ == two_sphere_scene_spec(),
        scene_in_range(world@),
{
    let mut world: HitTableList = HitTableList::new();
    world.add(
        Sphere::new_val(
            Vec3::new_val(Fp::raw(0), Fp::raw(0), Fp::raw(-1_000_000)),
            Fp::raw(500_000),
        ),
    );
    world.add(
        Sphere::new_val(
            Vec3::new_val(Fp::raw(0), Fp::raw(-100_500_000), Fp::raw(-1_000_000)),
            Fp::raw(100_000_000),
        ),
    );
    proof {
        assert(world@ =~= two_sphere_scene_spec());
    }
    world
}

/// The standard camera: a 16:9 viewport of height two, one focal length
/// in front of the origin.
pub open spec fn standard_camera_spec() -> CamV {
    spec_pinhole(fmul(fdiv(16_000_000, 9_000_000), 2_000_000), 2_000_000, 1_000_000)
}

/// Builds the standard camera.
pub fn standard_camera() -> (cam: Camera)
    ensures
        cam@ == standard_camera_spec(),
        cam_in_range(cam@),
{
    let aspect_ratio: Fp = Fp::from_int(16).div(Fp::from_int(9));
    proof {
        assert(fdiv(16_000_000, 9_000_000) == 1_777_777) by (nonlinear_arith);
        assert(fmul(1_777_777, 2_000_000) == 3_555_554) by (nonlinear_arith);
    }
    let viewport_height: Fp = Fp::from_int(2);
    let viewport_width: Fp = aspect_ratio.mul(viewport_height);
    Camera::pinhole(viewport_width, viewport_height, Fp::from_int(1))
}

/// Renders the fixed two-sphere scene with the standard camera: the
/// whole image is pinned pixel by pixel, so repeated runs agree.
pub fn render_two_sphere_scene(image_width: usize, image_height: usize) -> (pixels: Vec<
    (i32, i32, i32),
>)
    requires
        2 <= image_width <= 10_000,
        2 <= image_height <= 10_000,
    ensures
        pixels@.len() == image_width * image_height,
        forall|p: int|
            0 <= p < pixels@.len() ==> pix_view(#[trigger] pixels@[p]) == spec_pixel_levels(
                two_sphere_scene_spec(),
                standard_camera_spec(),
                image_width as int,
                image_height as int,
                p,
            ),
{
    let world: HitTableList = two_sphere_scene();
    let cam: Camera = standard_camera();
    proof {
        lemma_pinhole_covers(
            fmul(fdiv(16_000_000, 9_000_000), 2_000_000),
            2_000_000,
            1_000_000,
            image_width as int,
            image_height as int,
        );
    }
    render(&world, &cam, image_width, image_height)
}

} // verus!
