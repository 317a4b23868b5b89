use raytracer::fixed::Fp;
use raytracer::vec3::Vec3;
use raytracer::ray::Ray;
use raytracer::scene::HitTableList;
use raytracer::sphere::Sphere;
use raytracer::color::color_levels;
use raytracer::camera::{ray_color, render, render_two_sphere_scene, standard_camera,
    two_sphere_scene, Camera};

fn v(x: i128, y: i128, z: i128) -> Vec3 {
    Vec3::new_val(Fp::raw(x), Fp::raw(y), Fp::raw(z))
}

#[test]
fn background_gradient_sideways() {
    // unit direction (1, 0, 0): t = 0.5, color = 0.5*white + 0.5*sky
    let world = HitTableList::new();
    let r = Ray::new_val(&v(0, 0, 0), &v(1_000_000, 0, 0));
    let c = ray_color(&r, &world);
    assert_eq!((c.x.v, c.y.v, c.z.v), (750_000, 850_000, 1_000_000));
}

#[test]
fn background_gradient_straight_up() {
    // unit direction (0, 1, 0): t = 1, the sky color exactly
    let world = HitTableList::new();
    let r = Ray::new_val(&v(0, 0, 0), &v(0, 1_000_000, 0));
    let c = ray_color(&r, &world);
    assert_eq!((c.x.v, c.y.v, c.z.v), (500_000, 700_000, 1_000_000));
}

#[test]
fn background_gradient_three_quarters() {
    // |(0, 1, -1732051)| = 2 exactly in fixed point, so t = 0.75 and the
    // blend is 0.25*white + 0.75*sky
    let world = HitTableList::new();
    let r = Ray::new_val(&v(0, 0, 0), &v(0, 1_000_000, -1_732_051));
    let c = ray_color(&r, &world);
    assert_eq!((c.x.v, c.y.v, c.z.v), (625_000, 775_000, 1_000_000));
}

#[test]
fn hit_shades_from_normal() {
    // head-on hit of the unit sphere: normal (0, 0, 1), color 0.5*(n + 1)
    let mut world = HitTableList::new();
    world.add(Sphere::new_val(v(0, 0, -1_000_000), Fp::raw(500_000)));
    let r = Ray::new_val(&v(0, 0, 0), &v(0, 0, -1_000_000));
    let c = ray_color(&r, &world);
    assert_eq!((c.x.v, c.y.v, c.z.v), (500_000, 500_000, 1_000_000));
}

#[test]
fn levels_of_sky_color() {
    // floor(255.999 * 0.5), floor(255.999 * 0.7), floor(255.999 * 1.0)
    let c = v(500_000, 700_000, 1_000_000);
    assert_eq!(color_levels(&c), (127, 179, 255));
}

#[test]
fn levels_floor_negative_components() {
    // floor is not truncation: a slightly negative component maps to -1
    let c = v(-1_000, 0, 999_999);
    assert_eq!(color_levels(&c), (-1, 0, 255));
}

#[test]
fn levels_saturate_at_integer_bounds() {
    let c = v(100_000_000_000_000_000, -100_000_000_000_000_000, 0);
    assert_eq!(color_levels(&c), (i32::MAX, i32::MIN, 0));
}

#[test]
fn renderer_is_deterministic() {
    let first = render_two_sphere_scene(400, 225);
    let second = render_two_sphere_scene(400, 225);
    assert_eq!(first.len(), 400 * 225);
    assert_eq!(first, second);
}

#[test]
fn render_matches_explicit_scene_and_camera() {
    let world = two_sphere_scene();
    let cam = standard_camera();
    let direct = render(&world, &cam, 40, 22);
    let packaged = render_two_sphere_scene(40, 22);
    assert_eq!(direct, packaged);
}

#[test]
fn top_rows_are_sky_bottom_rows_are_ground() {
    let w = 40;
    let h = 22;
    let pixels = render_two_sphere_scene(w, h);
    assert_eq!(pixels.len(), w * h);
    // the first emitted row is the top of the image: sky at the corners,
    // and the background's blue channel is exactly one
    let top_left = pixels[0];
    assert_eq!(top_left.2, 255);
    let top_right = pixels[w - 1];
    assert_eq!(top_right.2, 255);
    // the bottom rows look down at the ground sphere, not at the sky
    let bottom_left = pixels[(h - 1) * w];
    assert!(bottom_left.2 < 255);
}

#[test]
fn camera_geometry() {
    let cam = standard_camera();
    assert_eq!(cam.origin.x.v, 0);
    assert_eq!(cam.horizontal.x.v, 3_555_554);
    assert_eq!(cam.vertical.y.v, 2_000_000);
    // lower left corner: (-vw/2, -vh/2, -focal)
    assert_eq!(cam.lower_left_corner.x.v, -1_777_777);
    assert_eq!(cam.lower_left_corner.y.v, -1_000_000);
    assert_eq!(cam.lower_left_corner.z.v, -1_000_000);
}

#[test]
fn pinhole_camera_from_parameters() {
    let cam = Camera::pinhole(Fp::from_int(4), Fp::from_int(2), Fp::from_int(1));
    assert_eq!(cam.horizontal.x.v, 4_000_000);
    assert_eq!(cam.vertical.y.v, 2_000_000);
    assert_eq!(cam.lower_left_corner.x.v, -2_000_000);
    assert_eq!(cam.lower_left_corner.y.v, -1_000_000);
    assert_eq!(cam.lower_left_corner.z.v, -1_000_000);
}
