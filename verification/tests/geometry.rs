use raytracer::fixed::Fp;
use raytracer::vec3::Vec3;
use raytracer::ray::Ray;
use raytracer::hit::HitRecord;
use raytracer::sphere::Sphere;
use raytracer::scene::HitTableList;
use raytracer::camera::T_FAR;

fn v(x: i128, y: i128, z: i128) -> Vec3 {
    Vec3::new_val(Fp::raw(x), Fp::raw(y), Fp::raw(z))
}

#[test]
fn ray_at_parameter() {
    let r = Ray::new_val(&v(1_000_000, 2_000_000, 3_000_000), &v(1_000_000, 1_000_000, 1_000_000));
    assert_eq!(r.origin().x.v, 1_000_000);
    assert_eq!(r.direction().z.v, 1_000_000);
    let p = r.at(Fp::from_int(2));
    assert_eq!((p.x.v, p.y.v, p.z.v), (3_000_000, 4_000_000, 5_000_000));
}

#[test]
fn face_normal_orientation() {
    let mut rec = HitRecord::new();
    let toward = Ray::new_val(&v(0, 0, 0), &v(0, 0, -1_000_000));
    let outward = v(0, 0, 1_000_000);
    rec.set_face_normal(&toward, &outward);
    assert!(rec.front_face);
    assert_eq!(rec.normal.z.v, 1_000_000);
    // a ray leaving the surface from inside sees the flipped normal
    let away = Ray::new_val(&v(0, 0, 0), &v(0, 0, 1_000_000));
    rec.set_face_normal(&away, &outward);
    assert!(!rec.front_face);
    assert_eq!(rec.normal.z.v, -1_000_000);
}

#[test]
fn ray_from_center_always_hits() {
    let s = Sphere::new_val(v(1_000_000, 2_000_000, 3_000_000), Fp::raw(750_000));
    let r = Ray::new_val(&v(1_000_000, 2_000_000, 3_000_000), &v(600_000, 800_000, 0));
    let hit = s.hit(&r, Fp::raw(0), Fp::raw(T_FAR));
    assert!(hit.is_some());
    // the ray starts inside, so it meets the back face
    assert!(!hit.unwrap().front_face);
}

#[test]
fn head_on_hit_enters_at_half() {
    let s = Sphere::new_val(v(0, 0, -1_000_000), Fp::raw(500_000));
    let r = Ray::new_val(&v(0, 0, 0), &v(0, 0, -1_000_000));
    let rec = s.hit(&r, Fp::raw(0), Fp::raw(T_FAR)).unwrap();
    assert_eq!(rec.t.v, 500_000);
    assert_eq!((rec.p.x.v, rec.p.y.v, rec.p.z.v), (0, 0, -500_000));
    assert_eq!((rec.normal.x.v, rec.normal.y.v, rec.normal.z.v), (0, 0, 1_000_000));
    assert!(rec.front_face);
}

#[test]
fn interval_excludes_hit() {
    let s = Sphere::new_val(v(0, 0, -1_000_000), Fp::raw(500_000));
    let r = Ray::new_val(&v(0, 0, 0), &v(0, 0, -1_000_000));
    // both roots (0.5 and 1.5) lie beyond the narrow interval
    assert!(s.hit(&r, Fp::raw(0), Fp::raw(400_000)).is_none());
    // the interval catches only the far root
    let rec = s.hit(&r, Fp::raw(600_000), Fp::raw(T_FAR)).unwrap();
    assert_eq!(rec.t.v, 1_500_000);
    assert!(!rec.front_face);
}

#[test]
fn miss_reports_none() {
    let s = Sphere::new_val(v(0, 5_000_000, -1_000_000), Fp::raw(500_000));
    let r = Ray::new_val(&v(0, 0, 0), &v(0, 0, -1_000_000));
    assert!(s.hit(&r, Fp::raw(0), Fp::raw(T_FAR)).is_none());
}

#[test]
fn scene_edits() {
    let s = Sphere::new_val(v(0, 0, -2_000_000), Fp::raw(500_000));
    let mut world = HitTableList::new_val(s);
    assert_eq!(world.objects.len(), 1);
    world.add(Sphere::new_val(v(0, 0, -4_000_000), Fp::raw(500_000)));
    assert_eq!(world.objects.len(), 2);
    world.clear();
    assert_eq!(world.objects.len(), 0);
}

#[test]
fn nearest_of_two_overlapping_spheres() {
    // both spheres sit on the ray; they enter at t = 1.5 and t = 3.5
    let near = Sphere::new_val(v(0, 0, -2_000_000), Fp::raw(500_000));
    let far = Sphere::new_val(v(0, 0, -4_000_000), Fp::raw(500_000));
    let r = Ray::new_val(&v(0, 0, 0), &v(0, 0, -1_000_000));

    let mut world = HitTableList::new();
    world.add(near);
    world.add(far);
    let rec = world.hit(&r, Fp::raw(0), Fp::raw(T_FAR)).unwrap();
    assert_eq!(rec.t.v, 1_500_000);

    // insertion order does not change the winner
    let mut reversed = HitTableList::new();
    reversed.add(far);
    reversed.add(near);
    let rec2 = reversed.hit(&r, Fp::raw(0), Fp::raw(T_FAR)).unwrap();
    assert_eq!(rec2.t.v, 1_500_000);
    assert_eq!(rec2.normal.z.v, 1_000_000);
}

#[test]
fn empty_scene_misses() {
    let world = HitTableList::new();
    let r = Ray::new_val(&v(0, 0, 0), &v(0, 0, -1_000_000));
    assert!(world.hit(&r, Fp::raw(0), Fp::raw(T_FAR)).is_none());
}
