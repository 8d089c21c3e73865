use raytracer::aabb::AABB;
use raytracer::hitable::{epsilon, EPSILON_BITS};
use raytracer::plane::{Meeting, Plane};
use raytracer::ray::Ray3;
use raytracer::scalar::{Scalar, ONE_BITS};
use raytracer::sphere::{MovingSphere, Roots, Sphere};
use raytracer::texture::{ChequeredTexture, ConstantTexture};
use raytracer::triangle::{Crossing, NormalTriangle, Triangle};
use raytracer::vector::{Point3, Vector3};
use std::time::{Duration, Instant};

fn scalar(x: f32) -> Scalar {
    Scalar::from_bits(x.to_bits()).unwrap()
}

fn maybe(x: f32) -> Option<Scalar> {
    Scalar::from_bits(x.to_bits())
}

fn number(s: Scalar) -> f32 {
    f32::from_bits(s.to_bits())
}

fn point(p: [f32; 3]) -> Point3 {
    Point3::new(scalar(p[0]), scalar(p[1]), scalar(p[2]))
}

fn vector(v: [f32; 3]) -> Vector3 {
    Vector3::new(scalar(v[0]), scalar(v[1]), scalar(v[2]))
}

fn coords(p: Point3) -> [f32; 3] {
    [number(p.x), number(p.y), number(p.z)]
}

fn parts(v: Vector3) -> [f32; 3] {
    [number(v.x), number(v.y), number(v.z)]
}

fn sub(a: [f32; 3], b: [f32; 3]) -> [f32; 3] {
    [a[0] - b[0], a[1] - b[1], a[2] - b[2]]
}

fn dot(a: [f32; 3], b: [f32; 3]) -> f32 {
    a[0] * b[0] + a[1] * b[1] + a[2] * b[2]
}

fn cross_product(a: [f32; 3], b: [f32; 3]) -> [f32; 3] {
    [a[1] * b[2] - a[2] * b[1], a[2] * b[0] - a[0] * b[2], a[0] * b[1] - a[1] * b[0]]
}

fn ray(origin: [f32; 3], direction: [f32; 3]) -> Ray3 {
    Ray3::new(point(origin), vector(direction), Instant::now())
}

fn point_at(r: &Ray3, t: Scalar) -> Point3 {
    let (o, d, t) = (coords(r.origin), parts(r.direction), number(t));
    point([o[0] + d[0] * t, o[1] + d[1] * t, o[2] + d[2] * t])
}

fn roots(center: Point3, radius: Scalar, r: &Ray3) -> Roots {
    let oc = sub(coords(r.origin), coords(center));
    let d = parts(r.direction);
    let a = dot(d, d);
    let b = dot(oc, d);
    let c = dot(oc, oc) - number(radius) * number(radius);
    let discriminant = b * b - a * c;
    Roots {
        discriminant: maybe(discriminant),
        near: maybe((-b - discriminant.sqrt()) / a),
        far: maybe((-b + discriminant.sqrt()) / a),
    }
}

fn surface(center: Point3, radius: Scalar, r: &Ray3, t: Scalar) -> (Point3, Vector3) {
    let p = point_at(r, t);
    let n = sub(coords(p), coords(center));
    let radius = number(radius);
    (p, vector([n[0] / radius, n[1] / radius, n[2] / radius]))
}

fn extent(center: Point3, radius: Scalar) -> Option<AABB> {
    let (c, r) = (coords(center), number(radius));
    Some(AABB::new(point([c[0] - r, c[1] - r, c[2] - r]), point([c[0] + r, c[1] + r, c[2] + r])))
}

fn between(a: Point3, b: Point3, start: Instant, span: Duration, at: Instant) -> Point3 {
    let fraction = at.duration_since(start).as_millis() as f32 / span.as_millis() as f32;
    let (a, b) = (coords(a), coords(b));
    point([
        a[0] + fraction * (b[0] - a[0]),
        a[1] + fraction * (b[1] - a[1]),
        a[2] + fraction * (b[2] - a[2]),
    ])
}

fn cross(vertices: &[Point3; 3], r: &Ray3) -> Crossing {
    let v0 = coords(vertices[0]);
    let e1 = sub(coords(vertices[1]), v0);
    let e2 = sub(coords(vertices[2]), v0);
    let dir = parts(r.direction);
    let pvec = cross_product(dir, e2);
    let det = dot(e1, pvec);
    let inv_det = 1.0 / det;
    let tvec = sub(coords(r.origin), v0);
    let u = dot(tvec, pvec) * inv_det;
    let qvec = cross_product(tvec, e1);
    let v = dot(dir, qvec) * inv_det;
    let t = dot(e2, qvec) * inv_det;
    Crossing { det: maybe(det), u: maybe(u), v: maybe(v), u_plus_v: maybe(u + v), t: maybe(t) }
}

fn normal_of(vertices: &[Point3; 3]) -> Vector3 {
    let v0 = coords(vertices[0]);
    let n = cross_product(sub(coords(vertices[2]), v0), sub(coords(vertices[1]), v0));
    let length = dot(n, n).sqrt();
    vector([n[0] / length, n[1] / length, n[2] / length])
}

fn blend(normals: &[Vector3; 3], u: Option<Scalar>, v: Option<Scalar>) -> Vector3 {
    let (u, v) = (number(u.unwrap()), number(v.unwrap()));
    let (n0, n1, n2) = (parts(normals[0]), parts(normals[1]), parts(normals[2]));
    let w = 1.0 - u - v;
    vector([
        u * n1[0] + v * n2[0] + w * n0[0],
        u * n1[1] + v * n2[1] + w * n0[1],
        u * n1[2] + v * n2[2] + w * n0[2],
    ])
}

fn meet(center: Point3, normal: Vector3, r: &Ray3) -> Meeting {
    let n = parts(normal);
    let along = dot(n, parts(r.direction));
    let t = dot(sub(coords(center), coords(r.origin)), n) / along;
    Meeting { dot: maybe(along), t: maybe(t) }
}

fn corner() -> [Point3; 3] {
    [point([0.0, 0.0, 0.0]), point([1.0, 0.0, 0.0]), point([0.0, 1.0, 0.0])]
}

fn near() -> Scalar {
    scalar(0.001)
}

fn far() -> Scalar {
    scalar(f32::MAX)
}

#[test]
fn constants_are_the_numbers_they_stand_for() {
    assert_eq!(EPSILON_BITS, 0.00001f32.to_bits());
    assert_eq!(ONE_BITS, 1.0f32.to_bits());
    assert_eq!(number(epsilon()), 0.00001);
    assert_eq!(number(Scalar::one()), 1.0);
}

#[test]
fn unit_sphere_is_hit_at_four_with_the_normal_towards_the_ray() {
    let sphere = Sphere::new(point([0.0, 0.0, -5.0]), scalar(1.0), 7u8);
    let r = ray([0.0, 0.0, 0.0], [0.0, 0.0, -1.0]);
    let rec = sphere.hit(&r, near(), far(), &roots, &surface).unwrap();
    assert_eq!(number(rec.t), 4.0);
    assert_eq!(rec.normal, vector([0.0, 0.0, 1.0]));
    assert_eq!(rec.p, point([0.0, 0.0, -4.0]));
    assert_eq!(rec.material, Some(7));
}

#[test]
fn sphere_is_hit_at_the_far_root_where_the_near_one_does_not_count() {
    let sphere = Sphere::new(point([0.0, 0.0, -5.0]), scalar(1.0), 7u8);
    let r = ray([0.0, 0.0, 0.0], [0.0, 0.0, -1.0]);
    let rec = sphere.hit(&r, scalar(4.0), far(), &roots, &surface).unwrap();
    assert_eq!(number(rec.t), 6.0);
    assert_eq!(rec.normal, vector([0.0, 0.0, -1.0]));
    assert!(sphere.hit(&r, near(), scalar(4.0), &roots, &surface).is_none());
    assert!(sphere.hit(&r, scalar(4.5), scalar(6.0), &roots, &surface).is_none());
    assert!(sphere.hit(&r, scalar(6.0), far(), &roots, &surface).is_none());
}

#[test]
fn sphere_beside_the_ray_is_missed() {
    let sphere = Sphere::new(point([3.0, 0.0, -5.0]), scalar(1.0), 7u8);
    let r = ray([0.0, 0.0, 0.0], [0.0, 0.0, -1.0]);
    assert!(sphere.hit(&r, near(), far(), &roots, &surface).is_none());
    // A ray that only touches the sphere has no discriminant above zero.
    let grazed = Sphere::new(point([1.0, 0.0, -5.0]), scalar(1.0), 7u8);
    assert!(grazed.hit(&r, near(), far(), &roots, &surface).is_none());
}

#[test]
fn roots_pick_their_crossing() {
    let both = Roots { discriminant: maybe(1.0), near: maybe(2.0), far: maybe(4.0) };
    assert_eq!(both.crossing(near(), far()), Some(scalar(2.0)));
    assert_eq!(both.crossing(scalar(2.0), far()), Some(scalar(4.0)));
    assert_eq!(both.crossing(scalar(4.0), far()), None);
    let none = Roots { discriminant: maybe(0.0), near: maybe(2.0), far: maybe(4.0) };
    assert_eq!(none.crossing(near(), far()), None);
    let negative = Roots { discriminant: maybe(-1.0), near: None, far: None };
    assert_eq!(negative.crossing(near(), far()), None);
    let no_number = Roots { discriminant: None, near: maybe(2.0), far: maybe(4.0) };
    assert_eq!(no_number.crossing(near(), far()), None);
    let far_only = Roots { discriminant: maybe(1.0), near: None, far: maybe(4.0) };
    assert_eq!(far_only.crossing(near(), far()), Some(scalar(4.0)));
}

#[test]
fn sphere_box_is_what_the_extent_gives() {
    let sphere = Sphere::new(point([0.0, 1.0, -5.0]), scalar(2.0), 7u8);
    assert_eq!(
        sphere.bounding_box(&extent),
        Some(AABB::new(point([-2.0, -1.0, -7.0]), point([2.0, 3.0, -3.0])))
    );
}

#[test]
fn moving_sphere_is_where_the_moment_puts_it() {
    let start = Instant::now();
    let sphere = MovingSphere::new(
        point([0.0, 0.0, -5.0]),
        point([0.0, 4.0, -5.0]),
        start,
        Duration::from_millis(1000),
        scalar(1.0),
        3u8,
    );
    assert_eq!(sphere.center_at(start, &between), point([0.0, 0.0, -5.0]));
    assert_eq!(sphere.center_at(start + Duration::from_millis(500), &between), point([0.0, 2.0, -5.0]));
    // Past the end of the movement the sphere moves on.
    assert_eq!(sphere.center_at(start + Duration::from_millis(2000), &between), point([0.0, 8.0, -5.0]));

    let at_start = Ray3::new(point([0.0, 0.0, 0.0]), vector([0.0, 0.0, -1.0]), start);
    let rec = sphere.hit(&at_start, near(), far(), &between, &roots, &surface).unwrap();
    assert_eq!(number(rec.t), 4.0);
    assert_eq!(rec.material, Some(3));
    let later = Ray3::new(
        point([0.0, 0.0, 0.0]),
        vector([0.0, 0.0, -1.0]),
        start + Duration::from_millis(500),
    );
    assert!(sphere.hit(&later, near(), far(), &between, &roots, &surface).is_none());
    let raised = Ray3::new(
        point([0.0, 2.0, 0.0]),
        vector([0.0, 0.0, -1.0]),
        start + Duration::from_millis(500),
    );
    let rec = sphere.hit(&raised, near(), far(), &between, &roots, &surface).unwrap();
    assert_eq!(number(rec.t), 4.0);
}

#[test]
fn moving_sphere_box_covers_both_ends() {
    let sphere = MovingSphere::new(
        point([0.0, 0.0, -5.0]),
        point([0.0, 4.0, -5.0]),
        Instant::now(),
        Duration::from_millis(1000),
        scalar(1.0),
        3u8,
    );
    assert_eq!(
        sphere.bounding_box(&extent),
        Some(AABB::new(point([-1.0, -1.0, -6.0]), point([1.0, 5.0, -4.0])))
    );
    let no_box = |_: Point3, _: Scalar| None;
    assert_eq!(sphere.bounding_box(&no_box), None);
}

#[test]
fn triangle_is_hit_inside() {
    let triangle = Triangle::new(corner(), 5u8, &normal_of);
    assert_eq!(triangle.surface_normal, vector([0.0, 0.0, -1.0]));
    let r = ray([0.25, 0.25, 1.0], [0.0, 0.0, -1.0]);
    let found = cross(&corner(), &r);
    let (u, v) = (number(found.u.unwrap()), number(found.v.unwrap()));
    assert!(u >= 0.0 && v >= 0.0 && u + v <= 1.0);
    assert_eq!((u, v), (0.25, 0.25));
    assert_eq!(found.hit(near(), far()), Some(scalar(1.0)));
    let rec = triangle.hit(&r, near(), far(), &cross, &point_at).unwrap();
    assert_eq!(number(rec.t), 1.0);
    assert_eq!(rec.p, point([0.25, 0.25, 0.0]));
    assert_eq!(rec.normal, triangle.surface_normal);
    assert_eq!(rec.material, Some(5));
}

#[test]
fn triangle_is_missed_outside() {
    let triangle = Triangle::new(corner(), 5u8, &normal_of);
    let r = ray([2.0, 2.0, 1.0], [0.0, 0.0, -1.0]);
    assert!(triangle.hit(&r, near(), far(), &cross, &point_at).is_none());
    // Outside on each side.
    for origin in [[-0.25, 0.25, 1.0], [0.25, -0.25, 1.0], [0.75, 0.75, 1.0]] {
        let r = ray(origin, [0.0, 0.0, -1.0]);
        assert!(triangle.hit(&r, near(), far(), &cross, &point_at).is_none());
    }
    assert_eq!(triangle.bounding_box(), None);
}

#[test]
fn triangle_is_missed_along_its_plane_and_behind_the_ray() {
    let triangle = Triangle::new(corner(), 5u8, &normal_of);
    let along = ray([-1.0, 0.25, 0.0], [1.0, 0.0, 0.0]);
    assert!(triangle.hit(&along, near(), far(), &cross, &point_at).is_none());
    let away = ray([0.25, 0.25, 1.0], [0.0, 0.0, 1.0]);
    assert!(triangle.hit(&away, near(), far(), &cross, &point_at).is_none());
    let short = ray([0.25, 0.25, 1.0], [0.0, 0.0, -1.0]);
    assert!(triangle.hit(&short, near(), scalar(1.0), &cross, &point_at).is_none());
    assert!(triangle.hit(&short, scalar(1.0), far(), &cross, &point_at).is_none());
}

#[test]
fn crossing_decides_by_its_numbers() {
    let good = Crossing { det: maybe(1.0), u: maybe(0.25), v: maybe(0.5), u_plus_v: maybe(0.75), t: maybe(2.0) };
    assert_eq!(good.hit(near(), far()), Some(scalar(2.0)));
    let flat = Crossing { det: maybe(0.000001), ..good };
    assert_eq!(flat.hit(near(), far()), None);
    let flat = Crossing { det: maybe(-0.000001), ..good };
    assert_eq!(flat.hit(near(), far()), None);
    let at_the_edge = Crossing { det: maybe(0.00001), ..good };
    assert_eq!(at_the_edge.hit(near(), far()), Some(scalar(2.0)));
    let turned = Crossing { det: maybe(-1.0), ..good };
    assert_eq!(turned.hit(near(), far()), Some(scalar(2.0)));
    let left = Crossing { u: maybe(-0.5), ..good };
    assert_eq!(left.hit(near(), far()), None);
    let right = Crossing { u: maybe(1.5), ..good };
    assert_eq!(right.hit(near(), far()), None);
    let below = Crossing { v: maybe(-0.5), ..good };
    assert_eq!(below.hit(near(), far()), None);
    let beyond = Crossing { u_plus_v: maybe(1.25), ..good };
    assert_eq!(beyond.hit(near(), far()), None);
    let on_the_edge = Crossing { u: maybe(0.0), v: maybe(1.0), u_plus_v: maybe(1.0), ..good };
    assert_eq!(on_the_edge.hit(near(), far()), Some(scalar(2.0)));
    let too_near = Crossing { t: maybe(0.00001), ..good };
    assert_eq!(too_near.hit(scalar(0.0), far()), None);
    let no_number = Crossing { t: None, ..good };
    assert_eq!(no_number.hit(near(), far()), None);
}

#[test]
fn normal_triangle_blends_the_normals_of_its_corners() {
    let normals = [vector([0.0, 0.0, 1.0]), vector([1.0, 0.0, 0.0]), vector([0.0, 1.0, 0.0])];
    let triangle = NormalTriangle::new(corner(), normals, 9u8);
    let r = ray([0.25, 0.5, 1.0], [0.0, 0.0, -1.0]);
    let rec = triangle.hit(&r, near(), far(), &cross, &point_at, &blend).unwrap();
    assert_eq!(number(rec.t), 1.0);
    assert_eq!(rec.normal, vector([0.25, 0.5, 0.25]));
    assert_eq!(rec.material, Some(9));
    let miss = ray([2.0, 2.0, 1.0], [0.0, 0.0, -1.0]);
    assert!(triangle.hit(&miss, near(), far(), &cross, &point_at, &blend).is_none());
    assert_eq!(
        triangle.bounding_box(),
        Some(AABB::new(point([0.0, 0.0, 0.0]), point([1.0, 1.0, 0.0])))
    );
}

#[test]
fn plane_is_hit_from_the_side_of_its_normal() {
    let plane = Plane::new(point([0.0, -0.5, 0.0]), vector([0.0, 1.0, 0.0]), 2u8);
    let down = ray([0.0, 1.5, 0.0], [0.0, -1.0, 0.0]);
    let rec = plane.hit(&down, near(), far(), &meet, &point_at).unwrap();
    assert_eq!(number(rec.t), 2.0);
    assert_eq!(rec.p, point([0.0, -0.5, 0.0]));
    assert_eq!(rec.normal, vector([0.0, 1.0, 0.0]));
    assert_eq!(rec.material, Some(2));
    // From below the ray runs along the normal and passes through.
    let up = ray([0.0, -2.5, 0.0], [0.0, 1.0, 0.0]);
    assert!(plane.hit(&up, near(), far(), &meet, &point_at).is_none());
    // Away from the plane the meeting lies behind the ray.
    let away = ray([0.0, -2.5, 0.0], [0.0, -1.0, 0.0]);
    assert!(plane.hit(&away, near(), far(), &meet, &point_at).is_none());
    assert!(plane.hit(&down, near(), scalar(2.0), &meet, &point_at).is_none());
    assert_eq!(plane.bounding_box(), None);
}

#[test]
fn meeting_decides_by_its_numbers() {
    let good = Meeting { dot: maybe(-1.0), t: maybe(2.0) };
    assert_eq!(good.hit(near(), far()), Some(scalar(2.0)));
    let along = Meeting { dot: maybe(0.00001), t: maybe(2.0) };
    assert_eq!(along.hit(near(), far()), None);
    let nearly_across = Meeting { dot: maybe(0.000005), t: maybe(2.0) };
    assert_eq!(nearly_across.hit(near(), far()), Some(scalar(2.0)));
    let no_number = Meeting { dot: None, t: maybe(2.0) };
    assert_eq!(no_number.hit(near(), far()), None);
    let nowhere = Meeting { dot: maybe(-1.0), t: None };
    assert_eq!(nowhere.hit(near(), far()), None);
    let too_near = Meeting { dot: maybe(-1.0), t: maybe(0.000005) };
    assert_eq!(too_near.hit(scalar(0.0), far()), None);
}

#[test]
fn constant_texture_has_one_colour() {
    let texture = ConstantTexture::new(vector([0.2, 0.3, 0.1]));
    assert_eq!(texture.value(scalar(0.0), scalar(0.0), point([1.0, 2.0, 3.0])), vector([0.2, 0.3, 0.1]));
    assert_eq!(texture.value(scalar(0.5), scalar(0.5), point([-1.0, 0.0, 9.0])), vector([0.2, 0.3, 0.1]));
}

#[test]
fn chequers_take_the_odd_texture_below_zero() {
    let texture = ChequeredTexture::new(1u8, 2u8);
    let wave = |p: Point3| Some(p.x);
    assert_eq!(*texture.at(point([-1.0, 0.0, 0.0]), &wave), 1);
    assert_eq!(*texture.at(point([1.0, 0.0, 0.0]), &wave), 2);
    assert_eq!(*texture.at(point([0.0, 0.0, 0.0]), &wave), 2);
    let no_number = |_: Point3| None;
    assert_eq!(*texture.at(point([-1.0, 0.0, 0.0]), &no_number), 2);
}

#[test]
fn quadrilateral_is_two_triangles_over_one_diagonal() {
    let corners = [
        point([0.0, 0.0, 0.0]),
        point([1.0, 0.0, 0.0]),
        point([1.0, 1.0, 0.0]),
        point([0.0, 1.0, 0.0]),
    ];
    let halves = raytracer::quad::triangles(&corners);
    assert_eq!(halves[0], [corners[0], corners[1], corners[2]]);
    assert_eq!(halves[1], [corners[0], corners[2], corners[3]]);
}

#[test]
fn pyramid_has_four_sides_and_a_base() {
    let base = [
        point([-0.5, 0.0, 0.5]),
        point([-0.5, 0.0, -0.5]),
        point([0.5, 0.0, -0.5]),
        point([0.5, 0.0, 0.5]),
    ];
    let zenith = point([0.0, 2.0, 0.0]);
    let found = raytracer::pyramid::faces(&base, zenith);
    assert_eq!(found.sides[0], [base[0], zenith, base[3]]);
    assert_eq!(found.sides[1], [base[3], zenith, base[2]]);
    assert_eq!(found.sides[2], [base[2], zenith, base[1]]);
    assert_eq!(found.sides[3], [base[1], zenith, base[0]]);
    assert_eq!(found.base, [base[0], base[3], base[2], base[1]]);
    // Every side stands on one edge of the base.
    for side in found.sides {
        assert_eq!(side[1], zenith);
        assert!(base.contains(&side[0]) && base.contains(&side[2]) && side[0] != side[2]);
    }
}
