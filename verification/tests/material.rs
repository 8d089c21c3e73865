use raytracer::hitable::HitRecord;
use raytracer::material::{scatter, white, Glass, Material};
use raytracer::ray::Ray3;
use raytracer::scalar::Scalar;
use raytracer::vector::{Point3, Vector3};
use std::time::{Duration, Instant};

fn scalar(x: f32) -> Scalar {
    Scalar::from_bits(x.to_bits()).unwrap()
}

fn vector(x: f32, y: f32, z: f32) -> Vector3 {
    Vector3::new(scalar(x), scalar(y), scalar(z))
}

fn point(x: f32, y: f32, z: f32) -> Point3 {
    Point3::new(scalar(x), scalar(y), scalar(z))
}

fn incoming() -> Ray3 {
    Ray3::new(point(0.0, 2.0, 0.0), vector(1.0, -1.0, 0.0), Instant::now() + Duration::from_millis(250))
}

fn hit() -> HitRecord<()> {
    HitRecord::new(scalar(2.0), point(2.0, 0.0, 0.0), vector(0.0, 1.0, 0.0), None)
}

fn diffuse(h: &HitRecord<()>) -> Vector3 {
    h.normal
}

fn colour_at(texture: &u8, p: Point3) -> Vector3 {
    Vector3::new(scalar(*texture as f32), p.x, p.y)
}

fn mirror(r: &Ray3, _: &HitRecord<()>, fuzz: Scalar) -> (Vector3, Option<Scalar>) {
    // Up and away for a clean mirror, into the surface for a fuzzy one.
    if fuzz == scalar(0.0) {
        (Vector3::new(r.direction.x, scalar(1.0), r.direction.z), Some(scalar(1.0)))
    } else {
        (r.direction, Some(scalar(-1.0)))
    }
}

fn glass_with(refracted: Option<Vector3>, reflectance: f32, draw: f32) -> Glass {
    Glass { reflected: vector(1.0, 1.0, 0.0), refracted, reflectance: scalar(reflectance), draw: scalar(draw) }
}

fn scatter_with(material: &Material<u8>, found: Glass) -> (Vector3, Ray3, bool) {
    let glass = move |_: &Ray3, _: &HitRecord<()>, _: Scalar| found;
    scatter(material, &incoming(), &hit(), &diffuse, &colour_at, &mirror, &glass)
}

fn any_glass() -> Glass {
    glass_with(Some(vector(1.0, -2.0, 0.0)), 0.25, 0.5)
}

#[test]
fn matt_surface_always_scatters_with_its_colour() {
    let material: Material<u8> = Material::Lambertian { albedo: vector(0.1, 0.2, 0.5) };
    let r_in = incoming();
    let glass = |_: &Ray3, _: &HitRecord<()>, _: Scalar| any_glass();
    let (attenuation, scattered, should_scatter) =
        scatter(&material, &r_in, &hit(), &diffuse, &colour_at, &mirror, &glass);
    assert_eq!(attenuation, vector(0.1, 0.2, 0.5));
    assert!(should_scatter);
    assert_eq!(scattered.origin, point(2.0, 0.0, 0.0));
    assert_eq!(scattered.direction, vector(0.0, 1.0, 0.0));
    assert_eq!(scattered.time, r_in.time);
}

#[test]
fn textured_surface_takes_its_colour_from_the_point() {
    let material = Material::TexturedLambertian { texture: 7u8 };
    let (attenuation, scattered, should_scatter) = scatter_with(&material, any_glass());
    assert_eq!(attenuation, vector(7.0, 2.0, 0.0));
    assert!(should_scatter);
    assert_eq!(scattered.origin, point(2.0, 0.0, 0.0));
    assert_eq!(scattered.direction, vector(0.0, 1.0, 0.0));
}

#[test]
fn metal_scatters_what_leaves_the_surface() {
    let clean = Material::Metal { albedo: vector(0.8, 0.6, 0.2), fuzz: scalar(0.0) };
    let (attenuation, scattered, should_scatter) = scatter_with(&clean, any_glass());
    assert_eq!(attenuation, vector(0.8, 0.6, 0.2));
    assert!(should_scatter);
    assert_eq!(scattered.origin, point(2.0, 0.0, 0.0));
    assert_eq!(scattered.direction, vector(1.0, 1.0, 0.0));
}

#[test]
fn metal_absorbs_what_goes_into_the_surface() {
    let fuzzy = Material::Metal { albedo: vector(0.8, 0.6, 0.2), fuzz: scalar(0.3) };
    let (attenuation, scattered, should_scatter) = scatter_with(&fuzzy, any_glass());
    assert_eq!(attenuation, vector(0.8, 0.6, 0.2));
    assert!(!should_scatter);
    assert_eq!(scattered.direction, vector(1.0, -1.0, 0.0));
}

#[test]
fn metal_without_a_number_absorbs() {
    let material: Material<u8> = Material::Metal { albedo: vector(1.0, 1.0, 1.0), fuzz: scalar(0.0) };
    let nothing = |r: &Ray3, _: &HitRecord<()>, _: Scalar| (r.direction, None);
    let flat = |r: &Ray3, _: &HitRecord<()>, _: Scalar| (r.direction, Some(scalar(0.0)));
    let glass = |_: &Ray3, _: &HitRecord<()>, _: Scalar| any_glass();
    let (_, _, scattered) =
        scatter(&material, &incoming(), &hit(), &diffuse, &colour_at, &nothing, &glass);
    assert!(!scattered);
    let (_, _, scattered) =
        scatter(&material, &incoming(), &hit(), &diffuse, &colour_at, &flat, &glass);
    assert!(!scattered);
}

#[test]
fn glass_mirrors_when_the_draw_is_below_the_reflectance() {
    let material = Material::Dielectric { ref_idx: scalar(1.5) };
    let found = glass_with(Some(vector(1.0, -2.0, 0.0)), 0.25, 0.125);
    let (attenuation, scattered, should_scatter) = scatter_with(&material, found);
    assert_eq!(attenuation, vector(1.0, 1.0, 1.0));
    assert_eq!(attenuation, white());
    assert!(should_scatter);
    assert_eq!(scattered.origin, point(2.0, 0.0, 0.0));
    assert_eq!(scattered.direction, vector(1.0, 1.0, 0.0));
    assert_eq!(found.direction(), vector(1.0, 1.0, 0.0));
}

#[test]
fn glass_lets_through_when_the_draw_is_not_below_the_reflectance() {
    let material = Material::Dielectric { ref_idx: scalar(1.5) };
    for draw in [0.25f32, 0.5, 0.999] {
        let found = glass_with(Some(vector(1.0, -2.0, 0.0)), 0.25, draw);
        let (attenuation, scattered, should_scatter) = scatter_with(&material, found);
        assert_eq!(attenuation, vector(1.0, 1.0, 1.0));
        assert!(should_scatter);
        assert_eq!(scattered.direction, vector(1.0, -2.0, 0.0));
    }
}

#[test]
fn glass_that_lets_nothing_through_always_mirrors() {
    let material = Material::Dielectric { ref_idx: scalar(1.5) };
    for draw in [0.0f32, 0.5, 0.999_999_9] {
        let found = glass_with(None, 0.0, draw);
        let (_, scattered, should_scatter) = scatter_with(&material, found);
        assert!(should_scatter);
        assert_eq!(scattered.direction, vector(1.0, 1.0, 0.0));
    }
    // A draw that is no draw from [0, 1) stops the ray dead.
    let found = glass_with(None, 0.0, 1.0);
    assert_eq!(found.direction(), vector(0.0, 0.0, 0.0));
}

#[test]
fn option_clones() {
    let option: Option<Material<u8>> = Some(Material::Lambertian { albedo: vector(1f32, 2f32, 3f32) });
    match option {
        Some(Material::Lambertian { albedo }) => assert_eq!(albedo, vector(1f32, 2f32, 3f32)),
        _ => assert!(false),
    }
}

#[test]
fn material_clone_keeps_what_it_is_made_of() {
    let metal: Material<u8> = Material::Metal { albedo: vector(0.8, 0.6, 0.2), fuzz: scalar(0.3) };
    match metal.clone() {
        Material::Metal { albedo, fuzz } => {
            assert_eq!(albedo, vector(0.8, 0.6, 0.2));
            assert_eq!(fuzz, scalar(0.3));
        }
        _ => panic!("a clone of metal is metal"),
    }
    let textured: Material<u8> = Material::TexturedLambertian { texture: 4 };
    assert!(matches!(textured.clone(), Material::TexturedLambertian { texture: 4 }));
}
