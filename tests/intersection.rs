use pathtracer::{hit_sphere, shade, Hit, Quadratic, Ray, RenderError, Shade, Sphere, Vec3};

fn v(x: i64, y: i64, z: i64) -> Vec3 {
    Vec3::new(x, y, z)
}

#[test]
fn sphere_radius_must_be_positive() {
    assert_eq!(Sphere::new(v(0, 0, 0), 0), Err(RenderError::InvalidSphere));
    assert_eq!(Sphere::new(v(0, 0, 0), -3), Err(RenderError::InvalidSphere));
    assert_eq!(
        Sphere::new(v(1, 2, 3), 4),
        Ok(Sphere { center: v(1, 2, 3), radius: 4 })
    );
}

#[test]
fn ray_through_center_hits_at_distance_less_radius() {
    // Center 10 units ahead along a unit direction, radius 3: nearer root t = 10 - 3.
    let ray = Ray::new(v(0, 0, 0), v(0, 0, -1));
    let hit = hit_sphere(v(0, 0, -10), 3, &ray);
    let q = Quadratic { a: 1, b: -20, c: 91 };
    assert_eq!(hit, Hit::Roots(q));
    assert_eq!(q.b * q.b - 4 * q.a * q.c, 36);
    assert_eq!((-q.b - 6) / (2 * q.a), 7);
}

#[test]
fn ray_passing_inside_has_positive_discriminant() {
    // Closest approach 1 < radius 2.
    let ray = Ray::new(v(1, 0, 0), v(0, 0, -1));
    match hit_sphere(v(0, 0, -5), 2, &ray) {
        Hit::Roots(q) => assert!(q.b * q.b - 4 * q.a * q.c > 0),
        Hit::Miss => panic!("expected a hit"),
    }
}

#[test]
fn tangent_ray_has_zero_discriminant() {
    // Closest approach exactly the radius.
    let ray = Ray::new(v(2, 0, 0), v(0, 0, -1));
    match hit_sphere(v(0, 0, -5), 2, &ray) {
        Hit::Roots(q) => {
            assert_eq!(q.b * q.b - 4 * q.a * q.c, 0);
            assert_eq!(q, Quadratic { a: 1, b: -10, c: 25 });
        }
        Hit::Miss => panic!("expected a tangent hit"),
    }
}

#[test]
fn missing_ray_reports_miss() {
    let ray = Ray::new(v(3, 0, 0), v(0, 0, -1));
    assert_eq!(hit_sphere(v(0, 0, -5), 2, &ray), Hit::Miss);
}

#[test]
fn shade_surface_in_front() {
    let s = Sphere::new(v(0, 0, -2), 1).unwrap();
    let ray = Ray::new(v(0, 0, 0), v(0, 0, -1));
    assert_eq!(
        shade(Some(s), &ray),
        Ok(Shade::Surface(ray, Quadratic { a: 1, b: -4, c: 3 }))
    );
}

#[test]
fn shade_sky_when_sphere_is_behind() {
    let s = Sphere::new(v(0, 0, 5), 1).unwrap();
    let ray = Ray::new(v(0, 0, 0), v(0, 0, -1));
    assert_eq!(shade(Some(s), &ray), Ok(Shade::Sky(v(0, 0, -1))));
}

#[test]
fn shade_sky_from_inside_the_sphere() {
    let s = Sphere::new(v(0, 0, 0), 4).unwrap();
    let ray = Ray::new(v(0, 0, 0), v(1, 1, 0));
    assert_eq!(shade(Some(s), &ray), Ok(Shade::Sky(v(1, 1, 0))));
}

#[test]
fn shade_sky_without_sphere() {
    let ray = Ray::new(v(0, 0, 0), v(2, 3, -1));
    assert_eq!(shade(None, &ray), Ok(Shade::Sky(v(2, 3, -1))));
}

#[test]
fn shade_zero_direction_is_division_by_zero() {
    let ray = Ray::new(v(0, 0, 0), v(0, 0, 0));
    assert_eq!(shade(None, &ray), Err(RenderError::DivisionByZero));
    let s = Sphere::new(v(0, 0, -2), 1).unwrap();
    assert_eq!(shade(Some(s), &ray), Err(RenderError::DivisionByZero));
}

#[test]
fn scaled_direction_keeps_the_decision() {
    let s = Sphere::new(v(0, 0, -10), 3).unwrap();
    let unit = Ray::new(v(0, 0, 0), v(0, 0, -1));
    let long = Ray::new(v(0, 0, 0), v(0, 0, -3));
    assert_eq!(hit_sphere(s.center, s.radius, &long), Hit::Roots(Quadratic { a: 9, b: -60, c: 91 }));
    assert!(matches!(shade(Some(s), &unit), Ok(Shade::Surface(_, _))));
    assert!(matches!(shade(Some(s), &long), Ok(Shade::Surface(_, _))));
    let away = Ray::new(v(0, 0, 0), v(0, 0, 3));
    assert_eq!(shade(Some(s), &away), Ok(Shade::Sky(v(0, 0, 3))));
}
