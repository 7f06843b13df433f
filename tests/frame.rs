use pathtracer::{pixel_ray, render, sky_bytes, Camera, Quadratic, RenderError, Shade, Sphere, Vec3};

fn v(x: i64, y: i64, z: i64) -> Vec3 {
    Vec3::new(x, y, z)
}

// The standard viewport, with every length doubled so that a sphere of radius one
// half sits on the integer grid.
fn camera() -> Camera {
    Camera {
        origin: v(0, 0, 0),
        lower_left_corner: v(-4, -2, -2),
        horizontal: v(8, 0, 0),
        vertical: v(0, 4, 0),
    }
}

fn unit_sphere() -> Sphere {
    Sphere::new(v(0, 0, -2), 1).unwrap()
}

fn normalized_y(d: Vec3) -> f64 {
    let (x, y, z) = (d.x as f64, d.y as f64, d.z as f64);
    y / (x * x + y * y + z * z).sqrt()
}

#[test]
fn empty_viewport_is_refused() {
    assert_eq!(render(&camera(), None, 0, 100), Err(RenderError::InvalidViewport));
    assert_eq!(render(&camera(), None, 200, 0), Err(RenderError::InvalidViewport));
}

#[test]
fn zero_direction_is_refused() {
    let cam = Camera {
        origin: v(0, 0, 0),
        lower_left_corner: v(0, 0, 0),
        horizontal: v(1, 0, 0),
        vertical: v(0, 1, 0),
    };
    assert_eq!(render(&cam, None, 2, 2), Err(RenderError::DivisionByZero));
}

#[test]
fn pixel_rays_follow_scan_order() {
    let cam = camera();
    // Top-left: u = 0, v = 99/100, scaled by 200 * 100.
    assert_eq!(pixel_ray(&cam, 200, 100, 0).direction(), v(-80000, 39200, -40000));
    // Bottom-left: u = 0, v = 0.
    assert_eq!(pixel_ray(&cam, 200, 100, 19800).direction(), v(-80000, -40000, -40000));
    // Last pixel: bottom-right, u = 199/200.
    assert_eq!(pixel_ray(&cam, 200, 100, 19999).direction(), v(79200, -40000, -40000));
    assert_eq!(pixel_ray(&cam, 200, 100, 5).origin(), v(0, 0, 0));
}

#[test]
fn gradient_frame_without_sphere() {
    let frame = render(&camera(), None, 200, 100).unwrap();
    assert_eq!(frame.len(), 200 * 100);
    for s in frame.iter() {
        assert!(matches!(s, Shade::Sky(_)));
    }
    let top_left = match frame[0] {
        Shade::Sky(d) => d,
        _ => panic!("sky expected"),
    };
    let bottom_left = match frame[19800] {
        Shade::Sky(d) => d,
        _ => panic!("sky expected"),
    };
    assert_eq!(top_left, v(-80000, 39200, -40000));
    assert_eq!(bottom_left, v(-80000, -40000, -40000));
    // The top of the frame leans towards sky blue, the bottom towards white.
    assert!(normalized_y(top_left) > 0.0);
    assert!(normalized_y(bottom_left) < 0.0);
    let blend = |d: Vec3| {
        let s = 0.5 * (normalized_y(d) + 1.0);
        ((1.0 - s) + 0.5 * s, (1.0 - s) + 0.7 * s, 1.0)
    };
    let (r, g, b) = blend(top_left);
    assert!((r - 0.648).abs() < 0.01 && (g - 0.789).abs() < 0.01 && b == 1.0);
    let (r, g, _) = blend(bottom_left);
    assert!((r - 0.852).abs() < 0.01 && (g - 0.911).abs() < 0.01);
}

#[test]
fn center_ray_hits_unit_sphere_facing_camera() {
    let frame = render(&camera(), Some(unit_sphere()), 200, 100).unwrap();
    // Row 49 from the top is v = 1/2; column 100 is u = 1/2.
    let index = 49 * 200 + 100;
    match frame[index] {
        Shade::Surface(ray, q) => {
            assert_eq!(ray.direction(), v(0, 0, -40000));
            assert_eq!(q, Quadratic { a: 1_600_000_000, b: -160_000, c: 3 });
            let disc = (q.b * q.b - 4 * q.a * q.c) as f64;
            let t = (-(q.b as f64) - disc.sqrt()) / (2.0 * q.a as f64);
            let z = t * ray.direction().z as f64 - (-2.0);
            // The normal at the near side points back along +z, towards the camera.
            assert!(z > 0.0);
            assert!((z - 1.0).abs() < 1e-9);
        }
        Shade::Sky(_) => panic!("the center ray must hit the sphere"),
    }
    assert!(matches!(frame[0], Shade::Sky(_)));
}

#[test]
fn render_is_deterministic() {
    let a = render(&camera(), Some(unit_sphere()), 64, 32);
    let b = render(&camera(), Some(unit_sphere()), 64, 32);
    assert_eq!(a, b);
    let surfaces = a.unwrap().iter().filter(|s| matches!(s, Shade::Surface(_, _))).count();
    assert!(surfaces > 0);
}

#[test]
fn sky_bytes_at_the_ends_of_the_gradient() {
    // Straight up: sky blue (0.5, 0.7, 1.0); straight down: white.
    assert_eq!(sky_bytes(v(0, 1, 0)), (127, 179, 255));
    assert_eq!(sky_bytes(v(0, 7, 0)), (127, 179, 255));
    assert_eq!(sky_bytes(v(0, -1, 0)), (255, 255, 255));
    // Level: halfway, (0.75, 0.85, 1.0).
    assert_eq!(sky_bytes(v(0, 0, -1)), (191, 217, 255));
    assert_eq!(sky_bytes(v(3, 4, 0)), (140, 186, 255));
}

#[test]
fn gradient_frame_corner_bytes() {
    let frame = render(&camera(), None, 200, 100).unwrap();
    let bytes = |s: &Shade| match s {
        Shade::Sky(d) => sky_bytes(*d),
        _ => panic!("sky expected"),
    };
    assert_eq!(bytes(&frame[0]), (166, 202, 255));
    assert_eq!(bytes(&frame[19800]), (218, 233, 255));
}
