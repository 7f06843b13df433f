use vstd::prelude::*;
use crate::error::RenderError;
use crate::ray::Ray;
use crate::sphere::{hit_of, hit_sphere, lemma_dot_bound, Hit, Quadratic, Sphere, COORD_LIMIT};
use crate::vector::{bounded, lemma_mul_bound, t_dot, t_zero, Triple, Vec3};

verus! {

pub open spec fn abs(n: int) -> int {
    if n < 0 {
        -n
    } else {
        n
    }
}

/// What a pixel shows; turning it into a color takes square roots and is left to the caller.
#[derive(Clone, Copy, Debug, PartialEq, Eq, Structural)]
pub enum Shade {
    /// The ray meets the sphere at its nearer root `(-b - sqrt(disc)) / 2a > 0`;
    /// the color is `0.5 * (normal + (1, 1, 1))` at that point.
    Surface(Ray, Quadratic),
    /// The ray sees the sky; the color blends white into sky blue by the height of
    /// this nonzero direction once normalized.
    Sky(Vec3),
}

/// The fixed virtual camera: view rays leave `origin` towards
/// `lower_left_corner + u * horizontal + v * vertical`.
#[derive(Clone, Copy, Debug, PartialEq, Eq, Structural)]
pub struct Camera {
    pub origin: Vec3,
    pub lower_left_corner: Vec3,
    pub horizontal: Vec3,
    pub vertical: Vec3,
}

pub open spec fn sphere_in_range(sphere: Option<Sphere>) -> bool {
    match sphere {
        Some(s) => bounded(s.center@, COORD_LIMIT as int) && 0 < s.radius <= COORD_LIMIT,
        None => true,
    }
}

/// What shading a ray with a nonzero direction yields.
pub open spec fn shade_of(sphere: Option<Sphere>, ray: Ray) -> Shade {
    match sphere {
        Some(s) => match hit_of(s.center@, s.radius as int, ray.orig@, ray.dir@) {
            Hit::Roots(q) => if q.front_hit() {
                Shade::Surface(ray, q)
            } else {
                Shade::Sky(ray.dir)
            },
            Hit::Miss => Shade::Sky(ray.dir),
        },
        None => Shade::Sky(ray.dir),
    }
}

/// Shading decision for one ray against an optional sphere; a zero direction cannot
/// be normalized and is refused.
pub fn shade(sphere: Option<Sphere>, ray: &Ray) -> (r: Result<Shade, RenderError>)
    requires
        sphere_in_range(sphere),
        bounded(ray.orig@, COORD_LIMIT as int),
        bounded(ray.dir@, COORD_LIMIT as int),
    ensures
        t_zero(ray.dir@) ==> r == Err::<Shade, RenderError>(RenderError::DivisionByZero),
        !t_zero(ray.dir@) ==> r == Ok::<Shade, RenderError>(shade_of(sphere, *ray)),
{
    if ray.dir.is_zero() {
        return Err(RenderError::DivisionByZero);
    }
    match sphere {
        Some(s) => match hit_sphere(s.center, s.radius, ray) {
            Hit::Roots(q) => {
                if q.a > 0 && q.b < 0 && q.c > 0 {
                    Ok(Shade::Surface(*ray, q))
                } else {
                    Ok(Shade::Sky(ray.dir))
                }
            },
            Hit::Miss => Ok(Shade::Sky(ray.dir)),
        },
        None => Ok(Shade::Sky(ray.dir)),
    }
}

/// The view direction of pixel `index` of a `width` by `height` grid scanned row by
/// row from the top, columns left to right. With `u = col / width` and
/// `v = row_from_bottom / height` it is `lower_left_corner + u * horizontal + v * vertical`
/// multiplied by `width * height`, which keeps it on the integer grid; a positive
/// factor changes neither the normalized direction nor where the ray meets a sphere.
pub open spec fn pixel_dir(cam: Camera, width: int, height: int, index: int) -> Triple {
    let col = index % width;
    let row_from_bottom = height - 1 - index / width;
    let m = width * height;
    let k1 = col * height;
    let k2 = row_from_bottom * width;
    (
        m * cam.lower_left_corner.x + k1 * cam.horizontal.x + k2 * cam.vertical.x,
        m * cam.lower_left_corner.y + k1 * cam.horizontal.y + k2 * cam.vertical.y,
        m * cam.lower_left_corner.z + k1 * cam.horizontal.z + k2 * cam.vertical.z,
    )
}

pub open spec fn ray_for_pixel(cam: Camera, width: int, height: int, index: int) -> Ray {
    let d = pixel_dir(cam, width, height, index);
    Ray { orig: cam.origin, dir: Vec3 { x: d.0 as i64, y: d.1 as i64, z: d.2 as i64 } }
}

pub open spec fn span_fits(m: int, a: i64, b: i64, c: i64) -> bool {
    m * (abs(a as int) + abs(b as int) + abs(c as int)) <= COORD_LIMIT
}

/// The camera and grid keep every view ray inside the range of the intersection test.
pub open spec fn camera_in_range(cam: Camera, width: int, height: int) -> bool {
    let m = width * height;
    &&& bounded(cam.origin@, COORD_LIMIT as int)
    &&& m <= COORD_LIMIT
    &&& span_fits(m, cam.lower_left_corner.x, cam.horizontal.x, cam.vertical.x)
    &&& span_fits(m, cam.lower_left_corner.y, cam.horizontal.y, cam.vertical.y)
    &&& span_fits(m, cam.lower_left_corner.z, cam.horizontal.z, cam.vertical.z)
}

proof fn lemma_scaled_abs(k: int, m: int, v: int)
    requires
        0 <= k <= m,
    ensures
        -(m * abs(v)) <= k * v <= m * abs(v),
{
    if v < 0 {
        assert(-(m * -v) <= k * v <= m * -v) by (nonlinear_arith)
            requires
                0 <= k <= m,
                v < 0,
        ;
    } else {
        assert(-(m * v) <= k * v <= m * v) by (nonlinear_arith)
            requires
                0 <= k <= m,
                v >= 0,
        ;
    }
}

/// `m * a + k1 * b + k2 * c` for factors `0 <= k1, k2 <= m`.
fn span_component(m: i64, k1: i64, k2: i64, a: i64, b: i64, c: i64) -> (r: i64)
    requires
        0 <= k1 <= m,
        0 <= k2 <= m,
        span_fits(m as int, a, b, c),
    ensures
        r == m * a + k1 * b + k2 * c,
        -COORD_LIMIT <= r <= COORD_LIMIT,
{
    proof {
        lemma_scaled_abs(m as int, m as int, a as int);
        lemma_scaled_abs(k1 as int, m as int, b as int);
        lemma_scaled_abs(k2 as int, m as int, c as int);
        assert(m * (abs(a as int) + abs(b as int) + abs(c as int)) == m * abs(a as int) + m * abs(
            b as int,
        ) + m * abs(c as int)) by (nonlinear_arith);
    }
    m * a + k1 * b + k2 * c
}

proof fn lemma_grid_position(index: int, width: int, height: int)
    requires
        0 <= index < width * height,
        0 < width,
        0 < height,
    ensures
        0 <= index % width < width,
        0 <= index / width < height,
        (index % width) * height <= width * height,
        (height - 1 - index / width) * width <= width * height,
{
    assert(0 <= index / width < height && 0 <= index % width < width) by (nonlinear_arith)
        requires
            0 <= index < width * height,
            0 < width,
    ;
    assert((index % width) * height <= width * height) by (nonlinear_arith)
        requires
            0 <= index % width < width,
            0 < height,
    ;
    assert((height - 1 - index / width) * width <= width * height) by (nonlinear_arith)
        requires
            0 <= height - 1 - index / width < height,
            0 < width,
    ;
}

/// The view ray of pixel `index`.
pub fn pixel_ray(camera: &Camera, width: u32, height: u32, index: u32) -> (r: Ray)
    requires
        0 < width,
        0 < height,
        index < width * height,
        camera_in_range(*camera, width as int, height as int),
    ensures
        r == ray_for_pixel(*camera, width as int, height as int, index as int),
        r.dir@ == pixel_dir(*camera, width as int, height as int, index as int),
        bounded(r.dir@, COORD_LIMIT as int),
{
    proof {
        lemma_grid_position(index as int, width as int, height as int);
    }
    let w = width as i64;
    let h = height as i64;
    let m = w * h;
    let col = (index % width) as i64;
    let row_from_bottom = h - 1 - (index / width) as i64;
    let k1 = col * h;
    let k2 = row_from_bottom * w;
    let llc = camera.lower_left_corner;
    let hor = camera.horizontal;
    let ver = camera.vertical;
    let dir = Vec3::new(
        span_component(m, k1, k2, llc.x, hor.x, ver.x),
        span_component(m, k1, k2, llc.y, hor.y, ver.y),
        span_component(m, k1, k2, llc.z, hor.z, ver.z),
    );
    Ray::new(camera.origin, dir)
}

/// The frame: `InvalidViewport` for an empty grid, `DivisionByZero` when some pixel's
/// view direction is zero, and otherwise the shade of every pixel in scan order.
pub open spec fn rendered(cam: Camera, sphere: Option<Sphere>, width: int, height: int) -> Result<
    Seq<Shade>,
    RenderError,
> {
    if width == 0 || height == 0 {
        Err(RenderError::InvalidViewport)
    } else if exists|i: int| 0 <= i < width * height && t_zero(pixel_dir(cam, width, height, i)) {
        Err(RenderError::DivisionByZero)
    } else {
        Ok(Seq::new((width * height) as nat, |i: int| shade_of(sphere, ray_for_pixel(cam, width, height, i))))
    }
}

pub open spec fn frame_view(r: Result<Vec<Shade>, RenderError>) -> Result<Seq<Shade>, RenderError> {
    match r {
        Ok(v) => Ok(v@),
        Err(e) => Err(e),
    }
}

/// Renders a `width` by `height` frame through `camera`, with or without a sphere.
pub fn render(camera: &Camera, sphere: Option<Sphere>, width: u32, height: u32) -> (r: Result<
    Vec<Shade>,
    RenderError,
>)
    requires
        camera_in_range(*camera, width as int, height as int),
        sphere_in_range(sphere),
    ensures
        frame_view(r) == rendered(*camera, sphere, width as int, height as int),
{
    if width == 0 || height == 0 {
        return Err(RenderError::InvalidViewport);
    }
    let n = width * height;
    let mut out: Vec<Shade> = Vec::new();
    let mut i: u32 = 0;
    while i < n
        invariant
            0 <= i <= n,
            n == width * height,
            0 < width,
            0 < height,
            camera_in_range(*camera, width as int, height as int),
            sphere_in_range(sphere),
            out@.len() == i,
            forall|j: int|
                0 <= j < i ==> out@[j] == shade_of(
                    sphere,
                    ray_for_pixel(*camera, width as int, height as int, j),
                ),
            forall|j: int|
                0 <= j < i ==> !t_zero(pixel_dir(*camera, width as int, height as int, j)),
        decreases n - i,
    {
        let ray = pixel_ray(camera, width, height, i);
        match shade(sphere, &ray) {
            Ok(s) => out.push(s),
            Err(e) => {
                return Err(e);
            },
        }
        i += 1;
    }
    assert(out@ =~= Seq::new(
        (width * height) as nat,
        |j: int| shade_of(sphere, ray_for_pixel(*camera, width as int, height as int, j)),
    ));
    Ok(out)
}


/// Rendering twice with the same camera, sphere and size gives the same frame: the
/// result depends on nothing else.
pub proof fn lemma_render_deterministic(
    camera: Camera,
    sphere: Option<Sphere>,
    width: u32,
    height: u32,
    first: Result<Vec<Shade>, RenderError>,
    second: Result<Vec<Shade>, RenderError>,
)
    requires
        frame_view(first) == rendered(camera, sphere, width as int, height as int),
        frame_view(second) == rendered(camera, sphere, width as int, height as int),
    ensures
        frame_view(first) == frame_view(second),
{
}


/// `alpha * sqrt(n) <= beta` for `n >= 0`, decided by comparing squares.
pub open spec fn root_le(alpha: int, n: int, beta: int) -> bool {
    if alpha <= 0 {
        beta >= 0 || alpha * alpha * n >= beta * beta
    } else {
        beta >= 0 && alpha * alpha * n <= beta * beta
    }
}

/// The byte `k` is reached by the channel value `(p - q * y / sqrt(n)) / d`:
/// `10 k <= 2559 * value`, that is `k <= 255.9 * value`.
pub open spec fn channel_reaches(p: int, q: int, d: int, y: int, n: int, k: int) -> bool {
    root_le(10 * k * d - 2559 * p, n, -2559 * q * y)
}

/// `byte` is the largest `k` in `[0, 255]` that the channel value reaches, or zero
/// when it reaches none: for a value in `[0, 1]`, the encoded byte `floor(255.9 * value)`.
pub open spec fn is_channel_byte(p: int, q: int, d: int, y: int, n: int, byte: int) -> bool {
    &&& 0 <= byte <= 255
    &&& (byte == 0 || channel_reaches(p, q, d, y, n, byte))
    &&& forall|k: int| byte < k <= 255 ==> !channel_reaches(p, q, d, y, n, k)
}

fn root_le_exec(alpha: i128, n: i128, beta: i128) -> (r: bool)
    requires
        -0x2_0000 <= alpha <= 0x2_0000,
        0 <= n <= 0x1000_0000_0000_0000,
        -0x2000_0000_0000 <= beta <= 0x2000_0000_0000,
    ensures
        r == root_le(alpha as int, n as int, beta as int),
{
    proof {
        lemma_mul_bound(alpha as int, alpha as int, 0x2_0000, 0x2_0000);
        lemma_mul_bound(beta as int, beta as int, 0x2000_0000_0000, 0x2000_0000_0000);
        lemma_mul_bound(alpha * alpha, n as int, 0x4_0000_0000, 0x1000_0000_0000_0000);
    }
    let lhs = alpha * alpha * n;
    let rhs = beta * beta;
    if alpha <= 0 {
        beta >= 0 || lhs >= rhs
    } else {
        beta >= 0 && lhs <= rhs
    }
}

/// The encoded byte of the channel value `(p - q * y / sqrt(n)) / d`.
fn channel_byte_exec(p: i128, q: i128, d: i128, y: i64, n: i128) -> (r: u8)
    requires
        0 <= p <= 20,
        0 <= q <= 20,
        0 < d <= 20,
        -COORD_LIMIT <= y <= COORD_LIMIT,
        0 < n <= 0x1000_0000_0000_0000,
    ensures
        is_channel_byte(p as int, q as int, d as int, y as int, n as int, r as int),
{
    proof {
        lemma_mul_bound(q as int, y as int, 20, COORD_LIMIT as int);
    }
    let beta: i128 = -2559 * (q * (y as i128));
    let mut k: i128 = 255;
    loop
        invariant
            0 <= k <= 255,
            0 <= p <= 20,
            0 < d <= 20,
            0 < n <= 0x1000_0000_0000_0000,
            beta == -2559 * (q * y),
            -0x2000_0000_0000 <= beta <= 0x2000_0000_0000,
            forall|j: int|
                k < j <= 255 ==> !channel_reaches(p as int, q as int, d as int, y as int, n as int, j),
        ensures
            is_channel_byte(p as int, q as int, d as int, y as int, n as int, k as int),
        decreases k,
    {
        if k == 0 {
            break ;
        }
        proof {
            lemma_mul_bound(10 * k as int, d as int, 2550, 20);
            assert(-2559 * q * y == -2559 * (q * y)) by (nonlinear_arith);
        }
        let alpha = 10 * k * d - 2559 * p;
        if root_le_exec(alpha, n, beta) {
            break ;
        }
        k = k - 1;
    }
    k as u8
}

/// The encoded bytes of the sky seen along `dir`: with `s = (y / |dir| + 1) / 2`, the
/// color `(1 - s) * (1, 1, 1) + s * (0.5, 0.7, 1.0)` is `(3/4 - y / 4|dir|,
/// 17/20 - 3y / 20|dir|, 1)`, and each channel is encoded as `floor(255.9 * value)`.
pub fn sky_bytes(dir: Vec3) -> (r: (u8, u8, u8))
    requires
        bounded(dir@, COORD_LIMIT as int),
        !t_zero(dir@),
    ensures
        ({
            let n = t_dot(dir@, dir@);
            let y = dir.y as int;
            &&& is_channel_byte(3, 1, 4, y, n, r.0 as int)
            &&& is_channel_byte(17, 3, 20, y, n, r.1 as int)
            &&& r.2 == 255
        }),
{
    let l = COORD_LIMIT as i64;
    proof {
        lemma_dot_bound(dir@, dir@, l as int, l as int);
        assert(3 * (l as int) * (l as int) == 0x300_0000_0000_0000int);
        assert(dir.x * dir.x + dir.y * dir.y + dir.z * dir.z > 0) by (nonlinear_arith)
            requires
                !(dir.x == 0 && dir.y == 0 && dir.z == 0),
        ;
    }
    let n = dir.squared_length();
    let red = channel_byte_exec(3, 1, 4, dir.y, n);
    let green = channel_byte_exec(17, 3, 20, dir.y, n);
    (red, green, 255)
}

} // verus!
