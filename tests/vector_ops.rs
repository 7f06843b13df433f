use pathtracer::{Ray, Vec3};

fn v(x: i64, y: i64, z: i64) -> Vec3 {
    Vec3::new(x, y, z)
}

#[test]
fn new_and_channel_getters() {
    let a = v(3, -4, 5);
    assert_eq!((a.r(), a.g(), a.b()), (3, -4, 5));
    assert_eq!((a.x, a.y, a.z), (3, -4, 5));
}

#[test]
fn add_commutes_and_sub_cancels() {
    let a = v(1, -7, 12);
    let b = v(-3, 4, 9);
    assert_eq!(a.add(b), b.add(a));
    assert_eq!(a.add(b), v(-2, -3, 21));
    assert_eq!(a.add(b).sub(b), a);
}

#[test]
fn neg_and_sub() {
    assert_eq!(v(1, -2, 3).neg(), v(-1, 2, -3));
    assert_eq!(v(5, 5, 5).sub(v(1, 2, 3)), v(4, 3, 2));
}

#[test]
fn componentwise_and_scalar_products() {
    assert_eq!(v(2, 3, 4).mul(v(5, -6, 7)), v(10, -18, 28));
    assert_eq!(v(2, 3, -4).scale(3), v(6, 9, -12));
    assert_eq!(v(2, 3, -4).scale(0), v(0, 0, 0));
}

#[test]
fn in_place_forms_match() {
    let a = v(1, 2, 3);
    let b = v(4, -5, 6);
    let mut c = a;
    c.add_assign(b);
    assert_eq!(c, a.add(b));
    let mut d = a;
    d.sub_assign(b);
    assert_eq!(d, a.sub(b));
    let mut e = a;
    e.mul_assign(b);
    assert_eq!(e, a.mul(b));
    let mut f = a;
    f.scale_assign(-2);
    assert_eq!(f, a.scale(-2));
}

#[test]
fn dot_is_symmetric() {
    let a = v(1, 2, 3);
    let b = v(4, -5, 6);
    assert_eq!(a.dot(b), 12);
    assert_eq!(b.dot(a), 12);
}

#[test]
fn cross_is_antisymmetric() {
    let x = v(1, 0, 0);
    let y = v(0, 1, 0);
    assert_eq!(x.cross(y), v(0, 0, 1));
    assert_eq!(y.cross(x), v(0, 0, -1));
    let a = v(2, -3, 7);
    let b = v(-1, 5, 4);
    assert_eq!(a.cross(b), v(-47, -15, 7));
    assert_eq!(a.cross(b), b.cross(a).neg());
}

#[test]
fn squared_length_and_zero() {
    assert_eq!(v(1, 2, 2).squared_length(), 9);
    assert_eq!(v(0, 0, 0).squared_length(), 0);
    assert!(v(0, 0, 0).is_zero());
    assert!(!v(0, 0, 1).is_zero());
}

#[test]
fn large_components_stay_exact() {
    let big = 1i64 << 62;
    let a = v(big, big, big);
    assert_eq!(a.dot(a), 3 * (big as i128) * (big as i128));
}

#[test]
fn point_at_zero_is_origin() {
    let r = Ray::new(v(1, 2, 3), v(-4, 5, 6));
    assert_eq!(r.point_at(0), r.origin());
    assert_eq!(r.point_at(2), v(-7, 12, 15));
    assert_eq!(r.point_at(-1), v(5, -3, -3));
    assert_eq!(r.direction(), v(-4, 5, 6));
}
