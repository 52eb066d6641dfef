use rasterizer::fx::{Fx, MAX_RAW, SCALE};
use rasterizer::vector::{Vec2, Vec3, Vector, Zeroable};

#[test]
fn fixed_point_construction_and_rounding() {
    assert_eq!(Fx::from_int(1).0, SCALE);
    assert_eq!(Fx::from_int(-3).0, -3 * SCALE);
    assert_eq!(Fx::from_ratio(1, 2).0, SCALE / 2);
    // 65536 / 3 = 21845.33...: rounds down to the nearest step.
    assert_eq!(Fx::from_ratio(1, 3).0, 21845);
    // 2 * 65536 / 3 = 43690.66...: rounds up.
    assert_eq!(Fx::from_ratio(2, 3).0, 43691);
    // Halves round away from zero.
    assert_eq!(Fx::from_ratio(1, 131072).0, 1);
    assert_eq!(Fx::from_ratio(-1, 131072).0, -1);
    assert_eq!(Fx::zero().0, 0);
    assert_eq!(<Fx as Zeroable>::zero_value(), Fx(0));
}

#[test]
fn fixed_point_arithmetic_is_exact_on_the_grid() {
    let two = Fx::from_int(2);
    let three = Fx::from_int(3);
    assert_eq!(two.add(three), Fx::from_int(5));
    assert_eq!(two.sub(three), Fx::from_int(-1));
    assert_eq!(three.neg(), Fx::from_int(-3));
    assert_eq!(two.mul(three), Fx::from_int(6));
    assert_eq!(three.div(two), Fx::from_ratio(3, 2));
    let half = Fx::from_ratio(1, 2);
    assert_eq!(half.mul(half), Fx::from_ratio(1, 4));
    assert_eq!(Fx::from_int(1).div(three), Fx::from_ratio(1, 3));
    assert!(MAX_RAW >= 64 * SCALE);
}

#[test]
fn vector_componentwise_operations() {
    let a = Vec3(Fx::from_int(1), Fx::from_int(2), Fx::from_int(3));
    let b = Vec3(Fx::from_int(4), Fx::from_int(5), Fx::from_int(6));
    assert_eq!(a.add(&b), Vec3(Fx::from_int(5), Fx::from_int(7), Fx::from_int(9)));
    assert_eq!(b.sub(&a), Vec3(Fx::from_int(3), Fx::from_int(3), Fx::from_int(3)));
    assert_eq!(a.mul(&b), Vec3(Fx::from_int(4), Fx::from_int(10), Fx::from_int(18)));
    assert_eq!(
        a.div(&b),
        Vec3(Fx::from_ratio(1, 4), Fx::from_ratio(2, 5), Fx::from_ratio(1, 2))
    );
    assert_eq!(a.scal(Fx::from_int(2)), Vec3(Fx::from_int(2), Fx::from_int(4), Fx::from_int(6)));
    assert_eq!(a.sum(), Fx::from_int(6));
    assert_eq!(a.dot(&b), Fx::from_int(32));
    assert_eq!(a.len_sqr(), Fx::from_int(14));
}

#[test]
fn vector_indexing_and_zero() {
    let zero3 = <Vec3 as Vector>::zero();
    assert_eq!(zero3, Vec3(Fx(0), Fx(0), Fx(0)));
    let zero2 = <Vec2 as Vector>::zero();
    assert_eq!(zero2, Vec2(Fx(0), Fx(0)));

    let mut v = Vec3(Fx::from_int(1), Fx::from_int(2), Fx::from_int(3));
    assert_eq!(v.get(0), Fx::from_int(1));
    assert_eq!(v.get(1), Fx::from_int(2));
    assert_eq!(v.get(2), Fx::from_int(3));
    v.set(1, Fx::from_int(9));
    assert_eq!(v, Vec3(Fx::from_int(1), Fx::from_int(9), Fx::from_int(3)));

    let mut u = Vec2(Fx::from_int(4), Fx::from_int(5));
    assert_eq!(u.get(0), Fx::from_int(4));
    assert_eq!(u.get(1), Fx::from_int(5));
    u.set(0, Fx::from_int(7));
    assert_eq!(u, Vec2(Fx::from_int(7), Fx::from_int(5)));
}

#[test]
fn planar_vector_operations() {
    let e1 = Vec2(Fx::from_int(1), Fx::from_int(0));
    let e2 = Vec2(Fx::from_int(0), Fx::from_int(1));
    assert_eq!(e1.cross(&e2), Fx::from_int(1));
    assert_eq!(e2.cross(&e1), Fx::from_int(-1));
    assert_eq!(e1.cross(&e1), Fx::from_int(0));
    assert_eq!(e1.dot(&e2), Fx::from_int(0));
    assert_eq!(e1.len_sqr(), Fx::from_int(1));
    assert_eq!(e1.sum(), Fx::from_int(1));

    let v = Vec3(Fx::from_int(2), Fx::from_int(3), Fx::from_int(4));
    assert_eq!(v.xy(), Vec2(Fx::from_int(2), Fx::from_int(3)));
}
