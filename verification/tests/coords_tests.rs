use voxel_world::coords::I32x3Extension;

#[test]
fn add_sub_times_product_componentwise() {
    let a: (i32, i32, i32) = (1, -2, 3);
    let b: (i32, i32, i32) = (10, 20, -30);
    assert_eq!(a.add(b), (11, 18, -27));
    assert_eq!(a.sub(b), (-9, -22, 33));
    assert_eq!(a.times(4), (4, -8, 12));
    assert_eq!(a.product(b), (10, -40, -90));
}

#[test]
fn add_then_sub_gives_back_the_triple() {
    let a: (i32, i32, i32) = (7, -8, 9);
    let b: (i32, i32, i32) = (-100, 3, 55);
    assert_eq!(a.add(b).sub(b), a);
}

#[test]
fn swap_axes_per_axis() {
    let v: (i32, i32, i32) = (1, 2, 3);
    assert_eq!(v.swap_axes(0), (1, 3, 2));
    assert_eq!(v.swap_axes(1), (3, 2, 1));
    assert_eq!(v.swap_axes(2), (2, 1, 3));
    assert_eq!(v.swap_axes(-1), (1, 2, 3));
    assert_eq!(v.swap_axes(7), (1, 2, 3));
}

#[test]
fn swap_axes_twice_is_identity() {
    let v: (i32, i32, i32) = (4, -5, 6);
    for axis in -1..4 {
        assert_eq!(v.swap_axes(axis).swap_axes(axis), v);
    }
}

#[test]
fn pos_modulo_is_floor_remainder() {
    let v: (i32, i32, i32) = (-1, 17, -16);
    assert_eq!(v.pos_modulo(16), (15, 1, 0));
    let w: (i32, i32, i32) = (-33, 0, 31);
    assert_eq!(w.pos_modulo(16), (15, 0, 15));
}

#[test]
fn pos_modulo_stays_in_range() {
    for x in -40..40 {
        let r = (x, x * 3, -x).pos_modulo(16);
        assert!(0 <= r.0 && r.0 < 16);
        assert!(0 <= r.1 && r.1 < 16);
        assert!(0 <= r.2 && r.2 < 16);
        assert_eq!((x - r.0).rem_euclid(16), 0);
    }
}

#[test]
fn rolls_stay_below_the_modulus() {
    for m in [1, 2, 5, 100] {
        for _ in 0..200 {
            let r = voxel_world::random::roll(m);
            assert!(0 <= r && r < m);
        }
    }
}
