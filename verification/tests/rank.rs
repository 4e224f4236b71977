use rust3d::frame::{draw_order, DepthRange, Face};
use rust3d::rank::{rank_of_bits, INFINITY, MAGNITUDE, SIGN};

fn rank_of(x: f64) -> i64 {
    rank_of_bits(x.to_bits())
}

#[test]
fn rank_constants() {
    assert_eq!(SIGN, (-0.0f64).to_bits());
    assert_eq!(INFINITY, f64::INFINITY.to_bits());
    assert_eq!(MAGNITUDE, !SIGN);
}

#[test]
fn rank_of_both_zeros_is_zero() {
    assert_eq!(rank_of(0.0), 0);
    assert_eq!(rank_of(-0.0), 0);
}

#[test]
fn rank_of_one_is_its_bits() {
    assert_eq!(rank_of(1.0), 0x3ff0_0000_0000_0000);
    assert_eq!(rank_of(-1.0), -0x3ff0_0000_0000_0000);
}

#[test]
fn rank_of_the_infinities() {
    assert_eq!(rank_of(f64::INFINITY), 0x7ff0_0000_0000_0000);
    assert_eq!(rank_of(f64::NEG_INFINITY), -0x7ff0_0000_0000_0000);
}

#[test]
fn rank_of_what_is_no_number_is_the_least() {
    assert_eq!(rank_of(f64::NAN), i64::MIN);
    assert_eq!(rank_of(-f64::NAN), i64::MIN);
    assert_eq!(rank_of_bits(0x7ff0_0000_0000_0001), i64::MIN);
    assert_eq!(rank_of_bits(0xffff_ffff_ffff_ffff), i64::MIN);
    assert_eq!(rank_of_bits(0x7fff_ffff_ffff_ffff), i64::MIN);
}

#[test]
fn rank_is_ordered_as_the_doubles_are() {
    let samples: Vec<f64> = vec![
        f64::NEG_INFINITY,
        f64::MIN,
        -1.0e300,
        -300.0,
        -10.000000000000002,
        -10.0,
        -1.0,
        -f64::MIN_POSITIVE,
        -5e-324,
        -0.0,
        0.0,
        5e-324,
        f64::MIN_POSITIVE,
        0.1,
        1.0,
        9.999999999999998,
        10.0,
        10.000000000000002,
        299.99999999999994,
        300.0,
        300.00000000000006,
        1.0e300,
        f64::MAX,
        f64::INFINITY,
    ];
    for &a in samples.iter() {
        for &b in samples.iter() {
            assert_eq!(a < b, rank_of(a) < rank_of(b), "{} {}", a, b);
            assert_eq!(a == b, rank_of(a) == rank_of(b), "{} {}", a, b);
            assert_eq!(a <= b, rank_of(a) <= rank_of(b), "{} {}", a, b);
        }
    }
}

#[test]
fn measured_face_keeps_the_order_of_its_doubles() {
    let f = Face::measure((-2.5f64).to_bits(), 7, 10.0f64.to_bits(), 0.0f64.to_bits(), f64::NAN.to_bits());
    assert_eq!(f.facing, rank_of(-2.5));
    assert_eq!(f.depth, 7);
    assert_eq!(f.z1, rank_of(10.0));
    assert_eq!(f.z2, 0);
    assert_eq!(f.z3, i64::MIN);
}

fn measured(facing: f64, depth: i64, z: f64) -> Face {
    Face::measure(facing.to_bits(), depth, z.to_bits(), z.to_bits(), z.to_bits())
}

#[test]
fn measured_face_is_culled_from_zero_on() {
    assert!(measured(0.0, 0, 0.0).is_cull());
    assert!(measured(-0.0, 0, 0.0).is_cull());
    assert!(measured(5e-324, 0, 0.0).is_cull());
    assert!(measured(1.0e300, 0, 0.0).is_cull());
    assert!(measured(f64::INFINITY, 0, 0.0).is_cull());
    assert!(!measured(-5e-324, 0, 0.0).is_cull());
    assert!(!measured(-1.0, 0, 0.0).is_cull());
    assert!(!measured(f64::NEG_INFINITY, 0, 0.0).is_cull());
}

#[test]
fn measured_face_without_a_number_is_not_culled() {
    assert!(!measured(f64::NAN, 0, 0.0).is_cull());
}

#[test]
fn range_between_doubles_holds_both_planes() {
    let range = DepthRange::between(10.0f64.to_bits(), 300.0f64.to_bits());
    assert!(range.contains(rank_of(10.0)));
    assert!(range.contains(rank_of(300.0)));
    assert!(range.contains(rank_of(155.5)));
    assert!(!range.contains(rank_of(9.999999999999998)));
    assert!(!range.contains(rank_of(300.00000000000006)));
    assert!(!range.contains(rank_of(-20.0)));
    assert!(!range.contains(rank_of(f64::NAN)));
}

#[test]
fn range_between_doubles_keeps_faces_as_the_doubles_compare() {
    let (near, far) = (10.0f64, 300.0f64);
    let range = DepthRange::between(near.to_bits(), far.to_bits());
    let zs: Vec<f64> = vec![-1.0, 0.0, 9.9, 10.0, 10.1, 150.0, 299.9, 300.0, 300.1, f64::NAN];
    for &z1 in zs.iter() {
        for &z2 in zs.iter() {
            for &z3 in zs.iter() {
                let face = Face::measure((-1.0f64).to_bits(), 0, z1.to_bits(), z2.to_bits(), z3.to_bits());
                let expected = z1 >= near && z1 <= far && z2 >= near && z2 <= far && z3 >= near && z3 <= far;
                assert_eq!(range.keeps(&face), expected);
            }
        }
    }
}

#[test]
fn range_without_a_number_holds_nothing() {
    let open_near = DepthRange::between(f64::NAN.to_bits(), 300.0f64.to_bits());
    let open_far = DepthRange::between(10.0f64.to_bits(), f64::NAN.to_bits());
    for z in [f64::NEG_INFINITY, -1.0, 0.0, 10.0, 155.0, 300.0, f64::INFINITY, f64::NAN] {
        assert!(!open_near.contains(rank_of(z)));
        assert!(!open_far.contains(rank_of(z)));
    }
    assert!(!open_near.contains(i64::MIN));
    assert!(!open_near.contains(i64::MAX));
}

#[test]
fn frame_of_measured_faces() {
    let faces = vec![
        measured(-1.0, 10, 20.0),
        measured(0.5, 90, 20.0),
        measured(-0.25, 30, 9.5),
        measured(-3.0, 20, 300.0),
        measured(-0.0, 80, 20.0),
        measured(f64::NAN, 5, 10.0),
        measured(-1.0, 99, f64::NAN),
    ];
    let range = DepthRange::between(10.0f64.to_bits(), 300.0f64.to_bits());
    assert_eq!(draw_order(&faces, &range), vec![3, 0, 5]);
}
