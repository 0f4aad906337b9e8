use kernel::fixed::{int_sqrt_wide, mul_div_raw, Scalar, MAX_RAW, MIN_RAW, ONE_RAW};
use kernel::rotation::Rotation;
use kernel::vector::{Vec3, DEGENERATE_NORM, UNIT_TOLERANCE};

fn scalar(v: f64) -> Scalar {
    Scalar::from_raw((v * 4294967296.0).round() as i64)
}

fn vec3(x: f64, y: f64, z: f64) -> Vec3 {
    Vec3::new(scalar(x), scalar(y), scalar(z))
}

fn norm_sq(v: Vec3) -> i128 {
    let (x, y, z) = (v.x.raw as i128, v.y.raw as i128, v.z.raw as i128);
    x * x + y * y + z * z
}

#[test]
fn whole_numbers_are_multiples_of_one() {
    assert_eq!(Scalar::from_int(3).raw, 3 * ONE_RAW);
    assert_eq!(Scalar::from_int(-2).raw, -2 * ONE_RAW);
    assert_eq!(Scalar::one().raw, 0x1_0000_0000);
    assert_eq!(Scalar::zero().raw, 0);
    assert!(Scalar::zero().is_zero());
    assert!(!Scalar::one().is_zero());
}

#[test]
fn sums_saturate_at_the_ends_of_the_range() {
    assert_eq!(Scalar::from_int(2).add(Scalar::from_int(3)), Scalar::from_int(5));
    assert_eq!(Scalar::from_raw(MAX_RAW).add(Scalar::one()).raw, MAX_RAW);
    assert_eq!(Scalar::from_raw(MIN_RAW).sub(Scalar::one()).raw, MIN_RAW);
    assert_eq!(Scalar::from_raw(MIN_RAW).neg().raw, MAX_RAW);
    assert_eq!(Scalar::from_raw(MIN_RAW).abs().raw, MAX_RAW);
    assert_eq!(Scalar::from_int(-7).abs(), Scalar::from_int(7));
    assert_eq!(Scalar::from_int(2).sub(Scalar::from_int(3)), Scalar::from_int(-1));
}

#[test]
fn products_round_toward_zero() {
    assert_eq!(Scalar::from_int(3).mul(scalar(0.5)), scalar(1.5));
    assert_eq!(Scalar::from_raw(3).mul(scalar(0.5)).raw, 1);
    assert_eq!(Scalar::from_raw(-3).mul(scalar(0.5)).raw, -1);
    assert_eq!(Scalar::from_raw(3).mul(scalar(-0.5)).raw, -1);
    assert_eq!(Scalar::from_raw(-3).mul(scalar(-0.5)).raw, 1);
    assert_eq!(Scalar::from_int(100000).mul(Scalar::from_int(100000)).raw, MAX_RAW);
    assert_eq!(Scalar::from_int(-100000).mul(Scalar::from_int(100000)).raw, MIN_RAW);
}

#[test]
fn quotients_round_toward_zero_and_zero_divides_nothing() {
    assert_eq!(Scalar::one().div(Scalar::from_int(3)).unwrap().raw, 1431655765);
    assert_eq!(Scalar::from_int(-1).div(Scalar::from_int(3)).unwrap().raw, -1431655765);
    assert_eq!(Scalar::from_int(6).div(Scalar::from_int(-3)).unwrap(), Scalar::from_int(-2));
    assert_eq!(Scalar::one().div(Scalar::zero()), None);
    assert_eq!(Scalar::from_raw(MAX_RAW).div(Scalar::from_raw(1)).unwrap().raw, MAX_RAW);
    assert_eq!(Scalar::from_raw(-3).half().raw, -1);
    assert_eq!(Scalar::from_raw(3).half().raw, 1);
    assert_eq!(mul_div_raw(7, 5, 2), 17);
    assert_eq!(mul_div_raw(-7, 5, 2), -17);
    assert_eq!(mul_div_raw(7, 5, -2), -17);
    assert_eq!(mul_div_raw(MIN_RAW, MIN_RAW, 1), MAX_RAW);
}

#[test]
fn square_roots_round_down() {
    assert_eq!(Scalar::from_int(4).sqrt(), Scalar::from_int(2));
    assert_eq!(Scalar::from_int(2).sqrt().raw, 6074000999);
    assert_eq!(Scalar::from_int(-4).sqrt(), Scalar::zero());
    assert_eq!(Scalar::zero().sqrt(), Scalar::zero());
    assert_eq!(int_sqrt_wide(0), 0);
    assert_eq!(int_sqrt_wide(15), 3);
    assert_eq!(int_sqrt_wide(16), 4);
    assert_eq!(int_sqrt_wide(u128::MAX), 0xffff_ffff_ffff_ffff);
}

#[test]
fn scalars_compare_by_their_raw_values() {
    assert!(Scalar::from_int(1).lt(Scalar::from_int(2)));
    assert!(!Scalar::from_int(2).lt(Scalar::from_int(2)));
    assert!(Scalar::from_int(2).le(Scalar::from_int(2)));
    assert!(!Scalar::from_int(3).le(Scalar::from_int(2)));
}

#[test]
fn vector_sums_products_and_lengths() {
    let a = Vec3::from_ints(1, 2, 3);
    let b = Vec3::from_ints(4, 5, 6);
    assert_eq!(a.add(b), Vec3::from_ints(5, 7, 9));
    assert_eq!(a.sub(b), Vec3::from_ints(-3, -3, -3));
    assert_eq!(a.neg(), Vec3::from_ints(-1, -2, -3));
    assert_eq!(a.scale(Scalar::from_int(2)), Vec3::from_ints(2, 4, 6));
    assert_eq!(a.dot(b), Scalar::from_int(32));
    assert_eq!(a.cross(b), Vec3::from_ints(-3, 6, -3));
    assert_eq!(Vec3::from_ints(1, 0, 0).cross(Vec3::from_ints(0, 1, 0)), Vec3::from_ints(0, 0, 1));
    assert_eq!(Vec3::from_ints(3, 4, 0).length(), Scalar::from_int(5));
    assert_eq!(Vec3::from_ints(3, 4, 0).norm_wide(), 5 * 0x1_0000_0000);
    assert_eq!(Vec3::zero().length(), Scalar::zero());
    assert_eq!(a.to_array(), [Scalar::from_int(1), Scalar::from_int(2), Scalar::from_int(3)]);
    let far = Vec3::new(Scalar::from_raw(MAX_RAW), Scalar::from_raw(MAX_RAW), Scalar::zero());
    assert_eq!(far.length().raw, MAX_RAW);
}

#[test]
fn unit_vectors_have_unit_length_within_the_tolerance() {
    let inputs = [
        vec3(0., 1., 1.),
        vec3(3., 4., 0.),
        vec3(1., 2., 3.),
        vec3(-1e-4, 2e-4, 5e-5),
        vec3(123456.0, -654321.0, 1.0),
        Vec3::new(Scalar::from_raw(MAX_RAW), Scalar::from_raw(MIN_RAW), Scalar::from_raw(MAX_RAW)),
        Vec3::new(Scalar::from_raw(DEGENERATE_NORM), Scalar::zero(), Scalar::zero()),
    ];
    let one_squared = (ONE_RAW as i128) * (ONE_RAW as i128);
    for v in inputs {
        let unit = v.normalize().unwrap();
        let gap = (norm_sq(unit) - one_squared).abs();
        assert!(gap <= UNIT_TOLERANCE as i128, "{:?} gives {:?}", v, unit);
    }
    assert_eq!(Vec3::from_ints(0, 0, 7).normalize().unwrap(), Vec3::from_ints(0, 0, 1));
    assert_eq!(Vec3::from_ints(-2, 0, 0).normalize().unwrap(), Vec3::from_ints(-1, 0, 0));
}

#[test]
fn short_vectors_have_no_direction() {
    assert_eq!(Vec3::zero().normalize(), None);
    let short = Vec3::new(Scalar::from_raw(DEGENERATE_NORM - 1), Scalar::zero(), Scalar::zero());
    assert_eq!(short.normalize(), None);
    let enough = Vec3::new(Scalar::zero(), Scalar::from_raw(DEGENERATE_NORM), Scalar::zero());
    assert_eq!(enough.normalize().unwrap(), Vec3::from_ints(0, 1, 0));
}

#[test]
fn nearness_is_decided_exactly() {
    let a = Vec3::from_ints(0, 0, 0);
    let b = Vec3::from_ints(3, 4, 0);
    assert!(a.within(b, Scalar::from_int(5)));
    assert!(!a.within(b, Scalar::from_raw(5 * ONE_RAW - 1)));
    assert!(a.within(a, Scalar::zero()));
    assert!(!a.within(a, Scalar::from_raw(-1)));
    let lo = Vec3::new(Scalar::from_raw(MIN_RAW), Scalar::from_raw(MIN_RAW), Scalar::from_raw(MIN_RAW));
    let hi = Vec3::new(Scalar::from_raw(MAX_RAW), Scalar::from_raw(MAX_RAW), Scalar::from_raw(MAX_RAW));
    assert!(!lo.within(hi, Scalar::from_raw(MAX_RAW)));
}

#[test]
fn rotations_compose_and_halve() {
    let quarter = Rotation { cos: Scalar::zero(), sin: Scalar::one() };
    assert_eq!(Rotation::identity().compose(quarter), quarter);
    let half_turn = quarter.compose(quarter);
    assert_eq!(half_turn, Rotation { cos: Scalar::from_int(-1), sin: Scalar::zero() });
    let eighth = quarter.half();
    assert_eq!(eighth.cos.raw, 3037000499);
    assert!((eighth.sin.raw - 3037000499).abs() <= 2);
    assert_eq!(half_turn.half(), quarter);
    // three quarters of a turn halve to three eighths
    let three_quarters = Rotation { cos: Scalar::zero(), sin: Scalar::from_int(-1) };
    let three_eighths = three_quarters.half();
    assert!((three_eighths.cos.raw + 3037000499).abs() <= 2);
    assert!((three_eighths.sin.raw - 3037000499).abs() <= 2);
}

#[test]
fn a_rotation_is_divided_into_equal_parts() {
    let quarter = Rotation { cos: Scalar::zero(), sin: Scalar::one() };
    for n in [2u32, 3, 5, 6, 16, 100] {
        let step = quarter.fraction(n);
        let angle = std::f64::consts::FRAC_PI_2 / n as f64;
        let cos = step.cos.raw as f64 / 4294967296.0;
        let sin = step.sin.raw as f64 / 4294967296.0;
        assert!((cos - angle.cos()).abs() < 1e-8, "cos for {}", n);
        assert!((sin - angle.sin()).abs() < 1e-8, "sin for {}", n);
    }
}

#[test]
fn a_vector_is_turned_about_an_axis() {
    let quarter = Rotation { cos: Scalar::zero(), sin: Scalar::one() };
    let turned = quarter.turn(Vec3::from_ints(2, 0, 0), Vec3::from_ints(0, 0, 1));
    assert_eq!(turned, Vec3::from_ints(0, 2, 0));
    let back = quarter.turn(Vec3::from_ints(2, 0, 0), Vec3::from_ints(0, 0, -1));
    assert_eq!(back, Vec3::from_ints(0, -2, 0));
}

#[test]
fn the_first_part_of_a_rotation_is_the_rotation() {
    let quarter = Rotation { cos: Scalar::zero(), sin: Scalar::one() };
    assert_eq!(quarter.fraction(1), quarter);
    assert_eq!(quarter.fraction(0), Rotation::identity());
}
