use tf2_price::{round_metal, Rounding, ONE_REF};

const POLICIES: [Rounding; 6] = [
    Rounding::UpScrap,
    Rounding::DownScrap,
    Rounding::Refined,
    Rounding::UpRefined,
    Rounding::DownRefined,
    Rounding::Unchanged,
];

#[test]
fn zero_stays_zero_under_every_policy() {
    for p in POLICIES.iter() {
        assert_eq!(0, round_metal(0, p));
    }
}

#[test]
fn scrap_policies_move_odd_values() {
    for m in [-7, -1, 1, 3, 19, 35] {
        assert_eq!(m + 1, round_metal(m, &Rounding::UpScrap));
        assert_eq!(m - 1, round_metal(m, &Rounding::DownScrap));
    }
}

#[test]
fn scrap_policies_keep_even_values() {
    for m in [-8, -2, 2, 4, 18, 36] {
        assert_eq!(m, round_metal(m, &Rounding::UpScrap));
        assert_eq!(m, round_metal(m, &Rounding::DownScrap));
    }
}

#[test]
fn refined_rounds_to_nearest_refined() {
    assert_eq!(18, round_metal(9, &Rounding::Refined));
    assert_eq!(0, round_metal(8, &Rounding::Refined));
    assert_eq!(18, round_metal(26, &Rounding::Refined));
    assert_eq!(36, round_metal(27, &Rounding::Refined));
    assert_eq!(-18, round_metal(-10, &Rounding::Refined));
    assert_eq!(0, round_metal(-9, &Rounding::Refined));
    assert_eq!(-18, round_metal(-20, &Rounding::Refined));
    assert_eq!(-18, round_metal(-27, &Rounding::Refined));
    assert_eq!(-36, round_metal(-28, &Rounding::Refined));
    assert_eq!(-36, round_metal(-30, &Rounding::Refined));
}

#[test]
fn refined_lands_on_refined_boundary() {
    for m in -100..100 {
        assert_eq!(0, round_metal(m, &Rounding::Refined) % ONE_REF);
    }
}

#[test]
fn refined_keeps_a_negative_refined() {
    assert_eq!(-18, round_metal(-18, &Rounding::Refined));
}

#[test]
fn up_refined_rounds_toward_positive() {
    assert_eq!(18, round_metal(1, &Rounding::UpRefined));
    assert_eq!(36, round_metal(19, &Rounding::UpRefined));
    assert_eq!(18, round_metal(18, &Rounding::UpRefined));
    assert_eq!(0, round_metal(-5, &Rounding::UpRefined));
    assert_eq!(-18, round_metal(-20, &Rounding::UpRefined));
    assert_eq!(-36, round_metal(-36, &Rounding::UpRefined));
}

#[test]
fn down_refined_rounds_toward_negative() {
    assert_eq!(0, round_metal(17, &Rounding::DownRefined));
    assert_eq!(18, round_metal(35, &Rounding::DownRefined));
    assert_eq!(36, round_metal(36, &Rounding::DownRefined));
    assert_eq!(-18, round_metal(-5, &Rounding::DownRefined));
    assert_eq!(-36, round_metal(-20, &Rounding::DownRefined));
}

#[test]
fn unchanged_keeps_value() {
    assert_eq!(13, round_metal(13, &Rounding::Unchanged));
    assert_eq!(-13, round_metal(-13, &Rounding::Unchanged));
}

#[test]
fn rounding_twice_equals_rounding_once() {
    for p in POLICIES.iter() {
        for m in -100..100 {
            let once = round_metal(m, p);
            assert_eq!(once, round_metal(once, p));
        }
    }
}

#[test]
fn rounding_near_the_largest_value() {
    assert_eq!(i32::MAX - 1, round_metal(i32::MAX, &Rounding::DownScrap));
    assert_eq!(2147483646, round_metal(i32::MAX, &Rounding::Refined));
    assert_eq!(2147483646, round_metal(i32::MAX, &Rounding::DownRefined));
}
