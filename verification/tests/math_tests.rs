use ufos_core::math::{checked_lcm, down_to_nearest, greatest_common_divisor, up_to_nearest};

#[test]
fn rounds_to_a_quantum() {
    assert_eq!(up_to_nearest(1, 4096), 4096);
    assert_eq!(up_to_nearest(4096, 4096), 4096);
    assert_eq!(up_to_nearest(0, 4096), 0);
    assert_eq!(down_to_nearest(4097, 4096), 4096);
    assert_eq!(down_to_nearest(4095, 4096), 0);
}

#[test]
fn gcd_and_lcm_of_words() {
    assert_eq!(greatest_common_divisor(12, 18), 6);
    assert_eq!(greatest_common_divisor(0, 0), 0);
    assert_eq!(greatest_common_divisor(0, 7), 7);
    assert_eq!(checked_lcm(4096, 16384), Some(16384));
    assert_eq!(checked_lcm(4096, 12), Some(12288));
    assert_eq!(checked_lcm(0, 0), Some(0));
    assert_eq!(checked_lcm(usize::MAX, usize::MAX - 1), None);
}
