use std::f64::{INFINITY, NEG_INFINITY};

#[test]
fn yay_flaoting_point_standards() {
    assert_eq!(1.0_f64 / -0.0_f64, NEG_INFINITY);
    assert_eq!(1.0_f64 / 0.0_f64, INFINITY);
}
