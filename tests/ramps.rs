use softraster::ramp::slope_intercept;

#[test]
fn slopes_work() {
    let r = softraster::ramp::slope_intercept(0, 10, 10, 0);
    assert_eq!(r.slope_num, 1 * r.den);
    assert_eq!(r.intercept_num, 0 * r.den);
    let r = softraster::ramp::slope_intercept(10, 0, 10, 0);
    assert_eq!(r.slope_num, -1 * r.den);
    assert_eq!(r.intercept_num, 10 * r.den);
}

#[test]
fn ramp_meets_both_ends() {
    for (from, to, steps, start) in [(3, 17, 5, 2), (-4, 9, -3, 11), (100, -50, 7, -20), (0, 1, 3, 0)] {
        let r = slope_intercept(from, to, steps, start);
        let at = |t: i32| r.slope_num * t as i128 + r.intercept_num;
        assert_eq!(at(start), from as i128 * r.den);
        assert_eq!(at(start + steps), to as i128 * r.den);
        assert!(r.den > 0);
    }
}

#[test]
fn zero_step_ramp_is_constant() {
    let r = slope_intercept(7, 99, 0, 3);
    assert_eq!(r.slope_num, 0);
    assert_eq!(r.pixel(0), 7);
    assert_eq!(r.pixel(200), 7);
}

#[test]
fn ramp_pixels_truncate_and_saturate() {
    let r = slope_intercept(0, 10, 3, 0);
    assert_eq!(r.pixel(0), 0);
    assert_eq!(r.pixel(1), 3);
    assert_eq!(r.pixel(2), 6);
    assert_eq!(r.pixel(3), 10);
    let r = slope_intercept(0, -10, 10, 0);
    assert_eq!(r.pixel(5), 0);
}
