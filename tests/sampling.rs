use sensor_drivers::sampling::scale_inputs;

#[test]
fn zero_codes_give_zero() {
    assert_eq!(scale_inputs(0, 0), (0, 0, 0));
}

#[test]
fn full_scale_codes() {
    // 4095 * 3300 / 4096 = 3299; 3299 * 5000 / 3000 = 5498; 3299 * 1745 / 1000 = 5756
    assert_eq!(scale_inputs(4095, 4095), (5498, -5756, -258));
}

#[test]
fn mid_scale_codes() {
    // 2048 -> 1650 mV at the pin; 1650 * 5000 / 3000 = 2750
    // 1024 -> 825 mV at the pin; 825 * 1745 / 1000 = 1439
    assert_eq!(scale_inputs(2048, 1024), (2750, -1439, 1311));
}
