use meteo_station::bme280::{parse_calibration, parse_raw_measurement, Calibration, RawMeasurement};

fn datasheet_tp_block() -> [u8; 24] {
    [
        0x70, 0x6B, // T1 = 27504
        0x43, 0x67, // T2 = 26435
        0x18, 0xFC, // T3 = -1000
        0x7D, 0x8E, // P1 = 36477
        0x43, 0xD6, // P2 = -10685
        0xD0, 0x0B, // P3 = 3024
        0x27, 0x0B, // P4 = 2855
        0x8C, 0x00, // P5 = 140
        0xF9, 0xFF, // P6 = -7
        0x8C, 0x3C, // P7 = 15500
        0xF8, 0xC6, // P8 = -14600
        0x70, 0x17, // P9 = 6000
    ]
}

#[test]
fn calibration_block_is_little_endian_with_signed_fields() {
    let h = [0x6A, 0x01, 0x00, 0x13, 0x24, 0x03, 0x1E];
    let c = parse_calibration(&datasheet_tp_block(), 75, &h);
    assert_eq!(c.dig_t1, 27504);
    assert_eq!(c.dig_t2, 26435);
    assert_eq!(c.dig_t3, -1000);
    assert_eq!(c.dig_p1, 36477);
    assert_eq!(c.dig_p2, -10685);
    assert_eq!(c.dig_p3, 3024);
    assert_eq!(c.dig_p4, 2855);
    assert_eq!(c.dig_p5, 140);
    assert_eq!(c.dig_p6, -7);
    assert_eq!(c.dig_p7, 15500);
    assert_eq!(c.dig_p8, -14600);
    assert_eq!(c.dig_p9, 6000);
    assert_eq!(c.dig_h1, 75);
    assert_eq!(c.dig_h2, 362);
    assert_eq!(c.dig_h3, 0);
    assert_eq!(c.dig_h4, 0x13 * 16 + 0x4);
    assert_eq!(c.dig_h5, 0x03 * 16 + 0x2);
    assert_eq!(c.dig_h6, 30);
}

#[test]
fn humidity_nibbles_are_split_and_h6_is_signed() {
    let h = [0xFF, 0xFF, 0xAB, 0x80, 0xF7, 0xFF, 0xF0];
    let c = parse_calibration(&[0u8; 24], 0, &h);
    assert_eq!(c.dig_h2, -1);
    assert_eq!(c.dig_h3, 0xAB);
    // the high byte of H4 is taken as unsigned
    assert_eq!(c.dig_h4, 0x80 * 16 + 0x7);
    assert_eq!(c.dig_h5, 0xFF * 16 + 0xF);
    assert_eq!(c.dig_h6, -16);
}

#[test]
fn default_calibration_is_zero() {
    let c = Calibration::default();
    assert_eq!(c, parse_calibration(&[0u8; 24], 0, &[0u8; 7]));
}

#[test]
fn raw_measurement_burst_is_split_into_20_20_16_bits() {
    let m = parse_raw_measurement(&[0x65, 0x5A, 0xC0, 0x7E, 0xED, 0x00, 0x6B, 0x3A]);
    assert_eq!(
        m,
        RawMeasurement { pressure: 415148, temperature: 519888, humidity: 27450 }
    );
}

#[test]
fn raw_measurement_ignores_low_nibble_of_xlsb() {
    let m = parse_raw_measurement(&[0xFF, 0xFF, 0xFF, 0xFF, 0xFF, 0x0F, 0xFF, 0xFF]);
    assert_eq!(m.pressure, 0xF_FFFF);
    assert_eq!(m.temperature, 0xF_FFF0);
    assert_eq!(m.humidity, 0xFFFF);
}
