//! Decoding of the BME280 calibration block and of its raw measurement
//! registers. The bus transfers that fetch these bytes, and the floating
//! point compensation that turns raw readings into physical units, live
//! outside this module; here the byte layout is pinned down exactly.

use vstd::prelude::*;

verus! {

/// 7-bit bus address of the sensor on the station board.
pub const BME280_ADDRESS: u8 = 0x76;

/// Register holding the chip identifier.
pub const REG_CHIP_ID: u8 = 0xD0;

/// First register of the temperature and pressure calibration block (24 bytes).
pub const REG_CALIB_TP: u8 = 0x88;

/// Register holding the `dig_H1` calibration byte.
pub const REG_CALIB_H1: u8 = 0xA1;

/// First register of the humidity calibration block (7 bytes).
pub const REG_CALIB_H: u8 = 0xE1;

/// Humidity oversampling control register.
pub const REG_CTRL_HUM: u8 = 0xF2;

/// Temperature/pressure oversampling and mode control register.
pub const REG_CTRL_MEAS: u8 = 0xF4;

/// First register of the 8-byte measurement burst.
pub const REG_DATA: u8 = 0xF7;

/// Humidity oversampling x1.
pub const CTRL_HUM_VALUE: u8 = 0x01;

/// Temperature x1, pressure x1, forced mode.
pub const CTRL_MEAS_VALUE: u8 = 0x25;

/// Chip identifier reported by a BME280.
pub const CHIP_ID_BME280: u8 = 0x60;

/// Chip identifier reported by a BMP280.
pub const CHIP_ID_BMP280: u8 = 0x58;

/// Factory calibration coefficients, as laid out in the sensor's registers.
#[derive(Clone, Copy, Debug, PartialEq, Eq)]
pub struct Calibration {
    pub dig_t1: u16,
    pub dig_t2: i16,
    pub dig_t3: i16,
    pub dig_p1: u16,
    pub dig_p2: i16,
    pub dig_p3: i16,
    pub dig_p4: i16,
    pub dig_p5: i16,
    pub dig_p6: i16,
    pub dig_p7: i16,
    pub dig_p8: i16,
    pub dig_p9: i16,
    pub dig_h1: u8,
    pub dig_h2: i16,
    pub dig_h3: u8,
    pub dig_h4: i16,
    pub dig_h5: i16,
    pub dig_h6: i8,
}

/// Uncompensated readings of one measurement burst.
#[derive(Clone, Copy, Debug, PartialEq, Eq)]
pub struct RawMeasurement {
    /// 20-bit raw pressure.
    pub pressure: u32,
    /// 20-bit raw temperature.
    pub temperature: u32,
    /// 16-bit raw humidity.
    pub humidity: u16,
}

/// Unsigned little-endian 16-bit value of two bytes.
pub open spec fn le_u16(lo: u8, hi: u8) -> int {
    hi as int * 256 + lo as int
}

/// Two's-complement little-endian 16-bit value of two bytes.
pub open spec fn le_i16(lo: u8, hi: u8) -> int {
    if hi < 128 {
        hi as int * 256 + lo as int
    } else {
        hi as int * 256 + lo as int - 65536
    }
}

/// Two's-complement value of one byte.
pub open spec fn byte_i8(b: u8) -> int {
    if b < 128 {
        b as int
    } else {
        b as int - 256
    }
}

/// The 20-bit value held in a most-significant-first byte triple whose last
/// byte carries the lowest four bits in its upper nibble.
pub open spec fn be_u20(msb: u8, lsb: u8, xlsb: u8) -> int {
    msb as int * 4096 + lsb as int * 16 + xlsb as int / 16
}

/// The calibration coefficients stored in the temperature/pressure block
/// `tp` (registers 0x88..0x9F), the byte `h1` (register 0xA1) and the
/// humidity block `h` (registers 0xE1..0xE7).
pub open spec fn calibration_spec(tp: Seq<u8>, h1: u8, h: Seq<u8>) -> Calibration
    recommends
        tp.len() == 24,
        h.len() == 7,
{
    Calibration {
        dig_t1: le_u16(tp[0], tp[1]) as u16,
        dig_t2: le_i16(tp[2], tp[3]) as i16,
        dig_t3: le_i16(tp[4], tp[5]) as i16,
        dig_p1: le_u16(tp[6], tp[7]) as u16,
        dig_p2: le_i16(tp[8], tp[9]) as i16,
        dig_p3: le_i16(tp[10], tp[11]) as i16,
        dig_p4: le_i16(tp[12], tp[13]) as i16,
        dig_p5: le_i16(tp[14], tp[15]) as i16,
        dig_p6: le_i16(tp[16], tp[17]) as i16,
        dig_p7: le_i16(tp[18], tp[19]) as i16,
        dig_p8: le_i16(tp[20], tp[21]) as i16,
        dig_p9: le_i16(tp[22], tp[23]) as i16,
        dig_h1: h1,
        dig_h2: le_i16(h[0], h[1]) as i16,
        dig_h3: h[2],
        dig_h4: (h[3] as int * 16 + h[4] as int % 16) as i16,
        dig_h5: (h[5] as int * 16 + h[4] as int / 16) as i16,
        dig_h6: byte_i8(h[6]) as i8,
    }
}

/// The raw readings held in the measurement burst `d` (registers 0xF7..0xFE).
pub open spec fn raw_measurement_spec(d: Seq<u8>) -> RawMeasurement
    recommends
        d.len() == 8,
{
    RawMeasurement {
        pressure: be_u20(d[0], d[1], d[2]) as u32,
        temperature: be_u20(d[3], d[4], d[5]) as u32,
        humidity: (d[6] as int * 256 + d[7] as int) as u16,
    }
}

proof fn lemma_u16_to_i16(x: u16)
    ensures
        (x as i16) as int == (if x < 32768 { x as int } else { x as int - 65536 }),
{
    assert(x < 32768 ==> (x as i16) as int == x as int) by (bit_vector);
    assert(x >= 32768 ==> (x as i16) as int == x as int - 65536) by (bit_vector);
}

fn read_le_u16(lo: u8, hi: u8) -> (r: u16)
    ensures
        r as int == le_u16(lo, hi),
{
    assert((((hi as u16) << 8u16) | (lo as u16)) == (hi as u16) * 256 + (lo as u16)) by (bit_vector);
    ((hi as u16) << 8) | (lo as u16)
}

fn read_le_i16(lo: u8, hi: u8) -> (r: i16)
    ensures
        r as int == le_i16(lo, hi),
{
    let u = read_le_u16(lo, hi);
    proof {
        lemma_u16_to_i16(u);
    }
    u as i16
}

/// Decodes the calibration coefficients from the three register blocks
/// read at start-up: `tp` from 0x88, `h1` from 0xA1 and `h` from 0xE1.
pub fn parse_calibration(tp: &[u8; 24], h1: u8, h: &[u8; 7]) -> (c: Calibration)
    ensures
        c == calibration_spec(tp@, h1, h@),
        c.dig_t1 as int == tp[1] as int * 256 + tp[0] as int,
        c.dig_t2 as int == tp[3] as int * 256 + tp[2] as int - (if tp[3] >= 128 { 65536int } else { 0int }),
        c.dig_t3 as int == tp[5] as int * 256 + tp[4] as int - (if tp[5] >= 128 { 65536int } else { 0int }),
        c.dig_p1 as int == tp[7] as int * 256 + tp[6] as int,
        c.dig_p2 as int == tp[9] as int * 256 + tp[8] as int - (if tp[9] >= 128 { 65536int } else { 0int }),
        c.dig_p3 as int == tp[11] as int * 256 + tp[10] as int - (if tp[11] >= 128 { 65536int } else { 0int }),
        c.dig_p4 as int == tp[13] as int * 256 + tp[12] as int - (if tp[13] >= 128 { 65536int } else { 0int }),
        c.dig_p5 as int == tp[15] as int * 256 + tp[14] as int - (if tp[15] >= 128 { 65536int } else { 0int }),
        c.dig_p6 as int == tp[17] as int * 256 + tp[16] as int - (if tp[17] >= 128 { 65536int } else { 0int }),
        c.dig_p7 as int == tp[19] as int * 256 + tp[18] as int - (if tp[19] >= 128 { 65536int } else { 0int }),
        c.dig_p8 as int == tp[21] as int * 256 + tp[20] as int - (if tp[21] >= 128 { 65536int } else { 0int }),
        c.dig_p9 as int == tp[23] as int * 256 + tp[22] as int - (if tp[23] >= 128 { 65536int } else { 0int }),
        c.dig_h1 == h1,
        c.dig_h2 as int == h[1] as int * 256 + h[0] as int - (if h[1] >= 128 { 65536int } else { 0int }),
        c.dig_h3 == h[2],
        c.dig_h4 as int == h[3] as int * 16 + h[4] as int % 16,
        c.dig_h4 as int / 16 == h[3] as int && c.dig_h4 as int % 16 == h[4] as int % 16,
        c.dig_h5 as int == h[5] as int * 16 + h[4] as int / 16,
        c.dig_h5 as int / 16 == h[5] as int && c.dig_h5 as int % 16 == h[4] as int / 16,
        c.dig_h6 as int == h[6] as int - (if h[6] >= 128 { 256int } else { 0int }),
{
    let h3 = h[3];
    let h4 = h[4];
    let h5 = h[5];
    let h6 = h[6];
    assert(((((h3 as u16) << 4u16) | ((h4 as u16) & 0x0Fu16)) as int) == h3 as int * 16 + h4 as int % 16) by (bit_vector);
    assert(((((h5 as u16) << 4u16) | ((h4 as u16) >> 4u16)) as int) == h5 as int * 16 + h4 as int / 16) by (bit_vector);
    assert(((h6 as i8) as int) == (if h6 < 128 { h6 as int } else { h6 as int - 256 })) by (bit_vector);
    let dig_h4 = (((h3 as u16) << 4) | ((h4 as u16) & 0x0F)) as i16;
    let dig_h5 = (((h5 as u16) << 4) | ((h4 as u16) >> 4)) as i16;
    Calibration {
        dig_t1: read_le_u16(tp[0], tp[1]),
        dig_t2: read_le_i16(tp[2], tp[3]),
        dig_t3: read_le_i16(tp[4], tp[5]),
        dig_p1: read_le_u16(tp[6], tp[7]),
        dig_p2: read_le_i16(tp[8], tp[9]),
        dig_p3: read_le_i16(tp[10], tp[11]),
        dig_p4: read_le_i16(tp[12], tp[13]),
        dig_p5: read_le_i16(tp[14], tp[15]),
        dig_p6: read_le_i16(tp[16], tp[17]),
        dig_p7: read_le_i16(tp[18], tp[19]),
        dig_p8: read_le_i16(tp[20], tp[21]),
        dig_p9: read_le_i16(tp[22], tp[23]),
        dig_h1: h1,
        dig_h2: read_le_i16(h[0], h[1]),
        dig_h3: h[2],
        dig_h4,
        dig_h5,
        dig_h6: h6 as i8,
    }
}

fn read_be_u20(msb: u8, lsb: u8, xlsb: u8) -> (r: u32)
    ensures
        r as int == be_u20(msb, lsb, xlsb),
{
    assert(((((msb as u32) << 12u32) | ((lsb as u32) << 4u32) | ((xlsb as u32) >> 4u32)) as int)
        == msb as int * 4096 + lsb as int * 16 + xlsb as int / 16) by (bit_vector);
    (msb as u32) << 12 | (lsb as u32) << 4 | (xlsb as u32) >> 4
}

/// Splits the 8-byte measurement burst read from 0xF7 into the raw
/// pressure, temperature and humidity readings.
pub fn parse_raw_measurement(d: &[u8; 8]) -> (m: RawMeasurement)
    ensures
        m == raw_measurement_spec(d@),
        m.pressure < 0x10_0000,
        m.temperature < 0x10_0000,
        m.pressure as int == d[0] as int * 4096 + d[1] as int * 16 + d[2] as int / 16,
        m.temperature as int == d[3] as int * 4096 + d[4] as int * 16 + d[5] as int / 16,
        m.humidity as int == d[6] as int * 256 + d[7] as int,
        m.pressure as int / 16 == d[0] as int * 256 + d[1] as int,
        m.pressure as int % 16 == d[2] as int / 16,
        m.temperature as int / 16 == d[3] as int * 256 + d[4] as int,
        m.temperature as int % 16 == d[5] as int / 16,
{
    RawMeasurement {
        pressure: read_be_u20(d[0], d[1], d[2]),
        temperature: read_be_u20(d[3], d[4], d[5]),
        humidity: read_le_u16(d[7], d[6]),
    }
}

impl Default for Calibration {
    /// All coefficients zero: the state of a driver that has not yet read
    /// the calibration block.
    fn default() -> (c: Calibration)
        ensures
            c.dig_t1 == 0 && c.dig_t2 == 0 && c.dig_t3 == 0,
            c.dig_p1 == 0 && c.dig_p2 == 0 && c.dig_p3 == 0 && c.dig_p4 == 0 && c.dig_p5 == 0,
            c.dig_p6 == 0 && c.dig_p7 == 0 && c.dig_p8 == 0 && c.dig_p9 == 0,
            c.dig_h1 == 0 && c.dig_h2 == 0 && c.dig_h3 == 0 && c.dig_h4 == 0 && c.dig_h5 == 0,
            c.dig_h6 == 0,
    {
        Calibration {
            dig_t1: 0,
            dig_t2: 0,
            dig_t3: 0,
            dig_p1: 0,
            dig_p2: 0,
            dig_p3: 0,
            dig_p4: 0,
            dig_p5: 0,
            dig_p6: 0,
            dig_p7: 0,
            dig_p8: 0,
            dig_p9: 0,
            dig_h1: 0,
            dig_h2: 0,
            dig_h3: 0,
            dig_h4: 0,
            dig_h5: 0,
            dig_h6: 0,
        }
    }
}

/// Every 16-bit coefficient is the little-endian word of its two
/// registers: written back as a 16-bit two's-complement word it gives the
/// register bytes again. `dig_H4` takes register 0xE4 as its upper eight
/// bits and the low nibble of 0xE5 as its low four bits; `dig_H5` takes
/// register 0xE6 as its upper eight bits and the high nibble of 0xE5 as
/// its low four bits; `dig_H6` is register 0xE7 as a signed byte.
pub proof fn lemma_calibration_registers(tp: Seq<u8>, h1: u8, h: Seq<u8>)
    requires
        tp.len() == 24,
        h.len() == 7,
    ensures
        ({
            let c = calibration_spec(tp, h1, h);
            &&& (c.dig_t1 as int) % 65536 == tp[0] as int + 256 * tp[1] as int
            &&& (c.dig_t2 as int) % 65536 == tp[2] as int + 256 * tp[3] as int
            &&& (c.dig_t3 as int) % 65536 == tp[4] as int + 256 * tp[5] as int
            &&& (c.dig_p1 as int) % 65536 == tp[6] as int + 256 * tp[7] as int
            &&& (c.dig_p2 as int) % 65536 == tp[8] as int + 256 * tp[9] as int
            &&& (c.dig_p3 as int) % 65536 == tp[10] as int + 256 * tp[11] as int
            &&& (c.dig_p4 as int) % 65536 == tp[12] as int + 256 * tp[13] as int
            &&& (c.dig_p5 as int) % 65536 == tp[14] as int + 256 * tp[15] as int
            &&& (c.dig_p6 as int) % 65536 == tp[16] as int + 256 * tp[17] as int
            &&& (c.dig_p7 as int) % 65536 == tp[18] as int + 256 * tp[19] as int
            &&& (c.dig_p8 as int) % 65536 == tp[20] as int + 256 * tp[21] as int
            &&& (c.dig_p9 as int) % 65536 == tp[22] as int + 256 * tp[23] as int
            &&& c.dig_h1 == h1
            &&& (c.dig_h2 as int) % 65536 == h[0] as int + 256 * h[1] as int
            &&& c.dig_h3 == h[2]
            &&& 0 <= c.dig_h4 < 4096
            &&& c.dig_h4 as int / 16 == h[3] as int
            &&& c.dig_h4 as int % 16 == h[4] as int % 16
            &&& 0 <= c.dig_h5 < 4096
            &&& c.dig_h5 as int / 16 == h[5] as int
            &&& c.dig_h5 as int % 16 == h[4] as int / 16
            &&& (c.dig_h6 as int) % 256 == h[6] as int
            &&& (c.dig_h6 < 0 <==> h[6] >= 128)
        }),
{
}

/// The raw readings are the 20-bit, 20-bit and 16-bit big-endian values of
/// the burst: each 20-bit reading carries its first two bytes as its upper
/// sixteen bits and the upper nibble of its third byte as its low four
/// bits; the low nibble of that third byte is not part of it.
pub proof fn lemma_raw_measurement_registers(d: Seq<u8>)
    requires
        d.len() == 8,
    ensures
        ({
            let m = raw_measurement_spec(d);
            &&& m.pressure < 0x10_0000
            &&& m.pressure as int / 16 == d[0] as int * 256 + d[1] as int
            &&& m.pressure as int % 16 == d[2] as int / 16
            &&& m.temperature < 0x10_0000
            &&& m.temperature as int / 16 == d[3] as int * 256 + d[4] as int
            &&& m.temperature as int % 16 == d[5] as int / 16
            &&& m.humidity as int / 256 == d[6] as int
            &&& m.humidity as int % 256 == d[7] as int
        }),
{
}

} // verus!
