//! Verified core of a small weather station: the BME280 register decoding,
//! the bit-banged I2C wire protocol, the anemometer reply format and the
//! scheduling decisions of the sampling, storage and time-sync loops.

pub mod bme280;
pub mod i2c;
pub mod i2c_laws;
pub mod wind;
pub mod config;
pub mod storage;
pub mod schedule;
pub mod connectivity;
pub mod ntp;
