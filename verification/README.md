# meteo_station

Firmware logic of a small weather station (BME280 on a bit-banged I2C bus,
a Modbus anemometer on a serial port, local record files, cloud upload and
NTP time sync at start-up).

- `src/` is the verified library:
  - `i2c`: the I2C master as planned line operations, and decoding of the
    sampled levels; `i2c_laws` proves the bus properties of the plans
    (START/STOP are the only SDA changes under a high clock, bytes read back,
    ACK/NACK placement, sample counts).
  - `bme280`: calibration and raw-measurement register decoding.
  - `wind`: the anemometer query frame and reply decoding.
  - `storage`: data file naming (through chrono) and the flush discipline.
  - `schedule`, `connectivity`, `ntp`: the decisions of the sampling loop,
    of the network probe and of the time-sync retry policy.
  - `config`: the network and storage settings and their defaults.
- `app/` is the program around it: GPIO, serial port, files, HTTP, NTP,
  logging, and the floating-point compensation and unit conversions.
- `tests/` exercises the library on concrete values.
