//! The Modbus-RTU exchange with the anemometer on the serial port.

use vstd::prelude::*;

verus! {

/// Read one holding register (address 0) of the anemometer at slave
/// address 2, with its CRC.
pub const WIND_SPEED_QUERY: [u8; 8] = [0x02, 0x03, 0x00, 0x00, 0x00, 0x01, 0x84, 0x39];

/// The wind speed, in tenths of a metre per second, carried by a reply of
/// `len` bytes in `buffer`: a reply counts when it is exactly seven bytes
/// long and starts with the slave address 2 and the function code 3; the
/// speed is the big-endian register value in bytes 3 and 4. Anything else
/// carries no reading.
pub open spec fn wind_reply_spec(buffer: Seq<u8>, len: int) -> Option<u16> {
    if len == 7 && buffer[0] == 0x02 && buffer[1] == 0x03 {
        Some((buffer[3] as int * 256 + buffer[4] as int) as u16)
    } else {
        None
    }
}

/// Reads the wind speed, in tenths of a metre per second, out of the first
/// `len` bytes received into `buffer` after sending `WIND_SPEED_QUERY`.
pub fn parse_wind_speed_reply(buffer: &[u8; 8], len: usize) -> (ws10: Option<u16>)
    ensures
        ws10 == wind_reply_spec(buffer@, len as int),
        ws10 is Some <==> (len == 7 && buffer[0] == 0x02 && buffer[1] == 0x03),
        (len == 7 && buffer[0] == 0x02 && buffer[1] == 0x03) ==> ws10 == Some(
            (buffer[3] as int * 256 + buffer[4] as int) as u16,
        ),
        ws10 matches Some(v) ==> v as int / 256 == buffer[3] as int && v as int % 256
            == buffer[4] as int,
{
    if len == 7 && buffer[0] == 0x02 && buffer[1] == 0x03 {
        let hi = buffer[3];
        let lo = buffer[4];
        assert((((hi as u16) << 8u16) | (lo as u16)) as int == hi as int * 256 + lo as int)
            by (bit_vector);
        Some((hi as u16) << 8 | (lo as u16))
    } else {
        None
    }
}

/// A reply is accepted exactly when it is seven bytes long and comes from
/// slave 2 answering function 3, whatever register value it carries (zero,
/// calm air, included); the reading accepted has byte 3 as its high byte
/// and byte 4 as its low byte.
pub proof fn lemma_wind_reply(buffer: Seq<u8>, len: int)
    requires
        buffer.len() == 8,
    ensures
        wind_reply_spec(buffer, len) is Some <==> (len == 7 && buffer[0] == 0x02 && buffer[1]
            == 0x03),
        wind_reply_spec(buffer, len) matches Some(v) ==> v as int / 256 == buffer[3] as int
            && v as int % 256 == buffer[4] as int,
{
}

} // verus!
