use meteo_station::i2c::{
    address_byte_for, decode_register, decode_registers, read_register_plan, read_registers_plan,
    write_register_plan, BusOp,
};

/// Replays a plan on a model of the two lines, starting idle, and returns
/// the SDA levels the master drives while SCL is high whenever SDA changes,
/// together with the final (scl, sda) state.
fn high_clock_edges(ops: &[BusOp]) -> (Vec<bool>, bool, Option<bool>) {
    let mut scl = true;
    let mut sda = Some(true);
    let mut edges = Vec::new();
    for op in ops {
        match *op {
            BusOp::DriveSda(v) => {
                if scl && sda != Some(v) {
                    edges.push(v);
                }
                sda = Some(v);
            }
            BusOp::DriveScl(v) => scl = v,
            BusOp::SampleSda | BusOp::ReleaseSda => sda = None,
        }
    }
    (edges, scl, sda)
}

fn samples(ops: &[BusOp]) -> usize {
    ops.iter().filter(|op| **op == BusOp::SampleSda).count()
}

fn bits_msb_first(b: u8) -> Vec<bool> {
    (0..8).map(|i| b & (0x80 >> i) != 0).collect()
}

#[test]
fn address_bytes_carry_direction_bit() {
    assert_eq!(address_byte_for(0x76, false), 0xEC);
    assert_eq!(address_byte_for(0x76, true), 0xED);
    // the top bit of an 8-bit "address" is shifted out
    assert_eq!(address_byte_for(0xF6, false), 0xEC);
}

#[test]
fn read_register_plan_layout() {
    let ops = read_register_plan(0x76, 0xD0);
    assert_eq!(ops.len(), 92 + 29 + 3);
    // START
    assert_eq!(
        &ops[0..4],
        &[BusOp::DriveSda(true), BusOp::DriveScl(true), BusOp::DriveSda(false), BusOp::DriveScl(false)]
    );
    // address byte 0xEC = 1110_1100, most significant bit first
    let sent: Vec<bool> = (0..8)
        .map(|i| match ops[4 + 3 * i] {
            BusOp::DriveSda(v) => v,
            other => panic!("unexpected {:?}", other),
        })
        .collect();
    assert_eq!(sent, bits_msb_first(0xEC));
    // acknowledge slot of the address byte
    assert_eq!(
        &ops[28..32],
        &[BusOp::DriveSda(true), BusOp::DriveScl(true), BusOp::SampleSda, BusOp::DriveScl(false)]
    );
    // the single received byte is answered with NACK
    assert_eq!(ops[92 + 25], BusOp::DriveSda(true));
    // STOP
    assert_eq!(
        &ops[ops.len() - 3..],
        &[BusOp::DriveSda(false), BusOp::DriveScl(true), BusOp::DriveSda(true)]
    );
    assert_eq!(samples(&ops), 11);
}

#[test]
fn register_read_changes_sda_under_high_clock_only_for_start_and_stop() {
    let (edges, scl, sda) = high_clock_edges(&read_register_plan(0x76, 0xA1));
    assert_eq!(edges, vec![false, false, true]);
    assert!(scl);
    assert_eq!(sda, Some(true));
    let (edges, _, _) = high_clock_edges(&read_registers_plan(0x76, 0x88, 24));
    assert_eq!(edges, vec![false, false, true]);
    let (edges, scl, sda) = high_clock_edges(&write_register_plan(0x76, 0xF4, 0x25));
    assert_eq!(edges, vec![false, true]);
    assert!(scl);
    assert_eq!(sda, Some(true));
}

#[test]
fn burst_read_acknowledges_all_but_last_byte() {
    let n = 7;
    let ops = read_registers_plan(0x76, 0xE1, n);
    assert_eq!(ops.len(), 92 + 29 * n + 3);
    assert_eq!(samples(&ops), 3 + 8 * n);
    for i in 0..n {
        assert_eq!(ops[92 + 29 * i], BusOp::ReleaseSda);
        assert_eq!(ops[92 + 29 * i + 25], BusOp::DriveSda(i + 1 == n));
    }
}

#[test]
fn burst_of_one_equals_single_read() {
    assert_eq!(read_registers_plan(0x76, 0xD0, 1), read_register_plan(0x76, 0xD0));
}

#[test]
fn empty_burst_is_header_and_stop() {
    let ops = read_registers_plan(0x76, 0xF7, 0);
    assert_eq!(ops.len(), 95);
    assert_eq!(samples(&ops), 3);
}

#[test]
fn write_register_plan_sends_three_bytes() {
    let ops = write_register_plan(0x76, 0xF2, 0x01);
    assert_eq!(ops.len(), 4 + 3 * 28 + 3);
    assert_eq!(samples(&ops), 3);
    let byte_at = |start: usize| -> Vec<bool> {
        (0..8)
            .map(|i| match ops[start + 3 * i] {
                BusOp::DriveSda(v) => v,
                other => panic!("unexpected {:?}", other),
            })
            .collect()
    };
    assert_eq!(byte_at(4), bits_msb_first(0xEC));
    assert_eq!(byte_at(32), bits_msb_first(0xF2));
    assert_eq!(byte_at(60), bits_msb_first(0x01));
}

#[test]
fn decode_register_reads_bits_after_three_acks() {
    let mut s = vec![false, false, false];
    s.extend(bits_msb_first(0x60));
    assert_eq!(decode_register(&s), 0x60);
    let mut s = vec![true, true, true];
    s.extend(bits_msb_first(0x00));
    assert_eq!(decode_register(&s), 0x00);
}

#[test]
fn decode_registers_reads_consecutive_bytes() {
    let data = [0x70u8, 0x6B, 0x43, 0xFF, 0x00];
    let mut s = vec![false, true, false];
    for b in data {
        s.extend(bits_msb_first(b));
    }
    assert_eq!(decode_registers(&s, data.len()), data.to_vec());
    assert_eq!(decode_registers(&vec![false; 3], 0), Vec::<u8>::new());
}

#[test]
fn written_byte_reads_back() {
    for b in [0x00u8, 0x01, 0x5A, 0x80, 0xEC, 0xFF] {
        let ops = write_register_plan(0x76, b, 0);
        let sent: Vec<bool> = (0..8)
            .map(|i| match ops[32 + 3 * i] {
                BusOp::DriveSda(v) => v,
                other => panic!("unexpected {:?}", other),
            })
            .collect();
        let mut s = vec![false, false, false];
        s.extend(sent);
        assert_eq!(decode_register(&s), b);
    }
}
