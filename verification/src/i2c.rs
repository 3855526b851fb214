//! The bit-banged I2C master used to talk to the BME280.
//!
//! A transaction is planned here as the exact sequence of line operations
//! the master performs (drive SDA, drive SCL, sample SDA, release SDA);
//! the caller executes the plan on two GPIO pins, waiting half a bit period
//! after every operation but a bare release, and hands back the levels it
//! sampled. The sampled levels are decoded here too.

use vstd::arithmetic::power2::*;
use vstd::prelude::*;

verus! {

/// One operation of the master on the two bus lines.
#[derive(Clone, Copy, Debug, PartialEq, Eq, Structural)]
pub enum BusOp {
    /// Switch SDA to output, drive it to the level, then wait.
    DriveSda(bool),
    /// Drive SCL to the level, then wait.
    DriveScl(bool),
    /// Switch SDA to input, wait, then record the level seen on it.
    SampleSda,
    /// Switch SDA to input without waiting.
    ReleaseSda,
}

// ---------------------------------------------------------------------------
// What the master puts on the wire
// ---------------------------------------------------------------------------

/// START condition: SDA falls while SCL is high, then SCL goes low.
pub open spec fn start_seq() -> Seq<BusOp> {
    seq![BusOp::DriveSda(true), BusOp::DriveScl(true), BusOp::DriveSda(false), BusOp::DriveScl(false)]
}

/// STOP condition: SDA rises while SCL is high.
pub open spec fn stop_seq() -> Seq<BusOp> {
    seq![BusOp::DriveSda(false), BusOp::DriveScl(true), BusOp::DriveSda(true)]
}

/// Bit `i` of `b`, counting from the most significant bit (`i == 0`).
pub open spec fn msb_bit(b: u8, i: int) -> bool {
    ((b >> ((7 - i) as u8)) & 1u8) == 1u8
}

/// One data bit sent by the master: set SDA while SCL is low, then pulse SCL.
pub open spec fn send_bit_seq(v: bool) -> Seq<BusOp> {
    seq![BusOp::DriveSda(v), BusOp::DriveScl(true), BusOp::DriveScl(false)]
}

/// The first `k` data bits of `b`, most significant first.
pub open spec fn send_bits_seq(b: u8, k: nat) -> Seq<BusOp>
    decreases k,
{
    if k == 0 {
        seq![]
    } else {
        send_bits_seq(b, (k - 1) as nat) + send_bit_seq(msb_bit(b, k - 1))
    }
}

/// The acknowledge slot after a byte sent by the master: SDA is let go high
/// and sampled during the ninth clock pulse.
pub open spec fn ack_slot_seq() -> Seq<BusOp> {
    seq![BusOp::DriveSda(true), BusOp::DriveScl(true), BusOp::SampleSda, BusOp::DriveScl(false)]
}

/// One byte sent by the master, with its acknowledge slot.
pub open spec fn write_byte_seq(b: u8) -> Seq<BusOp> {
    send_bits_seq(b, 8) + ack_slot_seq()
}

/// One data bit received by the master: SDA is sampled while SCL is high.
pub open spec fn receive_bit_seq() -> Seq<BusOp> {
    seq![BusOp::DriveScl(true), BusOp::SampleSda, BusOp::DriveScl(false)]
}

/// `k` received data bits.
pub open spec fn receive_bits_seq(k: nat) -> Seq<BusOp>
    decreases k,
{
    if k == 0 {
        seq![]
    } else {
        receive_bits_seq((k - 1) as nat) + receive_bit_seq()
    }
}

/// The master's answer after a received byte: SDA low (ACK) asks for more,
/// SDA high (NACK) ends the read. SDA is let go high afterwards.
pub open spec fn answer_seq(ack: bool) -> Seq<BusOp> {
    seq![BusOp::DriveSda(!ack), BusOp::DriveScl(true), BusOp::DriveScl(false), BusOp::DriveSda(true)]
}

/// One byte received by the master, followed by its ACK or NACK.
pub open spec fn read_byte_seq(ack: bool) -> Seq<BusOp> {
    seq![BusOp::ReleaseSda] + receive_bits_seq(8) + answer_seq(ack)
}

/// The address byte that opens a transfer: the 7-bit address shifted left,
/// with the direction bit (1 for a read) in bit 0. As in the `u8` shift it
/// is computed with, an address bit 7 is dropped.
pub open spec fn address_byte(addr: u8, read: bool) -> u8 {
    ((addr as int * 2) % 256 + (if read { 1int } else { 0int })) as u8
}

/// Everything a register read sends before the first data byte comes back:
/// START, device address (write), register number, repeated START,
/// device address (read).
pub open spec fn read_header_seq(addr: u8, reg: u8) -> Seq<BusOp> {
    start_seq() + write_byte_seq(address_byte(addr, false)) + write_byte_seq(reg) + start_seq()
        + write_byte_seq(address_byte(addr, true))
}

/// The first `k` byte frames of an `n`-byte burst read: every byte but the
/// last is acknowledged.
pub open spec fn read_frames_seq(k: nat, n: nat) -> Seq<BusOp>
    decreases k,
{
    if k == 0 {
        seq![]
    } else {
        read_frames_seq((k - 1) as nat, n) + read_byte_seq(k != n)
    }
}

/// Reading one register.
pub open spec fn read_register_seq(addr: u8, reg: u8) -> Seq<BusOp> {
    read_header_seq(addr, reg) + read_byte_seq(false) + stop_seq()
}

/// Reading `n` consecutive registers in one burst.
pub open spec fn read_registers_seq(addr: u8, reg: u8, n: nat) -> Seq<BusOp> {
    read_header_seq(addr, reg) + read_frames_seq(n, n) + stop_seq()
}

/// Writing one register.
pub open spec fn write_register_seq(addr: u8, reg: u8, val: u8) -> Seq<BusOp> {
    start_seq() + write_byte_seq(address_byte(addr, false)) + write_byte_seq(reg) + write_byte_seq(
        val,
    ) + stop_seq()
}

// ---------------------------------------------------------------------------
// Reading the sampled levels back
// ---------------------------------------------------------------------------

/// Number of `SampleSda` operations in a plan: the number of levels its
/// execution records.
pub open spec fn sample_count(ops: Seq<BusOp>) -> nat
    decreases ops.len(),
{
    if ops.len() == 0 {
        0
    } else {
        (if ops[0] is SampleSda { 1nat } else { 0nat }) + sample_count(ops.drop_first())
    }
}

/// The number whose binary digits, most significant first, are `bits`.
pub open spec fn bits_value(bits: Seq<bool>) -> nat
    decreases bits.len(),
{
    if bits.len() == 0 {
        0
    } else {
        2 * bits_value(bits.drop_last()) + (if bits.last() { 1nat } else { 0nat })
    }
}

/// The byte received in the `i`-th data frame of a register read, given the
/// levels sampled while executing it: three acknowledge samples of the
/// address and register bytes come first, then eight samples per byte.
pub open spec fn received_byte(samples: Seq<bool>, i: int) -> nat {
    bits_value(samples.subrange(3 + 8 * i, 3 + 8 * i + 8))
}

// ---------------------------------------------------------------------------
// Building plans
// ---------------------------------------------------------------------------

fn set_sda(ops: &mut Vec<BusOp>, v: bool)
    ensures
        final(ops)@ == old(ops)@.push(BusOp::DriveSda(v)),
{
    ops.push(BusOp::DriveSda(v));
}

fn set_scl(ops: &mut Vec<BusOp>, v: bool)
    ensures
        final(ops)@ == old(ops)@.push(BusOp::DriveScl(v)),
{
    ops.push(BusOp::DriveScl(v));
}

fn read_sda(ops: &mut Vec<BusOp>)
    ensures
        final(ops)@ == old(ops)@.push(BusOp::SampleSda),
{
    ops.push(BusOp::SampleSda);
}

fn start(ops: &mut Vec<BusOp>)
    ensures
        final(ops)@ == old(ops)@ + start_seq(),
{
    set_sda(ops, true);
    set_scl(ops, true);
    set_sda(ops, false);
    set_scl(ops, false);
    assert(ops@ =~= old(ops)@ + start_seq());
}

fn stop(ops: &mut Vec<BusOp>)
    ensures
        final(ops)@ == old(ops)@ + stop_seq(),
{
    set_sda(ops, false);
    set_scl(ops, true);
    set_sda(ops, true);
    assert(ops@ =~= old(ops)@ + stop_seq());
}

proof fn lemma_mask_bit(b: u8, i: u8)
    requires
        i < 8,
    ensures
        ((b & (0x80u8 >> i)) != 0u8) == (((b >> ((7 - i) as u8)) & 1u8) == 1u8),
{
    assert(i < 8 ==> (((b & (0x80u8 >> i)) != 0u8) == (((b >> ((7u8 - i) as u8)) & 1u8) == 1u8)))
        by (bit_vector);
}

fn write_byte(ops: &mut Vec<BusOp>, byte: u8)
    ensures
        final(ops)@ == old(ops)@ + write_byte_seq(byte),
{
    let ghost base = old(ops)@;
    for i in 0..8u8
        invariant
            ops@ == base + send_bits_seq(byte, i as nat),
    {
        proof {
            lemma_mask_bit(byte, i);
        }
        set_sda(ops, (byte & (0x80u8 >> i)) != 0);
        set_scl(ops, true);
        set_scl(ops, false);
        assert(send_bits_seq(byte, (i + 1) as nat) == send_bits_seq(byte, i as nat) + send_bit_seq(
            msb_bit(byte, i as int),
        ));
        assert(ops@ =~= base + send_bits_seq(byte, (i + 1) as nat));
    }
    set_sda(ops, true);
    set_scl(ops, true);
    read_sda(ops);
    set_scl(ops, false);
    assert(ops@ =~= base + write_byte_seq(byte));
}

fn read_byte(ops: &mut Vec<BusOp>, ack: bool)
    ensures
        final(ops)@ == old(ops)@ + read_byte_seq(ack),
{
    let ghost base = old(ops)@;
    ops.push(BusOp::ReleaseSda);
    for k in 0..8u8
        invariant
            ops@ == base + seq![BusOp::ReleaseSda] + receive_bits_seq(k as nat),
    {
        set_scl(ops, true);
        read_sda(ops);
        set_scl(ops, false);
        assert(receive_bits_seq((k + 1) as nat) == receive_bits_seq(k as nat)
            + receive_bit_seq());
        assert(ops@ =~= base + seq![BusOp::ReleaseSda] + receive_bits_seq((k + 1) as nat));
    }
    set_sda(ops, !ack);
    set_scl(ops, true);
    set_scl(ops, false);
    set_sda(ops, true);
    assert(ops@ =~= base + read_byte_seq(ack));
}

/// The address byte sent at the start of a transfer to `addr`.
pub fn address_byte_for(addr: u8, read: bool) -> (b: u8)
    ensures
        b == address_byte(addr, read),
        b as int % 2 == (if read { 1int } else { 0int }),
        b as int / 2 == addr as int % 128,
{
    assert((addr << 1u8) as int == (addr as int * 2) % 256) by (bit_vector);
    assert(((addr << 1u8) | 1u8) as int == (addr as int * 2) % 256 + 1) by (bit_vector);
    if read {
        (addr << 1) | 1
    } else {
        addr << 1
    }
}

fn read_header(ops: &mut Vec<BusOp>, addr: u8, reg: u8)
    ensures
        final(ops)@ == old(ops)@ + read_header_seq(addr, reg),
{
    let ghost base = old(ops)@;
    start(ops);
    write_byte(ops, address_byte_for(addr, false));
    write_byte(ops, reg);
    start(ops);
    write_byte(ops, address_byte_for(addr, true));
    assert(ops@ =~= base + read_header_seq(addr, reg));
}

/// The bus operations that read register `reg` of the device at `addr`.
pub fn read_register_plan(addr: u8, reg: u8) -> (ops: Vec<BusOp>)
    ensures
        ops@ == read_register_seq(addr, reg),
{
    let mut ops: Vec<BusOp> = Vec::new();
    read_header(&mut ops, addr, reg);
    read_byte(&mut ops, false);
    stop(&mut ops);
    assert(ops@ =~= read_register_seq(addr, reg));
    ops
}

/// The bus operations that read `len` consecutive registers starting at
/// `reg` of the device at `addr`, in one burst.
pub fn read_registers_plan(addr: u8, reg: u8, len: usize) -> (ops: Vec<BusOp>)
    ensures
        ops@ == read_registers_seq(addr, reg, len as nat),
{
    let mut ops: Vec<BusOp> = Vec::new();
    read_header(&mut ops, addr, reg);
    let ghost header = ops@;
    for i in 0..len
        invariant
            header == read_header_seq(addr, reg),
            ops@ == header + read_frames_seq(i as nat, len as nat),
    {
        read_byte(&mut ops, i + 1 != len);
        assert(read_frames_seq((i + 1) as nat, len as nat) == read_frames_seq(i as nat, len as nat)
            + read_byte_seq(i + 1 != len));
        assert(ops@ =~= header + read_frames_seq((i + 1) as nat, len as nat));
    }
    stop(&mut ops);
    assert(ops@ =~= read_registers_seq(addr, reg, len as nat));
    ops
}

/// The bus operations that write `val` to register `reg` of the device at
/// `addr`.
pub fn write_register_plan(addr: u8, reg: u8, val: u8) -> (ops: Vec<BusOp>)
    ensures
        ops@ == write_register_seq(addr, reg, val),
{
    let mut ops: Vec<BusOp> = Vec::new();
    start(&mut ops);
    write_byte(&mut ops, address_byte_for(addr, false));
    write_byte(&mut ops, reg);
    write_byte(&mut ops, val);
    stop(&mut ops);
    assert(ops@ =~= write_register_seq(addr, reg, val));
    ops
}

// ---------------------------------------------------------------------------
// Decoding samples
// ---------------------------------------------------------------------------

proof fn lemma_bits_value_bound(bits: Seq<bool>)
    ensures
        bits_value(bits) < pow2(bits.len()),
    decreases bits.len(),
{
    if bits.len() > 0 {
        lemma_bits_value_bound(bits.drop_last());
        lemma_pow2_unfold(bits.len());
    } else {
        lemma2_to64();
    }
}

proof fn lemma_bits_value_injective(s: Seq<bool>, t: Seq<bool>)
    requires
        s.len() == t.len(),
        bits_value(s) == bits_value(t),
    ensures
        s == t,
    decreases s.len(),
{
    if s.len() > 0 {
        let a: nat = if s.last() { 1 } else { 0 };
        let c: nat = if t.last() { 1 } else { 0 };
        let x = bits_value(s.drop_last());
        let y = bits_value(t.drop_last());
        assert(a == c && x == y) by (nonlinear_arith)
            requires
                2 * x + a == 2 * y + c,
                a <= 1,
                c <= 1,
        ;
        lemma_bits_value_injective(s.drop_last(), t.drop_last());
        assert(s =~= s.drop_last().push(s.last()));
        assert(t =~= t.drop_last().push(t.last()));
    } else {
        assert(s =~= t);
    }
}

/// Eight levels whose value is `b` are the bits of `b`, most significant
/// first.
proof fn lemma_bits_of_byte(s: Seq<bool>, b: u8)
    requires
        s.len() == 8,
        bits_value(s) == b as nat,
    ensures
        forall|k: int| 0 <= k < 8 ==> #[trigger] msb_bit(b, k) == s[k],
{
    crate::i2c_laws::lemma_write_byte_round_trip(b);
    let m = crate::i2c_laws::msb_bits(b);
    lemma_bits_value_injective(s, m);
    assert forall|k: int| 0 <= k < 8 implies #[trigger] msb_bit(b, k) == s[k] by {
        assert(m[k] == msb_bit(b, k));
    }
}

fn assemble_byte(samples: &Vec<bool>, first: usize) -> (b: u8)
    requires
        first + 8 <= samples@.len(),
    ensures
        b as nat == bits_value(samples@.subrange(first as int, first + 8)),
        forall|k: int| 0 <= k < 8 ==> #[trigger] msb_bit(b, k) == samples@[first + k],
{
    let mut byte: u8 = 0;
    for k in 0..8usize
        invariant
            first + 8 <= samples.len(),
            byte as nat == bits_value(samples@.subrange(first as int, first + k)),
    {
        let ghost prefix = samples@.subrange(first as int, first + k);
        let ghost next = samples@.subrange(first as int, first + k + 1);
        proof {
            lemma_bits_value_bound(prefix);
            lemma2_to64();
            if k < 7 {
                lemma_pow2_strictly_increases(k as nat, 7);
            }
            assert(byte < 128);
            assert(next.drop_last() =~= prefix);
        }
        assert(byte < 128 ==> (byte << 1u8) as int == byte as int * 2) by (bit_vector);
        assert(((byte << 1u8) | 1u8) as int == (byte << 1u8) as int + 1) by (bit_vector);
        byte = byte << 1;
        if samples[first + k] {
            byte = byte | 1;
        }
    }
    proof {
        lemma_bits_of_byte(samples@.subrange(first as int, first + 8), byte);
    }
    byte
}

/// The register value received by a single-register read, from the levels
/// sampled while executing `read_register_plan`.
pub fn decode_register(samples: &Vec<bool>) -> (val: u8)
    requires
        samples@.len() == 11,
    ensures
        val as nat == received_byte(samples@, 0),
        forall|k: int| 0 <= k < 8 ==> #[trigger] msb_bit(val, k) == samples@[3 + k],
{
    assemble_byte(samples, 3)
}

/// The `len` register values received by a burst read, from the levels
/// sampled while executing `read_registers_plan`.
pub fn decode_registers(samples: &Vec<bool>, len: usize) -> (vals: Vec<u8>)
    requires
        samples@.len() == 3 + 8 * len,
    ensures
        vals@.len() == len,
        forall|i: int| 0 <= i < len ==> vals@[i] as nat == #[trigger] received_byte(samples@, i),
        forall|i: int, k: int|
            0 <= i < len && 0 <= k < 8 ==> #[trigger] msb_bit(vals@[i], k) == samples@[3 + 8 * i
                + k],
{
    let mut vals: Vec<u8> = Vec::new();
    for i in 0..len
        invariant
            samples.len() == 3 + 8 * len,
            vals@.len() == i,
            forall|j: int| 0 <= j < i ==> vals@[j] as nat == #[trigger] received_byte(samples@, j),
            forall|j: int, k: int|
                0 <= j < i && 0 <= k < 8 ==> #[trigger] msb_bit(vals@[j], k) == samples@[3 + 8
                    * j + k],
    {
        let b = assemble_byte(samples, 3 + 8 * i);
        vals.push(b);
    }
    vals
}

} // verus!
