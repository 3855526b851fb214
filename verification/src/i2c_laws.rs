//! Properties of the I2C transactions planned in `i2c`, stated over a model
//! of the two bus lines as the master drives them.

use crate::i2c::{
    address_byte, bits_value, msb_bit,
    ack_slot_seq, answer_seq, read_byte_seq, read_frames_seq, read_header_seq, read_register_seq,
    read_registers_seq, receive_bit_seq, receive_bits_seq, sample_count, send_bit_seq, send_bits_seq,
    start_seq, stop_seq, write_byte_seq, write_register_seq, BusOp,
};
use vstd::prelude::*;

verus! {

/// The state of the bus lines as far as the master's own actions go: the
/// level it drives on SCL, and the level it drives on SDA (`None` while SDA
/// is an input, released to the pull-up and to the device).
pub struct Lines {
    pub scl: bool,
    pub sda: Option<bool>,
}

/// An idle bus: both lines high.
pub open spec fn idle_lines() -> Lines {
    Lines { scl: true, sda: Some(true) }
}

/// The lines after one operation.
pub open spec fn after_op(l: Lines, op: BusOp) -> Lines {
    match op {
        BusOp::DriveSda(v) => Lines { scl: l.scl, sda: Some(v) },
        BusOp::DriveScl(v) => Lines { scl: v, sda: l.sda },
        BusOp::SampleSda => Lines { scl: l.scl, sda: None },
        BusOp::ReleaseSda => Lines { scl: l.scl, sda: None },
    }
}

/// The lines after a sequence of operations.
pub open spec fn after_ops(l: Lines, ops: Seq<BusOp>) -> Lines
    decreases ops.len(),
{
    if ops.len() == 0 {
        l
    } else {
        after_ops(after_op(l, ops[0]), ops.drop_first())
    }
}

/// The new SDA level, if the operation makes the master change SDA while
/// SCL is high. On an I2C bus such a change is a START (falling) or a STOP
/// (rising) condition; data may only change while SCL is low.
pub open spec fn op_high_clock_edge(l: Lines, op: BusOp) -> Seq<bool> {
    match op {
        BusOp::DriveSda(v) => if l.scl && l.sda != Some(v) {
            seq![v]
        } else {
            seq![]
        },
        _ => seq![],
    }
}

/// All SDA changes the master makes while SCL is high, in order.
pub open spec fn high_clock_edges(l: Lines, ops: Seq<BusOp>) -> Seq<bool>
    decreases ops.len(),
{
    if ops.len() == 0 {
        seq![]
    } else {
        op_high_clock_edge(l, ops[0]) + high_clock_edges(after_op(l, ops[0]), ops.drop_first())
    }
}

proof fn lemma_concat(l: Lines, a: Seq<BusOp>, b: Seq<BusOp>)
    ensures
        after_ops(l, a + b) == after_ops(after_ops(l, a), b),
        high_clock_edges(l, a + b) == high_clock_edges(l, a) + high_clock_edges(after_ops(l, a), b),
        sample_count(a + b) == sample_count(a) + sample_count(b),
    decreases a.len(),
{
    if a.len() == 0 {
        assert(a + b =~= b);
    } else {
        assert((a + b).drop_first() =~= a.drop_first() + b);
        assert((a + b)[0] == a[0]);
        lemma_concat(after_op(l, a[0]), a.drop_first(), b);
        let e0 = op_high_clock_edge(l, a[0]);
        let ea = high_clock_edges(after_op(l, a[0]), a.drop_first());
        let eb = high_clock_edges(after_ops(l, a), b);
        assert(e0 + (ea + eb) =~= (e0 + ea) + eb);
    }
}

proof fn lemma_start(l: Lines)
    requires
        !l.scl || l.sda == Some(true),
    ensures
        high_clock_edges(l, start_seq()) == seq![false],
        after_ops(l, start_seq()) == (Lines { scl: false, sda: Some(false) }),
        sample_count(start_seq()) == 0,
{
    reveal_with_fuel(high_clock_edges, 5);
    reveal_with_fuel(after_ops, 5);
    reveal_with_fuel(sample_count, 5);
    let s = start_seq();
    assert(s.drop_first().drop_first().drop_first().drop_first() =~= Seq::<BusOp>::empty());
    assert(high_clock_edges(l, s) =~= seq![false]);
}


proof fn lemma_single(l: Lines, op: BusOp)
    ensures
        high_clock_edges(l, seq![op]) == op_high_clock_edge(l, op),
        after_ops(l, seq![op]) == after_op(l, op),
        sample_count(seq![op]) == (if op is SampleSda { 1nat } else { 0nat }),
{
    reveal_with_fuel(high_clock_edges, 2);
    reveal_with_fuel(after_ops, 2);
    reveal_with_fuel(sample_count, 2);
    assert(seq![op].drop_first() =~= Seq::<BusOp>::empty());
    assert(op_high_clock_edge(l, op) + Seq::<bool>::empty() =~= op_high_clock_edge(l, op));
}

proof fn lemma_stop(l: Lines)
    requires
        !l.scl,
    ensures
        high_clock_edges(l, stop_seq()) == seq![true],
        after_ops(l, stop_seq()) == idle_lines(),
        sample_count(stop_seq()) == 0,
{
    reveal_with_fuel(high_clock_edges, 4);
    reveal_with_fuel(after_ops, 4);
    reveal_with_fuel(sample_count, 4);
    let s = stop_seq();
    assert(s.drop_first().drop_first().drop_first() =~= Seq::<BusOp>::empty());
    assert(high_clock_edges(l, s) =~= seq![true]);
}

proof fn lemma_send_bit(l: Lines, v: bool)
    requires
        !l.scl,
    ensures
        high_clock_edges(l, send_bit_seq(v)) == Seq::<bool>::empty(),
        after_ops(l, send_bit_seq(v)) == (Lines { scl: false, sda: Some(v) }),
        sample_count(send_bit_seq(v)) == 0,
{
    reveal_with_fuel(high_clock_edges, 4);
    reveal_with_fuel(after_ops, 4);
    reveal_with_fuel(sample_count, 4);
    let s = send_bit_seq(v);
    assert(s.drop_first().drop_first().drop_first() =~= Seq::<BusOp>::empty());
    assert(high_clock_edges(l, s) =~= Seq::<bool>::empty());
}

proof fn lemma_send_bits(l: Lines, b: u8, k: nat)
    requires
        !l.scl,
    ensures
        high_clock_edges(l, send_bits_seq(b, k)) == Seq::<bool>::empty(),
        !after_ops(l, send_bits_seq(b, k)).scl,
        sample_count(send_bits_seq(b, k)) == 0,
    decreases k,
{
    if k == 0 {
        reveal_with_fuel(high_clock_edges, 1);
        reveal_with_fuel(after_ops, 1);
        reveal_with_fuel(sample_count, 1);
    } else {
        let prev = send_bits_seq(b, (k - 1) as nat);
        lemma_send_bits(l, b, (k - 1) as nat);
        lemma_concat(l, prev, send_bit_seq(msb_bit(b, k - 1)));
        lemma_send_bit(after_ops(l, prev), msb_bit(b, k - 1));
        assert(Seq::<bool>::empty() + Seq::<bool>::empty() =~= Seq::<bool>::empty());
    }
}

proof fn lemma_write_byte(l: Lines, b: u8)
    requires
        !l.scl,
    ensures
        high_clock_edges(l, write_byte_seq(b)) == Seq::<bool>::empty(),
        after_ops(l, write_byte_seq(b)) == (Lines { scl: false, sda: None }),
        sample_count(write_byte_seq(b)) == 1,
{
    let bits = send_bits_seq(b, 8);
    lemma_send_bits(l, b, 8);
    lemma_concat(l, bits, ack_slot_seq());
    let m = after_ops(l, bits);
    reveal_with_fuel(high_clock_edges, 5);
    reveal_with_fuel(after_ops, 5);
    reveal_with_fuel(sample_count, 5);
    let s = ack_slot_seq();
    assert(s.drop_first().drop_first().drop_first().drop_first() =~= Seq::<BusOp>::empty());
    assert(high_clock_edges(m, s) =~= Seq::<bool>::empty());
    assert(Seq::<bool>::empty() + Seq::<bool>::empty() =~= Seq::<bool>::empty());
}

proof fn lemma_receive_bits(k: nat)
    ensures
        high_clock_edges(Lines { scl: false, sda: None }, receive_bits_seq(k))
            == Seq::<bool>::empty(),
        after_ops(Lines { scl: false, sda: None }, receive_bits_seq(k)) == (Lines {
            scl: false,
            sda: None,
        }),
        sample_count(receive_bits_seq(k)) == k,
    decreases k,
{
    let l = Lines { scl: false, sda: None };
    if k == 0 {
        reveal_with_fuel(high_clock_edges, 1);
        reveal_with_fuel(after_ops, 1);
        reveal_with_fuel(sample_count, 1);
    } else {
        let prev = receive_bits_seq((k - 1) as nat);
        lemma_receive_bits((k - 1) as nat);
        lemma_concat(l, prev, receive_bit_seq());
        reveal_with_fuel(high_clock_edges, 4);
        reveal_with_fuel(after_ops, 4);
        reveal_with_fuel(sample_count, 4);
        let s = receive_bit_seq();
        assert(s.drop_first().drop_first().drop_first() =~= Seq::<BusOp>::empty());
        assert(high_clock_edges(l, s) =~= Seq::<bool>::empty());
        assert(Seq::<bool>::empty() + Seq::<bool>::empty() =~= Seq::<bool>::empty());
    }
}

proof fn lemma_read_byte(l: Lines, ack: bool)
    requires
        !l.scl,
    ensures
        high_clock_edges(l, read_byte_seq(ack)) == Seq::<bool>::empty(),
        after_ops(l, read_byte_seq(ack)) == (Lines { scl: false, sda: Some(true) }),
        sample_count(read_byte_seq(ack)) == 8,
{
    let rel = seq![BusOp::ReleaseSda];
    let bits = receive_bits_seq(8);
    let ans = answer_seq(ack);
    lemma_single(l, BusOp::ReleaseSda);
    lemma_receive_bits(8);
    lemma_concat(l, rel, bits);
    let m = after_ops(l, rel + bits);
    lemma_concat(l, rel + bits, ans);
    reveal_with_fuel(high_clock_edges, 5);
    reveal_with_fuel(after_ops, 5);
    reveal_with_fuel(sample_count, 5);
    assert(ans.drop_first().drop_first().drop_first().drop_first() =~= Seq::<BusOp>::empty());
    assert(high_clock_edges(m, ans) =~= Seq::<bool>::empty());
    assert(Seq::<bool>::empty() + Seq::<bool>::empty() =~= Seq::<bool>::empty());
}

proof fn lemma_read_frames(l: Lines, k: nat, n: nat)
    requires
        !l.scl,
    ensures
        high_clock_edges(l, read_frames_seq(k, n)) == Seq::<bool>::empty(),
        !after_ops(l, read_frames_seq(k, n)).scl,
        sample_count(read_frames_seq(k, n)) == 8 * k,
    decreases k,
{
    if k == 0 {
        reveal_with_fuel(high_clock_edges, 1);
        reveal_with_fuel(after_ops, 1);
        reveal_with_fuel(sample_count, 1);
    } else {
        let prev = read_frames_seq((k - 1) as nat, n);
        lemma_read_frames(l, (k - 1) as nat, n);
        lemma_concat(l, prev, read_byte_seq(k != n));
        lemma_read_byte(after_ops(l, prev), k != n);
        assert(Seq::<bool>::empty() + Seq::<bool>::empty() =~= Seq::<bool>::empty());
    }
}

proof fn lemma_read_header(l: Lines, addr: u8, reg: u8)
    requires
        !l.scl || l.sda == Some(true),
    ensures
        high_clock_edges(l, read_header_seq(addr, reg)) == seq![false, false],
        after_ops(l, read_header_seq(addr, reg)) == (Lines { scl: false, sda: None }),
        sample_count(read_header_seq(addr, reg)) == 3,
{
    let s1 = start_seq();
    let w1 = write_byte_seq(address_byte(addr, false));
    let w2 = write_byte_seq(reg);
    let s2 = start_seq();
    let w3 = write_byte_seq(address_byte(addr, true));
    lemma_start(l);
    let l1 = after_ops(l, s1);
    lemma_write_byte(l1, address_byte(addr, false));
    let l2 = after_ops(l1, w1);
    lemma_write_byte(l2, reg);
    let l3 = after_ops(l2, w2);
    lemma_start(l3);
    let l4 = after_ops(l3, s2);
    lemma_write_byte(l4, address_byte(addr, true));
    lemma_concat(l, s1, w1);
    lemma_concat(l, s1 + w1, w2);
    lemma_concat(l, s1 + w1 + w2, s2);
    lemma_concat(l, s1 + w1 + w2 + s2, w3);
    assert(high_clock_edges(l, read_header_seq(addr, reg)) =~= seq![false, false]);
}

/// Reading one register from an idle bus: while SCL is high the master
/// moves SDA exactly three times, for the START, the repeated START and the
/// STOP condition, so every data and address bit changes while SCL is low;
/// the bus is left idle; eleven levels are sampled (three acknowledge bits
/// and the eight bits of the register value).
pub proof fn lemma_read_register_bus(addr: u8, reg: u8)
    ensures
        high_clock_edges(idle_lines(), read_register_seq(addr, reg)) == seq![false, false, true],
        after_ops(idle_lines(), read_register_seq(addr, reg)) == idle_lines(),
        sample_count(read_register_seq(addr, reg)) == 11,
{
    let l = idle_lines();
    let h = read_header_seq(addr, reg);
    lemma_read_header(l, addr, reg);
    let l1 = after_ops(l, h);
    lemma_read_byte(l1, false);
    let l2 = after_ops(l1, read_byte_seq(false));
    lemma_stop(l2);
    lemma_concat(l, h, read_byte_seq(false));
    lemma_concat(l, h + read_byte_seq(false), stop_seq());
    assert(high_clock_edges(l, read_register_seq(addr, reg)) =~= seq![false, false, true]);
}

/// Reading `n` registers in one burst from an idle bus: the only SDA changes
/// while SCL is high are the START, repeated START and STOP conditions,
/// whatever `n` is; the bus is left idle; `3 + 8 * n` levels are sampled.
pub proof fn lemma_read_registers_bus(addr: u8, reg: u8, n: nat)
    ensures
        high_clock_edges(idle_lines(), read_registers_seq(addr, reg, n)) == seq![
            false,
            false,
            true,
        ],
        after_ops(idle_lines(), read_registers_seq(addr, reg, n)) == idle_lines(),
        sample_count(read_registers_seq(addr, reg, n)) == 3 + 8 * n,
{
    let l = idle_lines();
    let h = read_header_seq(addr, reg);
    let f = read_frames_seq(n, n);
    lemma_read_header(l, addr, reg);
    let l1 = after_ops(l, h);
    lemma_read_frames(l1, n, n);
    let l2 = after_ops(l1, f);
    lemma_stop(l2);
    lemma_concat(l, h, f);
    lemma_concat(l, h + f, stop_seq());
    assert(high_clock_edges(l, read_registers_seq(addr, reg, n)) =~= seq![false, false, true]);
}

/// Writing one register from an idle bus: the only SDA changes while SCL is
/// high are the START and the STOP condition; the bus is left idle; three
/// levels (the acknowledge bits) are sampled.
pub proof fn lemma_write_register_bus(addr: u8, reg: u8, val: u8)
    ensures
        high_clock_edges(idle_lines(), write_register_seq(addr, reg, val)) == seq![false, true],
        after_ops(idle_lines(), write_register_seq(addr, reg, val)) == idle_lines(),
        sample_count(write_register_seq(addr, reg, val)) == 3,
{
    let l = idle_lines();
    let s1 = start_seq();
    let w1 = write_byte_seq(address_byte(addr, false));
    let w2 = write_byte_seq(reg);
    let w3 = write_byte_seq(val);
    lemma_start(l);
    let l1 = after_ops(l, s1);
    lemma_write_byte(l1, address_byte(addr, false));
    let l2 = after_ops(l1, w1);
    lemma_write_byte(l2, reg);
    let l3 = after_ops(l2, w2);
    lemma_write_byte(l3, val);
    let l4 = after_ops(l3, w3);
    lemma_stop(l4);
    lemma_concat(l, s1, w1);
    lemma_concat(l, s1 + w1, w2);
    lemma_concat(l, s1 + w1 + w2, w3);
    lemma_concat(l, s1 + w1 + w2 + w3, stop_seq());
    assert(high_clock_edges(l, write_register_seq(addr, reg, val)) =~= seq![false, true]);
}


/// The bits of `b`, most significant first.
pub open spec fn msb_bits(b: u8) -> Seq<bool> {
    Seq::new(8, |i: int| msb_bit(b, i))
}

proof fn lemma_shift_step(b: u8, s: u8)
    requires
        s < 7,
    ensures
        (b >> s) as int == 2 * ((b >> ((s + 1) as u8)) as int) + ((b >> s) & 1u8) as int,
        ((b >> s) & 1u8) == 0u8 || ((b >> s) & 1u8) == 1u8,
{
    assert(s < 7 ==> (b >> s) as int == 2 * ((b >> ((s + 1) as u8)) as int) + ((b >> s)
        & 1u8) as int) by (bit_vector);
    assert(((b >> s) & 1u8) == 0u8 || ((b >> s) & 1u8) == 1u8) by (bit_vector);
}

proof fn lemma_msb_prefix(b: u8, k: nat)
    requires
        1 <= k <= 8,
    ensures
        bits_value(msb_bits(b).take(k as int)) == (b >> ((8 - k) as u8)) as nat,
    decreases k,
{
    let t = msb_bits(b).take(k as int);
    assert(t.last() == msb_bit(b, k - 1));
    if k == 1 {
        assert(t.drop_last() =~= Seq::<bool>::empty());
        assert(bits_value(t) == 2 * bits_value(t.drop_last()) + (if t.last() { 1nat } else { 0nat }));
        assert((b >> 7u8) == ((b >> 7u8) & 1u8) && ((b >> 7u8) == 0u8 || (b >> 7u8) == 1u8))
            by (bit_vector);
    } else {
        lemma_msb_prefix(b, (k - 1) as nat);
        assert(t.drop_last() =~= msb_bits(b).take(k - 1));
        let s: u8 = (8 - k) as u8;
        lemma_shift_step(b, s);
        assert(((s + 1) as u8) == ((8 - (k - 1)) as u8));
        assert(bits_value(t.drop_last()) == (b >> ((s + 1) as u8)) as nat);
        assert(bits_value(t) == 2 * bits_value(t.drop_last()) + (if t.last() { 1nat } else { 0nat }));
    }
}

/// A byte written by the master can be read back by the receiver's rule:
/// during the `i`-th clock pulse of `write_byte_seq(b)` SDA carries bit `i`
/// of `b` counted from the most significant end, and assembling those eight
/// levels most significant first (as `decode_register` does for received
/// bytes) gives `b` again.
pub proof fn lemma_write_byte_round_trip(b: u8)
    ensures
        write_byte_seq(b).len() == 28,
        forall|i: int|
            0 <= i < 8 ==> {
                &&& #[trigger] write_byte_seq(b)[3 * i] == BusOp::DriveSda(msb_bits(b)[i])
                &&& write_byte_seq(b)[3 * i + 1] == BusOp::DriveScl(true)
                &&& write_byte_seq(b)[3 * i + 2] == BusOp::DriveScl(false)
            },
        bits_value(msb_bits(b)) == b as nat,
{
    lemma_send_bits_layout(b, 8);
    lemma_msb_prefix(b, 8);
    assert(msb_bits(b).take(8) =~= msb_bits(b));
    assert((b >> 0u8) == b) by (bit_vector);
}

proof fn lemma_send_bits_layout(b: u8, k: nat)
    ensures
        send_bits_seq(b, k).len() == 3 * k,
        forall|i: int|
            0 <= i < k ==> {
                &&& #[trigger] send_bits_seq(b, k)[3 * i] == BusOp::DriveSda(msb_bit(b, i))
                &&& send_bits_seq(b, k)[3 * i + 1] == BusOp::DriveScl(true)
                &&& send_bits_seq(b, k)[3 * i + 2] == BusOp::DriveScl(false)
            },
    decreases k,
{
    if k > 0 {
        lemma_send_bits_layout(b, (k - 1) as nat);
        let prev = send_bits_seq(b, (k - 1) as nat);
        let s = send_bits_seq(b, k);
        assert forall|i: int| 0 <= i < k implies {
            &&& #[trigger] s[3 * i] == BusOp::DriveSda(msb_bit(b, i))
            &&& s[3 * i + 1] == BusOp::DriveScl(true)
            &&& s[3 * i + 2] == BusOp::DriveScl(false)
        } by {
            if i < k - 1 {
                assert(s[3 * i] == prev[3 * i]);
                assert(s[3 * i + 1] == prev[3 * i + 1]);
                assert(s[3 * i + 2] == prev[3 * i + 2]);
            }
        }
    }
}

proof fn lemma_read_frames_layout(k: nat, n: nat)
    ensures
        read_frames_seq(k, n).len() == 29 * k,
        forall|i: int, j: int|
            0 <= i < k && 0 <= j < 29 ==> #[trigger] read_frames_seq(k, n)[29 * i + j]
                == read_byte_seq(i + 1 != n)[j],
    decreases k,
{
    lemma_read_byte_len();
    if k > 0 {
        lemma_read_frames_layout((k - 1) as nat, n);
        let prev = read_frames_seq((k - 1) as nat, n);
        let s = read_frames_seq(k, n);
        assert forall|i: int, j: int| 0 <= i < k && 0 <= j < 29 implies #[trigger] s[29 * i + j]
            == read_byte_seq(i + 1 != n)[j] by {
            if i < k - 1 {
                assert(s[29 * i + j] == prev[29 * i + j]);
            } else {
                assert(s[29 * i + j] == read_byte_seq(k != n)[j]);
            }
        }
    }
}

proof fn lemma_receive_bits_len(k: nat)
    ensures
        receive_bits_seq(k).len() == 3 * k,
    decreases k,
{
    if k > 0 {
        lemma_receive_bits_len((k - 1) as nat);
    }
}

proof fn lemma_read_byte_len()
    ensures
        forall|ack: bool|
            #![trigger read_byte_seq(ack)]
            read_byte_seq(ack).len() == 29 && read_byte_seq(ack)[25] == BusOp::DriveSda(!ack),
{
    lemma_receive_bits_len(8);
}

/// In a burst read of `n` registers the master acknowledges every received
/// byte but the last, and answers the last with a NACK: the level it drives
/// in the acknowledge slot of byte `i` is high exactly when `i` is the last
/// byte.
pub proof fn lemma_read_registers_acks(addr: u8, reg: u8, n: nat)
    ensures
        read_registers_seq(addr, reg, n).len() == 92 + 29 * n + 3,
        forall|i: int|
            0 <= i < n ==> #[trigger] read_registers_seq(addr, reg, n)[92 + 29 * i + 25]
                == BusOp::DriveSda(i + 1 == n),
{
    lemma_send_bits_layout(address_byte(addr, false), 8);
    lemma_send_bits_layout(reg, 8);
    lemma_send_bits_layout(address_byte(addr, true), 8);
    lemma_read_frames_layout(n, n);
    lemma_read_byte_len();
    let h = read_header_seq(addr, reg);
    let f = read_frames_seq(n, n);
    assert(h.len() == 92);
    assert forall|i: int| 0 <= i < n implies #[trigger] read_registers_seq(addr, reg, n)[92 + 29
        * i + 25] == BusOp::DriveSda(i + 1 == n) by {
        assert(read_registers_seq(addr, reg, n)[92 + 29 * i + 25] == f[29 * i + 25]);
        assert(read_byte_seq(i + 1 != n)[25] == BusOp::DriveSda(!(i + 1 != n)));
    }
}

/// A burst read of one register is the same bus transaction as a
/// single-register read.
pub proof fn lemma_burst_of_one_is_single_read(addr: u8, reg: u8)
    ensures
        read_registers_seq(addr, reg, 1) == read_register_seq(addr, reg),
{
    reveal_with_fuel(read_frames_seq, 2);
    assert(read_frames_seq(1, 1) =~= read_byte_seq(false));
}

/// For a 7-bit device address, the address byte carries the address in its
/// upper seven bits and the transfer direction (1 for a read) in bit 0.
pub proof fn lemma_address_byte_fields(addr: u8, read: bool)
    requires
        addr < 128,
    ensures
        address_byte(addr, read) as int / 2 == addr as int,
        address_byte(addr, read) as int % 2 == (if read { 1int } else { 0int }),
{
}


proof fn lemma_write_byte_layout(b: u8)
    ensures
        write_byte_seq(b).len() == 28,
        forall|i: int|
            0 <= i < 8 ==> #[trigger] write_byte_seq(b)[3 * i] == BusOp::DriveSda(
                ((b >> ((7 - i) as u8)) & 1u8) == 1u8,
            ),
{
    lemma_send_bits_layout(b, 8);
    let w = write_byte_seq(b);
    assert forall|i: int| 0 <= i < 8 implies #[trigger] w[3 * i] == BusOp::DriveSda(
        ((b >> ((7 - i) as u8)) & 1u8) == 1u8,
    ) by {
        assert(w[3 * i] == send_bits_seq(b, 8)[3 * i]);
    }
}

proof fn lemma_address_bytes(addr: u8)
    ensures
        address_byte(addr, false) == addr << 1u8,
        address_byte(addr, true) == (addr << 1u8) | 1u8,
{
    assert((addr << 1u8) as int == (addr as int * 2) % 256) by (bit_vector);
    assert(((addr << 1u8) | 1u8) as int == (addr as int * 2) % 256 + 1) by (bit_vector);
}

proof fn lemma_header_layout(addr: u8, reg: u8)
    ensures
        read_header_seq(addr, reg).len() == 92,
        forall|i: int|
            0 <= i < 8 ==> {
                &&& #[trigger] read_header_seq(addr, reg)[4 + 3 * i] == BusOp::DriveSda(
                    (((addr << 1u8) >> ((7 - i) as u8)) & 1u8) == 1u8,
                )
                &&& read_header_seq(addr, reg)[32 + 3 * i] == BusOp::DriveSda(
                    ((reg >> ((7 - i) as u8)) & 1u8) == 1u8,
                )
                &&& read_header_seq(addr, reg)[64 + 3 * i] == BusOp::DriveSda(
                    ((((addr << 1u8) | 1u8) >> ((7 - i) as u8)) & 1u8) == 1u8,
                )
            },
{
    lemma_address_bytes(addr);
    let w1 = write_byte_seq(address_byte(addr, false));
    let w2 = write_byte_seq(reg);
    let w3 = write_byte_seq(address_byte(addr, true));
    lemma_write_byte_layout(address_byte(addr, false));
    lemma_write_byte_layout(reg);
    lemma_write_byte_layout(address_byte(addr, true));
    let h = read_header_seq(addr, reg);
    assert(start_seq().len() == 4);
    assert forall|i: int| 0 <= i < 8 implies {
        &&& #[trigger] h[4 + 3 * i] == BusOp::DriveSda(
            (((addr << 1u8) >> ((7 - i) as u8)) & 1u8) == 1u8,
        )
        &&& h[32 + 3 * i] == BusOp::DriveSda(((reg >> ((7 - i) as u8)) & 1u8) == 1u8)
        &&& h[64 + 3 * i] == BusOp::DriveSda(
            ((((addr << 1u8) | 1u8) >> ((7 - i) as u8)) & 1u8) == 1u8,
        )
    } by {
        assert(h[4 + 3 * i] == w1[3 * i]);
        assert(h[32 + 3 * i] == w2[3 * i]);
        assert(h[64 + 3 * i] == w3[3 * i]);
    }
}

/// A register read (single or burst) addresses the device and the register
/// it is asked for: the first byte on the wire is the device address with
/// the write bit (`addr << 1`), the second is the register number
/// unchanged, and the byte after the repeated START is the device address
/// with the read bit (`(addr << 1) | 1`). Each byte goes out most
/// significant bit first, one bit per clock pulse.
pub proof fn lemma_read_addresses_device_and_register(addr: u8, reg: u8, n: nat)
    ensures
        forall|i: int|
            0 <= i < 8 ==> {
                &&& #[trigger] read_register_seq(addr, reg)[4 + 3 * i] == BusOp::DriveSda(
                    (((addr << 1u8) >> ((7 - i) as u8)) & 1u8) == 1u8,
                )
                &&& read_register_seq(addr, reg)[32 + 3 * i] == BusOp::DriveSda(
                    ((reg >> ((7 - i) as u8)) & 1u8) == 1u8,
                )
                &&& read_register_seq(addr, reg)[64 + 3 * i] == BusOp::DriveSda(
                    ((((addr << 1u8) | 1u8) >> ((7 - i) as u8)) & 1u8) == 1u8,
                )
                &&& read_registers_seq(addr, reg, n)[4 + 3 * i] == BusOp::DriveSda(
                    (((addr << 1u8) >> ((7 - i) as u8)) & 1u8) == 1u8,
                )
                &&& read_registers_seq(addr, reg, n)[32 + 3 * i] == BusOp::DriveSda(
                    ((reg >> ((7 - i) as u8)) & 1u8) == 1u8,
                )
                &&& read_registers_seq(addr, reg, n)[64 + 3 * i] == BusOp::DriveSda(
                    ((((addr << 1u8) | 1u8) >> ((7 - i) as u8)) & 1u8) == 1u8,
                )
            },
{
    lemma_header_layout(addr, reg);
    let h = read_header_seq(addr, reg);
    let r1 = read_register_seq(addr, reg);
    let rn = read_registers_seq(addr, reg, n);
    assert forall|i: int| 0 <= i < 8 implies {
        &&& #[trigger] r1[4 + 3 * i] == h[4 + 3 * i]
        &&& r1[32 + 3 * i] == h[32 + 3 * i]
        &&& r1[64 + 3 * i] == h[64 + 3 * i]
        &&& rn[4 + 3 * i] == h[4 + 3 * i]
        &&& rn[32 + 3 * i] == h[32 + 3 * i]
        &&& rn[64 + 3 * i] == h[64 + 3 * i]
    } by {
    }
}

/// A register write sends the device address with the write bit
/// (`addr << 1`), then the register number, then the value, each unchanged
/// and most significant bit first.
pub proof fn lemma_write_addresses_device_register_value(addr: u8, reg: u8, val: u8)
    ensures
        forall|i: int|
            0 <= i < 8 ==> {
                &&& #[trigger] write_register_seq(addr, reg, val)[4 + 3 * i] == BusOp::DriveSda(
                    (((addr << 1u8) >> ((7 - i) as u8)) & 1u8) == 1u8,
                )
                &&& write_register_seq(addr, reg, val)[32 + 3 * i] == BusOp::DriveSda(
                    ((reg >> ((7 - i) as u8)) & 1u8) == 1u8,
                )
                &&& write_register_seq(addr, reg, val)[60 + 3 * i] == BusOp::DriveSda(
                    ((val >> ((7 - i) as u8)) & 1u8) == 1u8,
                )
            },
{
    lemma_address_bytes(addr);
    let w1 = write_byte_seq(address_byte(addr, false));
    let w2 = write_byte_seq(reg);
    let w3 = write_byte_seq(val);
    lemma_write_byte_layout(address_byte(addr, false));
    lemma_write_byte_layout(reg);
    lemma_write_byte_layout(val);
    let w = write_register_seq(addr, reg, val);
    assert(start_seq().len() == 4);
    assert forall|i: int| 0 <= i < 8 implies {
        &&& #[trigger] w[4 + 3 * i] == w1[3 * i]
        &&& w[32 + 3 * i] == w2[3 * i]
        &&& w[60 + 3 * i] == w3[3 * i]
    } by {
    }
}

/// 1 when the operation samples SDA while SCL is low.
pub open spec fn op_low_clock_sample(l: Lines, op: BusOp) -> nat {
    if op is SampleSda && !l.scl {
        1
    } else {
        0
    }
}

/// Number of SDA samples taken while SCL is low. On I2C, SDA carries valid
/// data only while SCL is high.
pub open spec fn low_clock_samples(l: Lines, ops: Seq<BusOp>) -> nat
    decreases ops.len(),
{
    if ops.len() == 0 {
        0
    } else {
        op_low_clock_sample(l, ops[0]) + low_clock_samples(after_op(l, ops[0]), ops.drop_first())
    }
}

proof fn lemma_low_concat(l: Lines, a: Seq<BusOp>, b: Seq<BusOp>)
    ensures
        low_clock_samples(l, a + b) == low_clock_samples(l, a) + low_clock_samples(
            after_ops(l, a),
            b,
        ),
    decreases a.len(),
{
    if a.len() == 0 {
        assert(a + b =~= b);
    } else {
        assert((a + b).drop_first() =~= a.drop_first() + b);
        assert((a + b)[0] == a[0]);
        lemma_low_concat(after_op(l, a[0]), a.drop_first(), b);
    }
}

proof fn lemma_low_at_most_samples(l: Lines, ops: Seq<BusOp>)
    ensures
        low_clock_samples(l, ops) <= sample_count(ops),
    decreases ops.len(),
{
    if ops.len() > 0 {
        lemma_low_at_most_samples(after_op(l, ops[0]), ops.drop_first());
    }
}

proof fn lemma_no_sample_blocks(l: Lines, b: u8, k: nat, v: bool, ack: bool)
    ensures
        low_clock_samples(l, start_seq()) == 0,
        low_clock_samples(l, stop_seq()) == 0,
        low_clock_samples(l, send_bits_seq(b, k)) == 0,
        low_clock_samples(l, answer_seq(ack)) == 0,
{
    lemma_low_at_most_samples(l, start_seq());
    lemma_low_at_most_samples(l, stop_seq());
    lemma_low_at_most_samples(l, send_bits_seq(b, k));
    lemma_low_at_most_samples(l, answer_seq(ack));
    lemma_start(Lines { scl: false, sda: None });
    lemma_stop(Lines { scl: false, sda: None });
    lemma_send_bits(Lines { scl: false, sda: None }, b, k);
    reveal_with_fuel(sample_count, 5);
    let s = answer_seq(ack);
    assert(s.drop_first().drop_first().drop_first().drop_first() =~= Seq::<BusOp>::empty());
}

proof fn lemma_write_byte_high_samples(l: Lines, b: u8)
    requires
        !l.scl,
    ensures
        low_clock_samples(l, write_byte_seq(b)) == 0,
{
    let bits = send_bits_seq(b, 8);
    lemma_no_sample_blocks(l, b, 8, true, true);
    lemma_send_bits(l, b, 8);
    lemma_low_concat(l, bits, ack_slot_seq());
    reveal_with_fuel(low_clock_samples, 5);
    let s = ack_slot_seq();
    assert(s.drop_first().drop_first().drop_first().drop_first() =~= Seq::<BusOp>::empty());
}

proof fn lemma_receive_bits_high_samples(l: Lines, k: nat)
    ensures
        low_clock_samples(l, receive_bits_seq(k)) == 0,
    decreases k,
{
    if k > 0 {
        let prev = receive_bits_seq((k - 1) as nat);
        lemma_receive_bits_high_samples(l, (k - 1) as nat);
        lemma_low_concat(l, prev, receive_bit_seq());
        reveal_with_fuel(low_clock_samples, 4);
        let s = receive_bit_seq();
        assert(s.drop_first().drop_first().drop_first() =~= Seq::<BusOp>::empty());
    }
}

proof fn lemma_read_byte_high_samples(l: Lines, ack: bool)
    ensures
        low_clock_samples(l, read_byte_seq(ack)) == 0,
{
    let rel = seq![BusOp::ReleaseSda];
    let bits = receive_bits_seq(8);
    lemma_low_concat(l, rel, bits);
    lemma_low_concat(l, rel + bits, answer_seq(ack));
    reveal_with_fuel(low_clock_samples, 2);
    assert(rel.drop_first() =~= Seq::<BusOp>::empty());
    lemma_receive_bits_high_samples(after_ops(l, rel), 8);
    lemma_no_sample_blocks(after_ops(l, rel + bits), 0, 0, true, ack);
}

proof fn lemma_read_frames_high_samples(l: Lines, k: nat, n: nat)
    ensures
        low_clock_samples(l, read_frames_seq(k, n)) == 0,
    decreases k,
{
    if k > 0 {
        let prev = read_frames_seq((k - 1) as nat, n);
        lemma_read_frames_high_samples(l, (k - 1) as nat, n);
        lemma_low_concat(l, prev, read_byte_seq(k != n));
        lemma_read_byte_high_samples(after_ops(l, prev), k != n);
    }
}

proof fn lemma_header_high_samples(l: Lines, addr: u8, reg: u8)
    requires
        !l.scl || l.sda == Some(true),
    ensures
        low_clock_samples(l, read_header_seq(addr, reg)) == 0,
{
    let s1 = start_seq();
    let w1 = write_byte_seq(address_byte(addr, false));
    let w2 = write_byte_seq(reg);
    let s2 = start_seq();
    let w3 = write_byte_seq(address_byte(addr, true));
    lemma_start(l);
    let l1 = after_ops(l, s1);
    lemma_write_byte(l1, address_byte(addr, false));
    let l2 = after_ops(l1, w1);
    lemma_write_byte(l2, reg);
    let l3 = after_ops(l2, w2);
    lemma_start(l3);
    let l4 = after_ops(l3, s2);
    lemma_no_sample_blocks(l, 0, 0, true, true);
    lemma_no_sample_blocks(l3, 0, 0, true, true);
    lemma_write_byte_high_samples(l1, address_byte(addr, false));
    lemma_write_byte_high_samples(l2, reg);
    lemma_write_byte_high_samples(l4, address_byte(addr, true));
    lemma_concat(l, s1, w1);
    lemma_concat(l, s1 + w1, w2);
    lemma_concat(l, s1 + w1 + w2, s2);
    lemma_low_concat(l, s1, w1);
    lemma_low_concat(l, s1 + w1, w2);
    lemma_low_concat(l, s1 + w1 + w2, s2);
    lemma_low_concat(l, s1 + w1 + w2 + s2, w3);
}

/// Every level the master samples, in a register read (single or burst) or
/// a register write started on an idle bus, is read while SCL is high: the
/// data bits of received bytes and the acknowledge bits alike.
pub proof fn lemma_samples_taken_with_clock_high(addr: u8, reg: u8, val: u8, n: nat)
    ensures
        low_clock_samples(idle_lines(), read_register_seq(addr, reg)) == 0,
        low_clock_samples(idle_lines(), read_registers_seq(addr, reg, n)) == 0,
        low_clock_samples(idle_lines(), write_register_seq(addr, reg, val)) == 0,
{
    let l = idle_lines();
    let h = read_header_seq(addr, reg);
    lemma_read_header(l, addr, reg);
    lemma_header_high_samples(l, addr, reg);
    let l1 = after_ops(l, h);
    lemma_read_byte(l1, false);
    lemma_read_byte_high_samples(l1, false);
    lemma_no_sample_blocks(after_ops(l1, read_byte_seq(false)), 0, 0, true, true);
    lemma_concat(l, h, read_byte_seq(false));
    lemma_low_concat(l, h, read_byte_seq(false));
    lemma_low_concat(l, h + read_byte_seq(false), stop_seq());

    let f = read_frames_seq(n, n);
    lemma_read_frames_high_samples(l1, n, n);
    lemma_concat(l, h, f);
    lemma_no_sample_blocks(after_ops(l1, f), 0, 0, true, true);
    lemma_low_concat(l, h, f);
    lemma_low_concat(l, h + f, stop_seq());

    let s1 = start_seq();
    let w1 = write_byte_seq(address_byte(addr, false));
    let w2 = write_byte_seq(reg);
    let w3 = write_byte_seq(val);
    lemma_start(l);
    let m1 = after_ops(l, s1);
    lemma_write_byte(m1, address_byte(addr, false));
    let m2 = after_ops(m1, w1);
    lemma_write_byte(m2, reg);
    let m3 = after_ops(m2, w2);
    lemma_write_byte(m3, val);
    let m4 = after_ops(m3, w3);
    lemma_no_sample_blocks(l, 0, 0, true, true);
    lemma_no_sample_blocks(m4, 0, 0, true, true);
    lemma_write_byte_high_samples(m1, address_byte(addr, false));
    lemma_write_byte_high_samples(m2, reg);
    lemma_write_byte_high_samples(m3, val);
    lemma_concat(l, s1, w1);
    lemma_concat(l, s1 + w1, w2);
    lemma_concat(l, s1 + w1 + w2, w3);
    lemma_low_concat(l, s1, w1);
    lemma_low_concat(l, s1 + w1, w2);
    lemma_low_concat(l, s1 + w1 + w2, w3);
    lemma_low_concat(l, s1 + w1 + w2 + w3, stop_seq());
}

} // verus!
