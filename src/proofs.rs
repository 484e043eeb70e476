//! Laws relating request generation and response parsing.
use vstd::prelude::*;

use crate::checksum::{byte_sum, crc16_of, crc_byte, crc_shift, crc_step};
use crate::client::{
    be_value, bit_chunk, bit_of, family_of, pack_bits, pack_byte, unpack_bits,
    FrameFamily, ModbusProto, ModbusRequest,
};
use crate::error::ErrorKind;

verus! {

proof fn lemma_or_bit(x: u8, n: u8, j: u8)
    requires
        n < 8,
        j < 8,
    ensures
        ((x | (1u8 << n)) >> j) & 1u8 == 1u8 <==> ((x >> j) & 1u8 == 1u8 || j == n),
{
    assert(((x | (1u8 << n)) >> j) & 1u8 == 1u8 <==> ((x >> j) & 1u8 == 1u8 || j == n))
        by (bit_vector)
        requires
            n < 8,
            j < 8,
    ;
}

proof fn lemma_zero_bits(j: u8)
    requires
        j < 8,
    ensures
        (0u8 >> j) & 1u8 != 1u8,
{
    assert((0u8 >> j) & 1u8 != 1u8) by (bit_vector);
}

/// Bit `j` of a packed group is the `j`-th boolean, or zero past the group.
proof fn lemma_pack_byte_bit(bits: Seq<bool>, j: u8)
    requires
        bits.len() <= 8,
        j < 8,
    ensures
        (pack_byte(bits) >> j) & 1u8 == 1u8 <==> (j < bits.len() && bits[j as int]),
    decreases bits.len(),
{
    if bits.len() == 0 {
        lemma_zero_bits(j);
    } else {
        let rest = bits.drop_last();
        lemma_pack_byte_bit(rest, j);
        if bits.last() {
            lemma_or_bit(pack_byte(rest), (bits.len() - 1) as u8, j);
        }
    }
}

/// Unpacking `values.len()` bits from the packed form of `values` gives
/// `values` back, and the packed bytes hold at least that many bits: the
/// first `values.len()` of all their bits are `values`.
pub proof fn lemma_bits_round_trip(values: Seq<bool>)
    ensures
        values.len() <= 8 * pack_bits(values).len(),
        unpack_bits(pack_bits(values), values.len()) == values,
        unpack_bits(pack_bits(values), 8 * pack_bits(values).len()).take(values.len() as int)
            == values,
{
    let packed = pack_bits(values);
    assert forall|i: int| 0 <= i < values.len() implies bit_of(packed, i) == values[i] by {
        let k = i / 8;
        let chunk = bit_chunk(values, k);
        assert(packed[k] == pack_byte(chunk));
        lemma_pack_byte_bit(chunk, (i % 8) as u8);
        assert(chunk[i % 8] == values[i]);
    }
    assert(unpack_bits(packed, values.len()) =~= values);
    assert(unpack_bits(packed, 8 * packed.len()).take(values.len() as int) =~= values);
}

/// In a length-prefixed request frame, the length field holds the number of
/// bytes after the six-byte header, for every operation.
pub proof fn lemma_length_field(req: ModbusRequest, data: Seq<u8>)
    requires
        req.proto == ModbusProto::TcpUdp,
        family_of(req.func) is Some,
        data.len() <= 500,
    ensures
        req.frame(data).len() >= 6,
        be_value(req.frame(data)[4], req.frame(data)[5]) == req.frame(data).len() - 6,
{
    let pdu = req.pdu(data);
    assert(pdu.len() <= 507);
    let f = req.frame(data);
    assert(f[4] == (pdu.len() as u16 / 256) as u8);
    assert(f[5] == (pdu.len() as u16 % 256) as u8);
}

/// A well-formed answer to a read request — same transaction id, unit id and
/// function code, correct checksum, byte count equal to the number of data
/// bytes — is accepted, and its payload bounds enclose exactly the unit id,
/// function code, byte count and data; for the length-prefixed encoding the
/// length field equals the length of that payload.
pub proof fn lemma_read_answer_accepted(req: ModbusRequest, data: Seq<u8>)
    requires
        family_of(req.func) == Some(FrameFamily::Read),
        data.len() <= 255,
    ensures
        ({
            let pdu = seq![req.unit_id, req.func, data.len() as u8] + data;
            let buf = req.wrap(pdu);
            let start = if req.proto == ModbusProto::TcpUdp { 6int } else { 0int };
            &&& req.response_bounds(buf) == Ok::<(int, int), ErrorKind>(
                (start, start + pdu.len()),
            )
            &&& buf.subrange(start, start + pdu.len()) == pdu
            &&& req.proto == ModbusProto::TcpUdp ==> be_value(buf[4], buf[5]) == pdu.len()
        }),
{
    let pdu = seq![req.unit_id, req.func, data.len() as u8] + data;
    let buf = req.wrap(pdu);
    let n = buf.len() as int;
    match req.proto {
        ModbusProto::TcpUdp => {
            assert(buf.subrange(6, n) =~= pdu);
        },
        ModbusProto::Rtu => {
            assert(buf.take(n - 2) =~= pdu);
            assert(buf.subrange(0, n - 2) =~= pdu);
        },
        ModbusProto::Ascii => {
            assert(buf.take(n - 1) =~= pdu);
            assert(buf.subrange(0, n - 1) =~= pdu);
        },
    }
}

proof fn lemma_crc_step_injective(a: u16, b: u16)
    requires
        crc_step(a) == crc_step(b),
    ensures
        a == b,
{
    assert(a == b) by (bit_vector)
        requires
            (if a & 1 == 1 {
                (a >> 1u16) ^ 0xA001u16
            } else {
                a >> 1u16
            }) == (if b & 1 == 1 {
                (b >> 1u16) ^ 0xA001u16
            } else {
                b >> 1u16
            }),
    ;
}

proof fn lemma_crc_shift_injective(a: u16, b: u16, n: nat)
    requires
        crc_shift(a, n) == crc_shift(b, n),
    ensures
        a == b,
    decreases n,
{
    if n > 0 {
        lemma_crc_step_injective(crc_shift(a, (n - 1) as nat), crc_shift(b, (n - 1) as nat));
        lemma_crc_shift_injective(a, b, (n - 1) as nat);
    }
}

proof fn lemma_xor_cancel(c1: u16, c2: u16, x: u8, y: u8)
    requires
        c1 ^ (x as u16) == c2 ^ (y as u16),
    ensures
        c1 == c2 <==> x == y,
{
    let xx = x as u16;
    let yy = y as u16;
    assert(c1 ^ xx == c2 ^ yy ==> (c1 == c2 <==> xx == yy)) by (bit_vector);
}

/// Changing byte `i` of a sequence changes the CRC of every prefix that holds it.
proof fn lemma_crc_detects_change(s: Seq<u8>, i: int, b: u8, j: int)
    requires
        0 <= i < j <= s.len(),
        b != s[i],
    ensures
        crc16_of(s.update(i, b).take(j)) != crc16_of(s.take(j)),
    decreases j,
{
    let t = s.update(i, b);
    assert(t.take(j).drop_last() =~= t.take(j - 1));
    assert(s.take(j).drop_last() =~= s.take(j - 1));
    let c1 = crc16_of(t.take(j - 1));
    let c2 = crc16_of(s.take(j - 1));
    if j - 1 == i {
        assert(t.take(j - 1) =~= s.take(j - 1));
    } else {
        lemma_crc_detects_change(s, i, b, j - 1);
    }
    if crc_byte(c1, t[j - 1]) == crc_byte(c2, s[j - 1]) {
        lemma_crc_shift_injective(c1 ^ (t[j - 1] as u16), c2 ^ (s[j - 1] as u16), 8);
        lemma_xor_cancel(c1, c2, t[j - 1], s[j - 1]);
    }
}

/// The byte sum after changing byte `i` from `s[i]` to `b`.
proof fn lemma_byte_sum_update(s: Seq<u8>, i: int, b: u8)
    requires
        0 <= i < s.len(),
    ensures
        byte_sum(s.update(i, b)) + s[i] == byte_sum(s) + b,
    decreases s.len(),
{
    let t = s.update(i, b);
    if i < s.len() - 1 {
        assert(t.drop_last() =~= s.drop_last().update(i, b));
        lemma_byte_sum_update(s.drop_last(), i, b);
    } else {
        assert(t.drop_last() =~= s.drop_last());
    }
}

/// Changing any one byte of a checksummed (CRC or LRC) frame that passes its
/// checksum makes the checksum check fail.
pub proof fn lemma_corruption_detected(req: ModbusRequest, buf: Seq<u8>, i: int, b: u8)
    requires
        req.proto != ModbusProto::TcpUdp,
        req.envelope(buf) is Ok,
        0 <= i < buf.len(),
        b != buf[i],
    ensures
        req.envelope(buf.update(i, b)) == Err::<(int, int), ErrorKind>(ErrorKind::FrameCRCError),
        req.response_bounds(buf.update(i, b)) == Err::<(int, int), ErrorKind>(
            ErrorKind::FrameCRCError,
        ),
{
    let t = buf.update(i, b);
    let n = buf.len() as int;
    if req.proto == ModbusProto::Rtu {
        if i < n - 2 {
            assert(t.take(n - 2) =~= buf.take(n - 2).update(i, b));
            lemma_crc_detects_change(buf.take(n - 2), i, b, n - 2);
            assert(buf.take(n - 2).take(n - 2) =~= buf.take(n - 2));
            assert(t.take(n - 2).take(n - 2) =~= t.take(n - 2));
        } else {
            assert(t.take(n - 2) =~= buf.take(n - 2));
        }
    } else {
        if i < n - 1 {
            let p = buf.take(n - 1);
            assert(t.take(n - 1) =~= p.update(i, b));
            lemma_byte_sum_update(p, i, b);
        } else {
            assert(t.take(n - 1) =~= buf.take(n - 1));
        }
    }
}

} // verus!
