//! Request generation and response parsing.
use vstd::prelude::*;
use vstd::slice::slice_subrange;
use vstd::string::StringSliceAdditionalSpecFns;
use vstd::utf8::{decode_utf8, valid_utf8};

use crate::checksum::{calc_crc16, calc_lrc, crc16_of, lrc_of};
use crate::container::VectorTrait;
use crate::error::ErrorKind;

verus! {

/// Function code: read coils.
pub const MODBUS_GET_COILS: u8 = 1;

/// Function code: read discrete inputs.
pub const MODBUS_GET_DISCRETES: u8 = 2;

/// Function code: read holding registers.
pub const MODBUS_GET_HOLDINGS: u8 = 3;

/// Function code: read input registers.
pub const MODBUS_GET_INPUTS: u8 = 4;

/// Function code: write a single coil.
pub const MODBUS_SET_COIL: u8 = 5;

/// Function code: write a single holding register.
pub const MODBUS_SET_HOLDING: u8 = 6;

/// Function code: write multiple coils.
pub const MODBUS_SET_COILS_BULK: u8 = 15;

/// Function code: write multiple holding registers.
pub const MODBUS_SET_HOLDINGS_BULK: u8 = 16;

/// The frame encoding.
#[derive(Clone, Copy, Debug, PartialEq, Eq, Structural)]
pub enum ModbusProto {
    /// Length-prefixed binary frames (MBAP header), for stream and datagram transports.
    TcpUdp,
    /// Binary frames with a trailing CRC-16, for serial links.
    Rtu,
    /// Frames with a trailing LRC, for serial links.
    Ascii,
}

/// How a function code shapes the request after the register address.
#[derive(Clone, Copy, Debug, PartialEq, Eq, Structural)]
pub enum FrameFamily {
    /// Reads: the item count follows.
    Read,
    /// Single writes: the two value bytes follow.
    SingleWrite,
    /// Bulk writes: the item count, the byte count and the value bytes follow.
    BulkWrite,
}

/// The family of each function code this codec generates.
pub open spec fn family_of(func: u8) -> Option<FrameFamily> {
    if 1 <= func <= 4 {
        Some(FrameFamily::Read)
    } else if func == MODBUS_SET_COIL || func == MODBUS_SET_HOLDING {
        Some(FrameFamily::SingleWrite)
    } else if func == MODBUS_SET_COILS_BULK || func == MODBUS_SET_HOLDINGS_BULK {
        Some(FrameFamily::BulkWrite)
    } else {
        None
    }
}

/// The family of a function code, `None` for a code this codec does not generate.
pub fn frame_family(func: u8) -> (r: Option<FrameFamily>)
    ensures
        r == family_of(func),
{
    if 1 <= func && func <= 4 {
        Some(FrameFamily::Read)
    } else if func == MODBUS_SET_COIL || func == MODBUS_SET_HOLDING {
        Some(FrameFamily::SingleWrite)
    } else if func == MODBUS_SET_COILS_BULK || func == MODBUS_SET_HOLDINGS_BULK {
        Some(FrameFamily::BulkWrite)
    } else {
        None
    }
}

/// A 16-bit value, most significant byte first.
pub open spec fn be_bytes(v: u16) -> Seq<u8> {
    seq![(v / 256) as u8, (v % 256) as u8]
}

/// A 16-bit value, least significant byte first.
pub open spec fn le_bytes(v: u16) -> Seq<u8> {
    seq![(v % 256) as u8, (v / 256) as u8]
}

/// The 16-bit value of a high and a low byte.
pub open spec fn be_value(hi: u8, lo: u8) -> u16 {
    (hi as int * 256 + lo as int) as u16
}

/// The two bytes of `v`, most significant first.
fn u16_be_bytes(v: u16) -> (r: [u8; 2])
    ensures
        r@ == be_bytes(v),
{
    let r = [(v / 256) as u8, (v % 256) as u8];
    assert(r@ =~= be_bytes(v));
    r
}

/// The two bytes of `v`, least significant first.
fn u16_le_bytes(v: u16) -> (r: [u8; 2])
    ensures
        r@ == le_bytes(v),
{
    let r = [(v % 256) as u8, (v / 256) as u8];
    assert(r@ =~= le_bytes(v));
    r
}

/// Values as consecutive big-endian byte pairs.
pub open spec fn words_be(values: Seq<u16>) -> Seq<u8> {
    Seq::new(
        2 * values.len(),
        |i: int|
            if i % 2 == 0 {
                (values[i / 2] / 256) as u8
            } else {
                (values[i / 2] % 256) as u8
            },
    )
}

/// Text bytes padded with one zero byte to an even length.
pub open spec fn padded_text(bytes: Seq<u8>) -> Seq<u8> {
    if bytes.len() % 2 == 1 {
        bytes.push(0u8)
    } else {
        bytes
    }
}

/// Up to eight booleans packed into a byte, the first in bit 0.
pub open spec fn pack_byte(bits: Seq<bool>) -> u8
    decreases bits.len(),
{
    if bits.len() == 0 {
        0u8
    } else if bits.last() {
        pack_byte(bits.drop_last()) | (1u8 << ((bits.len() - 1) as u8))
    } else {
        pack_byte(bits.drop_last())
    }
}

/// The `k`-th group of eight booleans (the last group may be shorter).
pub open spec fn bit_chunk(bits: Seq<bool>, k: int) -> Seq<bool> {
    bits.subrange(8 * k, if 8 * k + 8 <= bits.len() { 8 * k + 8 } else { bits.len() as int })
}

/// Booleans packed eight per byte, ascending bit order, the last byte zero-padded.
pub open spec fn pack_bits(bits: Seq<bool>) -> Seq<u8> {
    Seq::new(((bits.len() + 7) / 8) as nat, |k: int| pack_byte(bit_chunk(bits, k)))
}

/// Bit `i` of a byte sequence, counting from bit 0 of the first byte.
pub open spec fn bit_of(bytes: Seq<u8>, i: int) -> bool {
    (bytes[i / 8] >> ((i % 8) as u8)) & 1u8 == 1u8
}

/// The first `n` bits of a byte sequence.
pub open spec fn unpack_bits(bytes: Seq<u8>, n: nat) -> Seq<bool> {
    Seq::new(n, |i: int| bit_of(bytes, i))
}

/// Packs booleans eight per byte, the first in bit 0.
fn pack_coils(values: &[bool]) -> (r: Vec<u8>)
    requires
        values@.len() <= 4000,
    ensures
        r@ == pack_bits(values@),
        r@.len() <= 500,
{
    let mut data: Vec<u8> = Vec::new();
    let mut cbyte: u8 = 0;
    let mut bidx: u8 = 0;
    let mut i: usize = 0;
    while i < values.len()
        invariant
            i <= values@.len() <= 4000,
            bidx < 8,
            bidx as int == i % 8,
            data@.len() == i / 8,
            forall|k: int| 0 <= k < data@.len() ==> data@[k] == pack_byte(bit_chunk(values@, k)),
            cbyte == pack_byte(values@.subrange(i - bidx, i as int)),
        decreases values@.len() - i,
    {
        let ghost chunk = values@.subrange(i - bidx, i + 1);
        assert(chunk.drop_last() =~= values@.subrange(i - bidx, i as int));
        if values[i] {
            cbyte = cbyte | (1u8 << bidx);
        }
        assert(cbyte == pack_byte(chunk));
        i = i + 1;
        bidx = bidx + 1;
        if bidx > 7 {
            assert(bit_chunk(values@, data@.len() as int) =~= chunk);
            data.push(cbyte);
            bidx = 0;
            cbyte = 0;
            assert(values@.subrange(i - bidx, i as int) =~= Seq::<bool>::empty());
        }
    }
    if bidx > 0 {
        assert(bit_chunk(values@, data@.len() as int) =~= values@.subrange(i - bidx, i as int));
        data.push(cbyte);
    }
    assert(data@ =~= pack_bits(values@));
    data
}

/// Consecutive big-endian 16-bit values of a byte sequence (a trailing odd
/// byte is ignored).
pub open spec fn words_of(bytes: Seq<u8>) -> Seq<u16> {
    Seq::new(bytes.len() / 2, |k: int| be_value(bytes[2 * k], bytes[2 * k + 1]))
}

/// The number of bytes before the first zero byte, or all of them.
pub open spec fn text_len(bytes: Seq<u8>) -> nat
    decreases bytes.len(),
{
    if bytes.len() == 0 || bytes[0] == 0 {
        0
    } else {
        1 + text_len(bytes.drop_first())
    }
}

/// Skipping `i` nonzero bytes shortens the text by `i`.
proof fn lemma_text_len_skip(bytes: Seq<u8>, i: int)
    requires
        0 <= i <= bytes.len(),
        forall|j: int| 0 <= j < i ==> bytes[j] != 0,
    ensures
        text_len(bytes) == i + text_len(bytes.subrange(i, bytes.len() as int)),
    decreases i,
{
    if i == 0 {
        assert(bytes.subrange(0, bytes.len() as int) =~= bytes);
    } else {
        let rest = bytes.drop_first();
        lemma_text_len_skip(rest, i - 1);
        assert(rest.subrange(i - 1, rest.len() as int) =~= bytes.subrange(i, bytes.len() as int));
    }
}

/// Relies on `std::str::from_utf8`: it accepts exactly the well-formed UTF-8
/// byte sequences, and its text is their decoding.
#[verifier::external_body]
fn text_from_utf8(bytes: &[u8]) -> (r: Option<String>)
    ensures
        r is Some <==> valid_utf8(bytes@),
        r matches Some(text) ==> text@ == decode_utf8(bytes@),
{
    match std::str::from_utf8(bytes) {
        Ok(text) => Some(text.to_string()),
        Err(_) => None,
    }
}

/// Request descriptor: the fields of the last generated request, which the
/// parsing methods take as the template a response must match.
pub struct ModbusRequest {
    /// Transaction id (length-prefixed encoding only); 1 when created.
    pub tr_id: u16,
    pub unit_id: u8,
    pub func: u8,
    pub reg: u16,
    pub count: u16,
    pub proto: ModbusProto,
}

impl ModbusRequest {
    /// The frame from the unit id on, without envelope or checksum.
    pub open spec fn pdu(self, data: Seq<u8>) -> Seq<u8> {
        let head = seq![self.unit_id, self.func] + be_bytes(self.reg);
        match family_of(self.func) {
            Some(FrameFamily::Read) => head + be_bytes(self.count),
            Some(FrameFamily::SingleWrite) => head + data,
            _ => head + be_bytes(self.count) + seq![(data.len() % 256) as u8] + data,
        }
    }

    /// A frame from the unit id on, wrapped in this descriptor's envelope.
    pub open spec fn wrap(self, pdu: Seq<u8>) -> Seq<u8> {
        match self.proto {
            ModbusProto::TcpUdp => be_bytes(self.tr_id) + seq![0u8, 0u8] + be_bytes(
                pdu.len() as u16,
            ) + pdu,
            ModbusProto::Rtu => pdu + le_bytes(crc16_of(pdu)),
            ModbusProto::Ascii => pdu.push(lrc_of(pdu)),
        }
    }

    /// The complete request frame for this descriptor and payload.
    pub open spec fn frame(self, data: Seq<u8>) -> Seq<u8> {
        self.wrap(self.pdu(data))
    }

    /// Generation of `self.frame(data)` into a container: it succeeds exactly
    /// when the frame fits, and then the container holds the frame alone.
    pub open spec fn generated<V: VectorTrait<u8>>(
        self,
        data: Seq<u8>,
        before: V,
        after: V,
        r: Result<(), ErrorKind>,
    ) -> bool {
        &&& after.limit() == before.limit()
        &&& (r is Ok <==> self.frame(data).len() <= before.limit())
        &&& (r is Ok ==> after.items() == self.frame(data))
        &&& (r is Err ==> r == Err::<(), ErrorKind>(ErrorKind::OOB))
    }

    /// Where the payload of a response lies, or why the response is refused.
    pub open spec fn envelope(self, buf: Seq<u8>) -> Result<(int, int), ErrorKind> {
        let n = buf.len() as int;
        match self.proto {
            ModbusProto::TcpUdp => if n < 9 {
                Err(ErrorKind::FrameBroken)
            } else if be_value(buf[0], buf[1]) != self.tr_id || be_value(buf[2], buf[3]) != 0 {
                Err(ErrorKind::FrameBroken)
            } else {
                Ok((6, n))
            },
            ModbusProto::Rtu => if n < 5 {
                Err(ErrorKind::FrameBroken)
            } else if crc16_of(buf.take(n - 2)) != be_value(buf[n - 1], buf[n - 2]) {
                Err(ErrorKind::FrameCRCError)
            } else {
                Ok((0, n - 2))
            },
            ModbusProto::Ascii => if n < 4 {
                Err(ErrorKind::FrameBroken)
            } else if lrc_of(buf.take(n - 1)) != buf[n - 1] {
                Err(ErrorKind::FrameCRCError)
            } else {
                Ok((0, n - 1))
            },
        }
    }

    /// The payload bounds `(start, end)` of a response to this request:
    /// the envelope must hold, the unit id must match, a different function
    /// code is a device fault carrying the byte after it, and for reads the
    /// declared byte count must cover the data that follows.
    pub open spec fn response_bounds(self, buf: Seq<u8>) -> Result<(int, int), ErrorKind> {
        match self.envelope(buf) {
            Err(e) => Err(e),
            Ok((s, e)) => if buf[s] != self.unit_id {
                Err(ErrorKind::FrameBroken)
            } else if buf[s + 1] != self.func {
                Err(ErrorKind::DeviceFault(buf[s + 2]))
            } else if family_of(self.func) == Some(FrameFamily::Read) && buf[s + 2] * 2 < (e
                - s) - 3 {
                Err(ErrorKind::FrameBroken)
            } else {
                Ok((s, e))
            },
        }
    }

    /// The data bytes of a validated response, after the unit id, function
    /// code and byte count.
    pub open spec fn response_data(self, buf: Seq<u8>) -> Seq<u8> {
        match self.response_bounds(buf) {
            Ok((s, e)) => buf.subrange(s + 3, e),
            Err(_) => Seq::empty(),
        }
    }

    /// How many values a parse appends to a sequence of `have` values when
    /// `avail` are in the response: up to `count` values in all.
    pub open spec fn take_count(self, have: nat, avail: nat) -> nat {
        if have >= self.count {
            0
        } else if avail < self.count - have {
            avail
        } else {
            (self.count - have) as nat
        }
    }

    /// A parse that appends the first `self.take_count(..)` of `values`:
    /// it fails out-of-bounds exactly when they do not fit.
    pub open spec fn appended<T: Copy, V: VectorTrait<T>>(
        self,
        values: Seq<T>,
        before: V,
        after: V,
        r: Result<(), ErrorKind>,
    ) -> bool {
        let n = self.take_count(before.items().len(), values.len());
        &&& after.limit() == before.limit()
        &&& (r is Ok <==> n == 0 || before.items().len() + n <= before.limit())
        &&& (r is Ok ==> after.items() == before.items() + values.take(n as int))
        &&& (r is Err ==> r == Err::<(), ErrorKind>(ErrorKind::OOB))
    }

    /// A new descriptor for the given unit and encoding.
    pub fn new(unit_id: u8, proto: ModbusProto) -> (r: Self)
        ensures
            r == (ModbusRequest { tr_id: 1, unit_id, func: 0, reg: 0, count: 0, proto }),
    {
        ModbusRequest { tr_id: 1, unit_id: unit_id, func: 0, reg: 0, count: 0, proto: proto }
    }

    /// Read request for `count` coils starting at `reg`.
    pub fn generate_get_coils<V: VectorTrait<u8>>(
        &mut self,
        reg: u16,
        count: u16,
        request: &mut V,
    ) -> (r: Result<(), ErrorKind>)
        ensures
            *final(self) == (ModbusRequest { reg, count, func: MODBUS_GET_COILS, ..*old(self) }),
            final(self).generated(Seq::empty(), *old(request), *final(request), r),
    {
        self.reg = reg;
        self.count = count;
        self.func = MODBUS_GET_COILS;
        self.generate(&[], request)
    }

    /// Read request for `count` discrete inputs starting at `reg`.
    pub fn generate_get_discretes<V: VectorTrait<u8>>(
        &mut self,
        reg: u16,
        count: u16,
        request: &mut V,
    ) -> (r: Result<(), ErrorKind>)
        ensures
            *final(self) == (ModbusRequest {
                reg,
                count,
                func: MODBUS_GET_DISCRETES,
                ..*old(self)
            }),
            final(self).generated(Seq::empty(), *old(request), *final(request), r),
    {
        self.reg = reg;
        self.count = count;
        self.func = MODBUS_GET_DISCRETES;
        self.generate(&[], request)
    }

    /// Read request for `count` holding registers starting at `reg`.
    pub fn generate_get_holdings<V: VectorTrait<u8>>(
        &mut self,
        reg: u16,
        count: u16,
        request: &mut V,
    ) -> (r: Result<(), ErrorKind>)
        ensures
            *final(self) == (ModbusRequest {
                reg,
                count,
                func: MODBUS_GET_HOLDINGS,
                ..*old(self)
            }),
            final(self).generated(Seq::empty(), *old(request), *final(request), r),
    {
        self.reg = reg;
        self.count = count;
        self.func = MODBUS_GET_HOLDINGS;
        self.generate(&[], request)
    }

    /// Read request for `count` input registers starting at `reg`.
    pub fn generate_get_inputs<V: VectorTrait<u8>>(
        &mut self,
        reg: u16,
        count: u16,
        request: &mut V,
    ) -> (r: Result<(), ErrorKind>)
        ensures
            *final(self) == (ModbusRequest { reg, count, func: MODBUS_GET_INPUTS, ..*old(self) }),
            final(self).generated(Seq::empty(), *old(request), *final(request), r),
    {
        self.reg = reg;
        self.count = count;
        self.func = MODBUS_GET_INPUTS;
        self.generate(&[], request)
    }

    /// Request writing one coil: `0xFF 0x00` for on, `0x00 0x00` for off.
    pub fn generate_set_coil<V: VectorTrait<u8>>(
        &mut self,
        reg: u16,
        value: bool,
        request: &mut V,
    ) -> (r: Result<(), ErrorKind>)
        ensures
            *final(self) == (ModbusRequest { reg, count: 1, func: MODBUS_SET_COIL, ..*old(self) }),
            final(self).generated(
                seq![if value { 0xFFu8 } else { 0x00u8 }, 0x00u8],
                *old(request),
                *final(request),
                r,
            ),
    {
        self.reg = reg;
        self.count = 1;
        self.func = MODBUS_SET_COIL;
        let data = [
            if value {
                0xFFu8
            } else {
                0x00u8
            },
            0x00u8,
        ];
        assert(data@ =~= seq![if value { 0xFFu8 } else { 0x00u8 }, 0x00u8]);
        self.generate(&data, request)
    }

    /// Request writing one holding register.
    pub fn generate_set_holding<V: VectorTrait<u8>>(
        &mut self,
        reg: u16,
        value: u16,
        request: &mut V,
    ) -> (r: Result<(), ErrorKind>)
        ensures
            *final(self) == (ModbusRequest {
                reg,
                count: 1,
                func: MODBUS_SET_HOLDING,
                ..*old(self)
            }),
            final(self).generated(be_bytes(value), *old(request), *final(request), r),
    {
        self.reg = reg;
        self.count = 1;
        self.func = MODBUS_SET_HOLDING;
        self.generate(&u16_be_bytes(value), request)
    }

    /// Request writing consecutive holding registers; at most 125 values.
    pub fn generate_set_holdings_bulk<V: VectorTrait<u8>>(
        &mut self,
        reg: u16,
        values: &[u16],
        request: &mut V,
    ) -> (r: Result<(), ErrorKind>)
        ensures
            values@.len() > 125 ==> r == Err::<(), ErrorKind>(ErrorKind::OOB) && *final(self)
                == *old(self) && *final(request) == *old(request),
            values@.len() <= 125 ==> *final(self) == (ModbusRequest {
                reg,
                count: values@.len() as u16,
                func: MODBUS_SET_HOLDINGS_BULK,
                ..*old(self)
            }) && final(self).generated(words_be(values@), *old(request), *final(request), r),
    {
        if values.len() > 125 {
            return Err(ErrorKind::OOB);
        }
        self.reg = reg;
        self.count = values.len() as u16;
        self.func = MODBUS_SET_HOLDINGS_BULK;
        let mut data: Vec<u8> = Vec::new();
        let mut i: usize = 0;
        while i < values.len()
            invariant
                i <= values@.len() <= 125,
                data@ =~= words_be(values@.take(i as int)),
            decreases values@.len() - i,
        {
            let v = values[i];
            data.push((v / 256) as u8);
            data.push((v % 256) as u8);
            i = i + 1;
            assert(data@ =~= words_be(values@.take(i as int)));
        }
        assert(values@.take(i as int) =~= values@);
        self.generate(data.as_slice(), request)
    }

    /// Request writing text into consecutive holding registers, two bytes per
    /// register, padded with a zero byte to an even length; at most 250 bytes.
    pub fn generate_set_holdings_string<V: VectorTrait<u8>>(
        &mut self,
        reg: u16,
        values: &str,
        request: &mut V,
    ) -> (r: Result<(), ErrorKind>)
        ensures
            ({
                let b = values.spec_bytes();
                let length = b.len() + b.len() % 2;
                &&& length > 250 ==> r == Err::<(), ErrorKind>(ErrorKind::OOB) && *final(self)
                    == *old(self) && *final(request) == *old(request)
                &&& length <= 250 ==> *final(self) == (ModbusRequest {
                    reg,
                    count: (length / 2) as u16,
                    func: MODBUS_SET_HOLDINGS_BULK,
                    ..*old(self)
                }) && final(self).generated(padded_text(b), *old(request), *final(request), r)
            }),
    {
        let bytes = values.as_bytes();
        if bytes.len() > 250 {
            return Err(ErrorKind::OOB);
        }
        let length = bytes.len() + bytes.len() % 2;
        self.reg = reg;
        self.count = (length / 2) as u16;
        self.func = MODBUS_SET_HOLDINGS_BULK;
        let mut data: Vec<u8> = Vec::new();
        let mut i: usize = 0;
        while i < bytes.len()
            invariant
                i <= bytes@.len() <= 250,
                data@ =~= bytes@.take(i as int),
            decreases bytes@.len() - i,
        {
            data.push(bytes[i]);
            i = i + 1;
            assert(data@ =~= bytes@.take(i as int));
        }
        if data.len() < length {
            data.push(0u8);
        }
        assert(data@ =~= padded_text(bytes@));
        self.generate(data.as_slice(), request)
    }

    /// Request writing consecutive coils; at most 4000 values.
    pub fn generate_set_coils_bulk<V: VectorTrait<u8>>(
        &mut self,
        reg: u16,
        values: &[bool],
        request: &mut V,
    ) -> (r: Result<(), ErrorKind>)
        ensures
            values@.len() > 4000 ==> r == Err::<(), ErrorKind>(ErrorKind::OOB) && *final(self)
                == *old(self) && *final(request) == *old(request),
            values@.len() <= 4000 ==> *final(self) == (ModbusRequest {
                reg,
                count: values@.len() as u16,
                func: MODBUS_SET_COILS_BULK,
                ..*old(self)
            }) && final(self).generated(pack_bits(values@), *old(request), *final(request), r),
    {
        if values.len() > 4000 {
            return Err(ErrorKind::OOB);
        }
        self.reg = reg;
        self.count = values.len() as u16;
        self.func = MODBUS_SET_COILS_BULK;
        let data = pack_coils(values);
        self.generate(data.as_slice(), request)
    }

    /// Validates a response to this request and returns its payload bounds
    /// `(start, end)`.
    pub fn parse_response(&self, buf: &[u8]) -> (r: Result<(usize, usize), ErrorKind>)
        ensures
            match r {
                Ok((s, e)) => self.response_bounds(buf@) == Ok::<(int, int), ErrorKind>(
                    (s as int, e as int),
                ),
                Err(x) => self.response_bounds(buf@) == Err::<(int, int), ErrorKind>(x),
            },
            r matches Ok((s, e)) ==> s + 3 <= e <= buf@.len(),
    {
        let len = buf.len();
        let (frame_start, frame_end) = match self.proto {
            ModbusProto::TcpUdp => {
                if len < 9 {
                    return Err(ErrorKind::FrameBroken);
                }
                let tr_id = (buf[0] as u16) * 256 + buf[1] as u16;
                let proto = (buf[2] as u16) * 256 + buf[3] as u16;
                if tr_id != self.tr_id || proto != 0 {
                    return Err(ErrorKind::FrameBroken);
                }
                (6, len)
            },
            ModbusProto::Rtu => {
                if len < 5 {
                    return Err(ErrorKind::FrameBroken);
                }
                let crc = calc_crc16(buf, len - 2);
                if crc != (buf[len - 1] as u16) * 256 + buf[len - 2] as u16 {
                    return Err(ErrorKind::FrameCRCError);
                }
                (0, len - 2)
            },
            ModbusProto::Ascii => {
                if len < 4 {
                    return Err(ErrorKind::FrameBroken);
                }
                let lrc = calc_lrc(buf, len - 1);
                if lrc != buf[len - 1] {
                    return Err(ErrorKind::FrameCRCError);
                }
                (0, len - 1)
            },
        };
        let unit_id = buf[frame_start];
        let func = buf[frame_start + 1];
        if unit_id != self.unit_id {
            return Err(ErrorKind::FrameBroken);
        }
        if func != self.func {
            // Devices are meant to answer with the function code plus 0x80,
            // but some answer with any other code: any mismatch is a fault.
            return Err(ErrorKind::from_modbus_error(buf[frame_start + 2]));
        }
        if self.func > 0 && self.func < 5 {
            let declared = buf[frame_start + 2] as usize;
            if declared * 2 < (frame_end - frame_start) - 3 {
                return Err(ErrorKind::FrameBroken);
            }
        }
        Ok((frame_start, frame_end))
    }

    /// Validates a response to this request, discarding its payload.
    pub fn parse_ok(&self, buf: &[u8]) -> (r: Result<(), ErrorKind>)
        ensures
            r is Ok <==> self.response_bounds(buf@) is Ok,
            r matches Err(x) ==> self.response_bounds(buf@) == Err::<(int, int), ErrorKind>(x),
    {
        match self.parse_response(buf) {
            Ok(_) => Ok(()),
            Err(e) => Err(e),
        }
    }

    /// Validates a response and appends its big-endian 16-bit values to
    /// `result`, until `result` holds `count` values or the data runs out.
    pub fn parse_u16<V: VectorTrait<u16>>(&self, buf: &[u8], result: &mut V) -> (r: Result<
        (),
        ErrorKind,
    >)
        ensures
            match self.response_bounds(buf@) {
                Err(x) => r == Err::<(), ErrorKind>(x) && *final(result) == *old(result),
                Ok(_) => self.appended(
                    words_of(self.response_data(buf@)),
                    *old(result),
                    *final(result),
                    r,
                ),
            },
    {
        let (frame_start, frame_end) = match self.parse_response(buf) {
            Ok(v) => v,
            Err(e) => return Err(e),
        };
        let ghost values = words_of(self.response_data(buf@));
        let ghost before = *result;
        let avail = (frame_end - frame_start - 3) / 2;
        let have = result.get_len();
        let count = self.count as usize;
        let n = if have >= count {
            0
        } else if avail < count - have {
            avail
        } else {
            count - have
        };
        let mut k: usize = 0;
        while k < n
            invariant
                frame_start + 3 <= frame_end <= buf@.len(),
                self.response_bounds(buf@) == Ok::<(int, int), ErrorKind>(
                    (frame_start as int, frame_end as int),
                ),
                values == words_of(buf@.subrange(frame_start + 3, frame_end as int)),
                avail == values.len(),
                n == self.take_count(before.items().len(), values.len()),
                k <= n,
                have == before.items().len(),
                before == *old(result),
                k > 0 ==> have + k <= before.limit(),
                result.limit() == before.limit(),
                result.items() == before.items() + values.take(k as int),
            decreases n - k,
        {
            assert(2 * k + 2 <= frame_end - frame_start - 3) by {
                assert(k < (frame_end - frame_start - 3) / 2);
            }
            let pos = frame_start + 3 + 2 * k;
            let value = (buf[pos] as u16) * 256 + buf[pos + 1] as u16;
            assert(value == values[k as int]);
            assert(values.take(k + 1) =~= values.take(k as int).push(value));
            if result.add(value).is_err() {
                return Err(ErrorKind::OOB);
            }
            k = k + 1;
        }
        Ok(())
    }

    /// Validates a response and appends its bits, bit 0 of each byte first,
    /// to `result`, until `result` holds `count` values or the data runs out.
    pub fn parse_bool<V: VectorTrait<bool>>(&self, buf: &[u8], result: &mut V) -> (r: Result<
        (),
        ErrorKind,
    >)
        ensures
            match self.response_bounds(buf@) {
                Err(x) => r == Err::<(), ErrorKind>(x) && *final(result) == *old(result),
                Ok(_) => self.appended(
                    unpack_bits(self.response_data(buf@), 8 * self.response_data(buf@).len()),
                    *old(result),
                    *final(result),
                    r,
                ),
            },
    {
        let (frame_start, frame_end) = match self.parse_response(buf) {
            Ok(v) => v,
            Err(e) => return Err(e),
        };
        let ghost data = self.response_data(buf@);
        let ghost values = unpack_bits(data, 8 * data.len());
        let ghost before = *result;
        let bytes = frame_end - frame_start - 3;
        let have = result.get_len();
        let count = self.count as usize;
        let n = if have >= count {
            0
        } else if bytes < 8192 && 8 * bytes < count - have {
            8 * bytes
        } else {
            count - have
        };
        let mut k: usize = 0;
        while k < n
            invariant
                frame_start + 3 <= frame_end <= buf@.len(),
                self.response_bounds(buf@) == Ok::<(int, int), ErrorKind>(
                    (frame_start as int, frame_end as int),
                ),
                data == buf@.subrange(frame_start + 3, frame_end as int),
                bytes == data.len(),
                values == unpack_bits(data, 8 * data.len()),
                values.len() == 8 * bytes,
                n == self.take_count(before.items().len(), values.len()),
                k <= n,
                have == before.items().len(),
                before == *old(result),
                k > 0 ==> have + k <= before.limit(),
                result.limit() == before.limit(),
                result.items() == before.items() + values.take(k as int),
            decreases n - k,
        {
            assert(k / 8 < bytes);
            let b = buf[frame_start + 3 + k / 8];
            let bit = (b >> ((k % 8) as u8)) & 1 == 1;
            assert(b == data[(k / 8) as int]);
            assert(k < values.len());
            assert(values[k as int] == bit_of(data, k as int));
            assert(bit == values[k as int]);
            assert(values.take(k + 1) =~= values.take(k as int).push(bit));
            if result.add(bit).is_err() {
                return Err(ErrorKind::OOB);
            }
            k = k + 1;
        }
        Ok(())
    }

    /// Validates a response and stores its data, cut at the first zero byte,
    /// as UTF-8 text in `result`.
    pub fn parse_string(&self, buf: &[u8], result: &mut String) -> (r: Result<(), ErrorKind>)
        ensures
            match self.response_bounds(buf@) {
                Err(x) => r == Err::<(), ErrorKind>(x) && *final(result) == *old(result),
                Ok(_) => {
                    let text = self.response_data(buf@).take(
                        text_len(self.response_data(buf@)) as int,
                    );
                    if valid_utf8(text) {
                        r is Ok && final(result)@ == decode_utf8(text)
                    } else {
                        r == Err::<(), ErrorKind>(ErrorKind::Utf8Error) && *final(result)
                            == *old(result)
                    }
                },
            },
    {
        let (frame_start, frame_end) = match self.parse_response(buf) {
            Ok(v) => v,
            Err(e) => return Err(e),
        };
        let ghost data = self.response_data(buf@);
        let start = frame_start + 3;
        let mut end = start;
        while end < frame_end && buf[end] != 0
            invariant
                start <= end <= frame_end <= buf@.len(),
                data == buf@.subrange(start as int, frame_end as int),
                forall|j: int| 0 <= j < end - start ==> data[j] != 0,
            decreases frame_end - end,
        {
            end = end + 1;
        }
        proof {
            lemma_text_len_skip(data, end - start);
            if end < frame_end {
                assert(data.subrange(end - start, data.len() as int)[0] == 0);
            }
            assert(data.take(end - start) =~= buf@.subrange(start as int, end as int));
        }
        match text_from_utf8(slice_subrange(buf, start, end)) {
            Some(text) => {
                *result = text;
                Ok(())
            },
            None => Err(ErrorKind::Utf8Error),
        }
    }

    /// Writes the frame of this descriptor with payload `data` into `request`.
    fn generate<V: VectorTrait<u8>>(&self, data: &[u8], request: &mut V) -> (r: Result<
        (),
        ErrorKind,
    >)
        requires
            family_of(self.func) is Some,
            data@.len() <= 500,
        ensures
            self.generated(data@, *old(request), *final(request), r),
    {
        let ghost limit = request.limit();
        let ghost pdu = self.pdu(data@);
        let ghost frame = self.frame(data@);
        let ghost mut hdr: Seq<u8> = Seq::empty();
        let ghost head = seq![self.unit_id, self.func] + be_bytes(self.reg);
        let fam = frame_family(self.func);
        assert(pdu.len() == match fam {
            Some(FrameFamily::Read) => 6,
            Some(FrameFamily::SingleWrite) => 4 + data@.len(),
            _ => 7 + data@.len(),
        });
        assert(frame.len() == match self.proto {
            ModbusProto::TcpUdp => 6 + pdu.len(),
            ModbusProto::Rtu => pdu.len() + 2,
            ModbusProto::Ascii => pdu.len() + 1,
        });
        request.clear_all();
        if self.proto == ModbusProto::TcpUdp {
            if request.add_bulk(&u16_be_bytes(self.tr_id)).is_err() {
                return Err(ErrorKind::OOB);
            }
            if request.add_bulk(&[0u8, 0, 0, 0]).is_err() {
                return Err(ErrorKind::OOB);
            }
            proof {
                hdr = be_bytes(self.tr_id) + seq![0u8, 0u8, 0u8, 0u8];
            }
        }
        assert(request.items() =~= hdr);
        if request.add_bulk(&[self.unit_id, self.func]).is_err() {
            return Err(ErrorKind::OOB);
        }
        if request.add_bulk(&u16_be_bytes(self.reg)).is_err() {
            return Err(ErrorKind::OOB);
        }
        assert(request.items() =~= hdr + head);
        match fam {
            Some(FrameFamily::Read) => {
                if request.add_bulk(&u16_be_bytes(self.count)).is_err() {
                    return Err(ErrorKind::OOB);
                }
            },
            Some(FrameFamily::SingleWrite) => {
                if request.add_bulk(data).is_err() {
                    return Err(ErrorKind::OOB);
                }
            },
            _ => {
                if request.add_bulk(&u16_be_bytes(self.count)).is_err() {
                    return Err(ErrorKind::OOB);
                }
                if request.add((data.len() % 256) as u8).is_err() {
                    return Err(ErrorKind::OOB);
                }
                if request.add_bulk(data).is_err() {
                    return Err(ErrorKind::OOB);
                }
            },
        }
        assert(request.items() =~= hdr + pdu);
        match self.proto {
            ModbusProto::TcpUdp => {
                let len = u16_be_bytes((request.get_len() - 6) as u16);
                request.replace(4, len[0]);
                request.replace(5, len[1]);
                assert(request.items() =~= frame);
            },
            ModbusProto::Rtu => {
                let crc = calc_crc16(request.get_slice(), request.get_len());
                assert(request.items().take(request.items().len() as int) =~= pdu);
                if request.add_bulk(&u16_le_bytes(crc)).is_err() {
                    return Err(ErrorKind::OOB);
                }
                assert(request.items() =~= frame);
            },
            ModbusProto::Ascii => {
                let lrc = calc_lrc(request.get_slice(), request.get_len());
                assert(request.items().take(request.items().len() as int) =~= pdu);
                if request.add(lrc).is_err() {
                    return Err(ErrorKind::OOB);
                }
                assert(request.items() =~= frame);
            },
        }
        Ok(())
    }
}

} // verus!
