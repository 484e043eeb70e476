//! The two checksums of the serial encodings: CRC-16 (reflected polynomial
//! 0xA001, seeded with all ones) and LRC (negated byte sum).
use vstd::prelude::*;

verus! {

/// One bit step of the reflected CRC-16 shift register.
pub open spec fn crc_step(crc: u16) -> u16 {
    if crc & 1 == 1 {
        (crc >> 1u16) ^ 0xA001u16
    } else {
        crc >> 1u16
    }
}

/// `n` bit steps of the shift register.
pub open spec fn crc_shift(crc: u16, n: nat) -> u16
    decreases n,
{
    if n == 0 {
        crc
    } else {
        crc_step(crc_shift(crc, (n - 1) as nat))
    }
}

/// The register after feeding one byte.
pub open spec fn crc_byte(crc: u16, b: u8) -> u16 {
    crc_shift(crc ^ (b as u16), 8)
}

/// CRC-16 of a byte sequence.
pub open spec fn crc16_of(s: Seq<u8>) -> u16
    decreases s.len(),
{
    if s.len() == 0 {
        0xFFFFu16
    } else {
        crc_byte(crc16_of(s.drop_last()), s.last())
    }
}

/// Sum of the bytes of a sequence.
pub open spec fn byte_sum(s: Seq<u8>) -> nat
    decreases s.len(),
{
    if s.len() == 0 {
        0
    } else {
        byte_sum(s.drop_last()) + (s.last() as nat)
    }
}

/// LRC of a byte sequence: the two's complement of the byte sum, modulo 256.
pub open spec fn lrc_of(s: Seq<u8>) -> u8 {
    ((256 - byte_sum(s) % 256) % 256) as u8
}

/// CRC-16 of the first `data_length` bytes of `frame`.
pub fn calc_crc16(frame: &[u8], data_length: usize) -> (r: u16)
    requires
        data_length <= frame@.len(),
    ensures
        r == crc16_of(frame@.take(data_length as int)),
{
    let mut crc: u16 = 0xFFFF;
    let mut pos: usize = 0;
    while pos < data_length
        invariant
            pos <= data_length <= frame@.len(),
            crc == crc16_of(frame@.take(pos as int)),
        decreases data_length - pos,
    {
        assert(frame@.take(pos + 1).drop_last() =~= frame@.take(pos as int));
        crc = crc ^ (frame[pos] as u16);
        let ghost start = crc;
        let mut i: usize = 0;
        while i < 8
            invariant
                i <= 8,
                crc == crc_shift(start, i as nat),
            decreases 8 - i,
        {
            if crc & 1 == 1 {
                crc = (crc >> 1) ^ 0xA001;
            } else {
                crc = crc >> 1;
            }
            i = i + 1;
        }
        pos = pos + 1;
    }
    crc
}

/// LRC of the first `data_length` bytes of `frame`.
pub fn calc_lrc(frame: &[u8], data_length: usize) -> (r: u8)
    requires
        data_length <= frame@.len(),
    ensures
        r == lrc_of(frame@.take(data_length as int)),
{
    let mut acc: u32 = 0;
    let mut pos: usize = 0;
    while pos < data_length
        invariant
            pos <= data_length <= frame@.len(),
            acc == byte_sum(frame@.take(pos as int)) % 256,
        decreases data_length - pos,
    {
        assert(frame@.take(pos + 1).drop_last() =~= frame@.take(pos as int));
        acc = (acc + frame[pos] as u32) % 256;
        pos = pos + 1;
    }
    ((256 - acc) % 256) as u8
}

} // verus!
