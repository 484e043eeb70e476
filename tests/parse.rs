use modbus_codec::checksum::{calc_crc16, calc_lrc};
use modbus_codec::client::{ModbusProto, ModbusRequest};
use modbus_codec::container::BoundedVec;
use modbus_codec::container::VectorTrait;
use modbus_codec::error::ErrorKind;

fn wrap(req: &ModbusRequest, pdu: &[u8]) -> Vec<u8> {
    let mut buf: Vec<u8> = Vec::new();
    match req.proto {
        ModbusProto::TcpUdp => {
            buf.extend_from_slice(&req.tr_id.to_be_bytes());
            buf.extend_from_slice(&[0, 0]);
            buf.extend_from_slice(&(pdu.len() as u16).to_be_bytes());
            buf.extend_from_slice(pdu);
        }
        ModbusProto::Rtu => {
            buf.extend_from_slice(pdu);
            let crc = calc_crc16(&buf, buf.len());
            buf.extend_from_slice(&crc.to_le_bytes());
        }
        ModbusProto::Ascii => {
            buf.extend_from_slice(pdu);
            let lrc = calc_lrc(&buf, buf.len());
            buf.push(lrc);
        }
    }
    buf
}

fn read_answer(req: &ModbusRequest, declared: u8, data: &[u8]) -> Vec<u8> {
    let mut pdu = vec![req.unit_id, req.func, declared];
    pdu.extend_from_slice(data);
    wrap(req, &pdu)
}

const PROTOS: [ModbusProto; 3] = [ModbusProto::TcpUdp, ModbusProto::Rtu, ModbusProto::Ascii];

#[test]
fn read_answers_validate_for_every_encoding() {
    for proto in PROTOS {
        for op in 0..4 {
            let mut req = ModbusRequest::new(5, proto);
            req.tr_id = 77;
            let mut out: Vec<u8> = Vec::new();
            match op {
                0 => req.generate_get_coils(0, 16, &mut out).unwrap(),
                1 => req.generate_get_discretes(0, 16, &mut out).unwrap(),
                2 => req.generate_get_holdings(0, 2, &mut out).unwrap(),
                _ => req.generate_get_inputs(0, 2, &mut out).unwrap(),
            }
            let buf = read_answer(&req, 4, &[1, 2, 3, 4]);
            let (start, end) = req.parse_response(&buf).unwrap();
            assert_eq!(end - start, 7);
            assert_eq!(&buf[start..end], &[5, req.func, 4, 1, 2, 3, 4]);
            if proto == ModbusProto::TcpUdp {
                assert_eq!(u16::from_be_bytes([buf[4], buf[5]]) as usize, end - start);
            }
            assert_eq!(req.parse_ok(&buf), Ok(()));
        }
    }
}

#[test]
fn device_fault_carries_code() {
    for proto in PROTOS {
        let mut req = ModbusRequest::new(1, proto);
        let mut out: Vec<u8> = Vec::new();
        req.generate_get_holdings(0, 1, &mut out).unwrap();
        let buf = wrap(&req, &[1, 0x83, 0x02]);
        assert_eq!(req.parse_ok(&buf), Err(ErrorKind::DeviceFault(2)));
        assert_eq!(ErrorKind::from_modbus_error(2), ErrorKind::DeviceFault(2));
    }
}

#[test]
fn any_other_function_code_is_a_fault() {
    let mut req = ModbusRequest::new(1, ModbusProto::TcpUdp);
    let mut out: Vec<u8> = Vec::new();
    req.generate_set_holding(0, 1, &mut out).unwrap();
    let buf = wrap(&req, &[1, 0x07, 0x0B, 0, 0]);
    let mut vals: Vec<u16> = Vec::new();
    assert_eq!(req.parse_u16(&buf, &mut vals), Err(ErrorKind::DeviceFault(11)));
    assert!(vals.is_empty());
}

#[test]
fn tcp_header_mismatches_are_broken() {
    let mut req = ModbusRequest::new(1, ModbusProto::TcpUdp);
    let mut out: Vec<u8> = Vec::new();
    req.generate_get_holdings(0, 1, &mut out).unwrap();
    let good = read_answer(&req, 2, &[0, 9]);
    assert_eq!(req.parse_ok(&good), Ok(()));
    let mut other_tr = good.clone();
    other_tr[1] = 2;
    assert_eq!(req.parse_ok(&other_tr), Err(ErrorKind::FrameBroken));
    let mut other_proto = good.clone();
    other_proto[3] = 1;
    assert_eq!(req.parse_ok(&other_proto), Err(ErrorKind::FrameBroken));
    let mut other_unit = good.clone();
    other_unit[6] = 2;
    assert_eq!(req.parse_ok(&other_unit), Err(ErrorKind::FrameBroken));
    assert_eq!(req.parse_ok(&good[..8]), Err(ErrorKind::FrameBroken));
}

#[test]
fn short_serial_frames_are_broken() {
    let req = ModbusRequest::new(1, ModbusProto::Rtu);
    assert_eq!(req.parse_ok(&[1, 3, 0, 0]), Err(ErrorKind::FrameBroken));
    let req = ModbusRequest::new(1, ModbusProto::Ascii);
    assert_eq!(req.parse_ok(&[1, 3, 0]), Err(ErrorKind::FrameBroken));
    assert_eq!(req.parse_ok(&[]), Err(ErrorKind::FrameBroken));
}

#[test]
fn short_declared_count_is_broken() {
    let mut req = ModbusRequest::new(1, ModbusProto::TcpUdp);
    let mut out: Vec<u8> = Vec::new();
    req.generate_get_holdings(0, 3, &mut out).unwrap();
    let buf = read_answer(&req, 2, &[0, 1, 0, 2, 0, 3]);
    assert_eq!(req.parse_ok(&buf), Err(ErrorKind::FrameBroken));
    let buf = read_answer(&req, 3, &[0, 1, 0, 2, 0, 3]);
    assert_eq!(req.parse_ok(&buf), Ok(()));
}

#[test]
fn corrupted_serial_frames_fail_checksum() {
    for proto in [ModbusProto::Rtu, ModbusProto::Ascii] {
        let mut req = ModbusRequest::new(1, proto);
        let mut out: Vec<u8> = Vec::new();
        req.generate_get_holdings(0, 2, &mut out).unwrap();
        let good = read_answer(&req, 4, &[0, 1, 0, 2]);
        assert_eq!(req.parse_ok(&good), Ok(()));
        for i in 0..good.len() {
            for delta in [1u8, 0x80, 0xFF] {
                let mut bad = good.clone();
                bad[i] = bad[i].wrapping_add(delta);
                assert_eq!(req.parse_ok(&bad), Err(ErrorKind::FrameCRCError));
            }
        }
    }
}

#[test]
fn parse_u16_reads_big_endian_values() {
    let mut req = ModbusRequest::new(1, ModbusProto::Rtu);
    let mut out: Vec<u8> = Vec::new();
    req.generate_get_holdings(0, 2, &mut out).unwrap();
    let buf = vec![1, 3, 4, 0, 1, 0, 2, 0x2A, 0x32];
    let mut vals: Vec<u16> = Vec::new();
    assert_eq!(req.parse_u16(&buf, &mut vals), Ok(()));
    assert_eq!(vals, vec![1, 2]);
}

#[test]
fn parse_u16_stops_at_count() {
    let mut req = ModbusRequest::new(1, ModbusProto::TcpUdp);
    let mut out: Vec<u8> = Vec::new();
    req.generate_get_holdings(0, 2, &mut out).unwrap();
    let buf = read_answer(&req, 6, &[0x12, 0x34, 0x56, 0x78, 0x9A, 0xBC]);
    let mut vals: Vec<u16> = Vec::new();
    assert_eq!(req.parse_u16(&buf, &mut vals), Ok(()));
    assert_eq!(vals, vec![0x1234, 0x5678]);
}

#[test]
fn parse_u16_stops_when_data_runs_out() {
    let mut req = ModbusRequest::new(1, ModbusProto::TcpUdp);
    let mut out: Vec<u8> = Vec::new();
    req.generate_get_inputs(0, 10, &mut out).unwrap();
    let buf = read_answer(&req, 3, &[0x12, 0x34, 0x56]);
    let mut vals: Vec<u16> = Vec::new();
    assert_eq!(req.parse_u16(&buf, &mut vals), Ok(()));
    assert_eq!(vals, vec![0x1234]);
}

#[test]
fn parse_u16_into_full_container_is_out_of_bounds() {
    let mut req = ModbusRequest::new(1, ModbusProto::Ascii);
    let mut out: Vec<u8> = Vec::new();
    req.generate_get_holdings(0, 3, &mut out).unwrap();
    let buf = read_answer(&req, 6, &[0, 1, 0, 2, 0, 3]);
    let mut vals: BoundedVec<u16> = BoundedVec::new(2);
    assert_eq!(req.parse_u16(&buf, &mut vals), Err(ErrorKind::OOB));
    let mut vals: BoundedVec<u16> = BoundedVec::new(3);
    assert_eq!(req.parse_u16(&buf, &mut vals), Ok(()));
    assert_eq!(vals.get_slice(), &[1, 2, 3]);
}

#[test]
fn parse_bool_unpacks_low_bit_first() {
    let mut req = ModbusRequest::new(1, ModbusProto::TcpUdp);
    let mut out: Vec<u8> = Vec::new();
    req.generate_get_coils(0, 10, &mut out).unwrap();
    let buf = read_answer(&req, 2, &[0xCD, 0x01]);
    let mut bits: Vec<bool> = Vec::new();
    assert_eq!(req.parse_bool(&buf, &mut bits), Ok(()));
    assert_eq!(
        bits,
        vec![true, false, true, true, false, false, true, true, true, false]
    );
}

#[test]
fn parse_bool_into_full_container_is_out_of_bounds() {
    let mut req = ModbusRequest::new(1, ModbusProto::Rtu);
    let mut out: Vec<u8> = Vec::new();
    req.generate_get_discretes(0, 9, &mut out).unwrap();
    let buf = read_answer(&req, 2, &[0xFF, 0xFF]);
    let mut bits: BoundedVec<bool> = BoundedVec::new(8);
    assert_eq!(req.parse_bool(&buf, &mut bits), Err(ErrorKind::OOB));
}

fn coils_round_trip(n: usize) {
    let values: Vec<bool> = (0..n).map(|i| (i * 7 + i / 3) % 5 < 2).collect();
    let mut req = ModbusRequest::new(3, ModbusProto::TcpUdp);
    let mut out: Vec<u8> = Vec::new();
    req.generate_set_coils_bulk(0, &values, &mut out).unwrap();
    let packed = out[13..].to_vec();
    assert_eq!(packed.len(), (n + 7) / 8);
    req.generate_get_coils(0, n as u16, &mut out).unwrap();
    let declared = if packed.len() > 255 { 255 } else { packed.len() as u8 };
    let buf = read_answer(&req, declared, &packed);
    let mut bits: Vec<bool> = Vec::new();
    assert_eq!(req.parse_bool(&buf, &mut bits), Ok(()));
    assert_eq!(bits, values);
}

#[test]
fn coils_round_trip_sizes() {
    for n in [0, 1, 7, 8, 9, 4000] {
        coils_round_trip(n);
    }
}

#[test]
fn parse_string_cuts_at_zero() {
    let mut req = ModbusRequest::new(1, ModbusProto::TcpUdp);
    let mut out: Vec<u8> = Vec::new();
    req.generate_get_holdings(0, 2, &mut out).unwrap();
    let buf = read_answer(&req, 4, b"AB\0");
    let mut text = String::from("old");
    assert_eq!(req.parse_string(&buf, &mut text), Ok(()));
    assert_eq!(text, "AB");
}

#[test]
fn parse_string_without_zero_takes_all() {
    let mut req = ModbusRequest::new(1, ModbusProto::Rtu);
    let mut out: Vec<u8> = Vec::new();
    req.generate_get_holdings(0, 2, &mut out).unwrap();
    let buf = read_answer(&req, 4, "héé".as_bytes());
    let mut text = String::new();
    assert_eq!(req.parse_string(&buf, &mut text), Ok(()));
    assert_eq!(text, "héé");
}

#[test]
fn parse_string_rejects_bad_utf8() {
    let mut req = ModbusRequest::new(1, ModbusProto::TcpUdp);
    let mut out: Vec<u8> = Vec::new();
    req.generate_get_holdings(0, 2, &mut out).unwrap();
    let buf = read_answer(&req, 4, &[b'A', 0xFF, 0xFE, 0]);
    let mut text = String::from("kept");
    assert_eq!(req.parse_string(&buf, &mut text), Err(ErrorKind::Utf8Error));
    assert_eq!(text, "kept");
}
