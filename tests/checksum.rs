use modbus_codec::checksum::{calc_crc16, calc_lrc};

#[test]
fn crc16_of_read_holdings_request() {
    let frame = [0x01u8, 0x03, 0x00, 0x00, 0x00, 0x0A];
    assert_eq!(calc_crc16(&frame, 6), 0xCDC5);
}

#[test]
fn crc16_of_write_coils_request() {
    let frame = [0x11u8, 0x0F, 0x00, 0x13, 0x00, 0x0A, 0x02, 0xCD, 0x01];
    assert_eq!(calc_crc16(&frame, 9), 0x0BBF);
}

#[test]
fn crc16_covers_only_the_given_length() {
    let frame = [0x01u8, 0x03, 0x00, 0x00, 0x00, 0x0A, 0xC5, 0xCD];
    assert_eq!(calc_crc16(&frame, 6), 0xCDC5);
}

#[test]
fn crc16_of_nothing_is_the_seed() {
    assert_eq!(calc_crc16(&[], 0), 0xFFFF);
}

#[test]
fn lrc_is_negated_byte_sum() {
    let frame = [0x01u8, 0x03, 0x00, 0x00, 0x00, 0x0A];
    assert_eq!(calc_lrc(&frame, 6), 0xF2);
    assert_eq!(calc_lrc(&frame, 0), 0x00);
    assert_eq!(calc_lrc(&[0x80u8, 0x80], 2), 0x00);
    assert_eq!(calc_lrc(&[0xFFu8], 1), 0x01);
}
