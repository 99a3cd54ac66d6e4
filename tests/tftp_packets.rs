use pxe_server::tftp::DEFAULT_BLOCK_SIZE;
use pxe_server::{RequestError, TFTP};

#[test]
fn wrq_rrq_test() {
    let mut bytes: Vec<u8> = vec![
        0x00, 0x01, 0x6d, 0x65, 0x6d, 0x74, 0x65, 0x73,
        0x74, 0x5f, 0x78, 0x38, 0x36, 0x2e, 0x30, 0x00,
        0x6f, 0x63, 0x74, 0x65, 0x74, 0x00
    ];
    assert_eq!(TFTP::rrq("memtest_x86.0", "octet"), bytes);
    assert_eq!(TFTP::wrq("memtest_x86.0", "octet"), {
        bytes[1] = 0x02;
        bytes
    });
}

#[test]
fn ack_test() {
    assert_eq!(TFTP::ack(2137), vec![0x00, 0x04, 0x08, 0x59]);
    assert_eq!(TFTP::ack(33), vec![0x00, 0x04, 0x00, (1 << 5) + 1]);
    assert_eq!(TFTP::ack(43), vec![0x00, 0x04, 0x00, 0x2b]);
}

#[test]
fn data_test() {
    assert_eq!(TFTP::data(43, vec![1, 2, 3]), vec![0x00, 0x03, 0x00, 0x2b, 1, 2, 3]);
}

#[test]
fn error_test() {
    let bytes: Vec<u8> = vec![
        0x00, 0x05, 0x00, 0x00, 0x54, 0x46, 0x54, 0x50,
        0x20, 0x41, 0x62, 0x6f, 0x72, 0x74, 0x65, 0x64,
        0x00
    ];
    assert_eq!(TFTP::error(0, "TFTP Aborted"), bytes)
}

#[test]
fn data_block_number_is_big_endian() {
    assert_eq!(TFTP::data(0x0102, vec![]), vec![0x00, 0x03, 0x01, 0x02]);
    assert_eq!(TFTP::data(65535, vec![9]), vec![0x00, 0x03, 0xff, 0xff, 9]);
}

#[test]
fn opt_ack_lists_requested_options() {
    let mut expected = vec![0x00, 0x06];
    expected.extend_from_slice(b"blksize\x001456\x00tsize\x003000\x00");
    assert_eq!(TFTP::opt_ack(Some(1456), Some(3000)), expected);
}

#[test]
fn opt_ack_omits_options_not_given() {
    assert_eq!(TFTP::opt_ack(None, None), vec![0x00, 0x06]);
    let mut expected = vec![0x00, 0x06];
    expected.extend_from_slice(b"tsize\x000\x00");
    assert_eq!(TFTP::opt_ack(None, Some(0)), expected);
    let mut expected = vec![0x00, 0x06];
    expected.extend_from_slice(b"blksize\x0065535\x00");
    assert_eq!(TFTP::opt_ack(Some(65535), None), expected);
}

#[test]
fn parse_rrq_reads_filename_mode_and_options() {
    let mut packet = vec![0x00, 0x01];
    packet.extend_from_slice(b"f\x00octet\x00blksize\x001456\x00tsize\x000\x00");
    let q = TFTP::parse_rrq(&packet).unwrap();
    assert_eq!(q.filename, b"f".to_vec());
    assert_eq!(q.mode, b"octet".to_vec());
    assert_eq!(q.blksize, Some(1456));
    assert!(q.tsize);
    assert_eq!(q.block_size(), 1456);
}

#[test]
fn parse_rrq_without_options_uses_default_block_size() {
    let packet = TFTP::rrq("pxelinux.0", "octet");
    let q = TFTP::parse_rrq(&packet).unwrap();
    assert_eq!(q.filename, b"pxelinux.0".to_vec());
    assert_eq!(q.blksize, None);
    assert!(!q.tsize);
    assert_eq!(q.block_size(), DEFAULT_BLOCK_SIZE);
    assert_eq!(q.block_size(), 1488);
}

#[test]
fn parse_rrq_ignores_unknown_and_unpaired_options() {
    let mut packet = vec![0x00, 0x01];
    packet.extend_from_slice(b"f\x00octet\x00timeout\x005\x00blksize\x00");
    let q = TFTP::parse_rrq(&packet).unwrap();
    assert_eq!(q.blksize, None);
    assert!(!q.tsize);
}

#[test]
fn parse_rrq_last_repeated_option_wins() {
    let mut packet = vec![0x00, 0x01];
    packet.extend_from_slice(b"f\x00octet\x00blksize\x00512\x00blksize\x00+1024\x00");
    assert_eq!(TFTP::parse_rrq(&packet).unwrap().blksize, Some(1024));
}

#[test]
fn parse_rrq_bad_block_size_falls_back() {
    let mut packet = vec![0x00, 0x01];
    packet.extend_from_slice(b"f\x00octet\x00blksize\x0065536\x00");
    let q = TFTP::parse_rrq(&packet).unwrap();
    assert_eq!(q.blksize, None);
    assert_eq!(q.block_size(), 1488);
    let mut packet = vec![0x00, 0x01];
    packet.extend_from_slice(b"f\x00octet\x00blksize\x0014x\x00");
    assert_eq!(TFTP::parse_rrq(&packet).unwrap().blksize, None);
}

#[test]
fn parse_rrq_errors() {
    assert_eq!(TFTP::parse_rrq(&[0x00]).err(), Some(RequestError::InvalidOpcode));
    assert_eq!(TFTP::parse_rrq(&TFTP::wrq("f", "octet")).err(), Some(RequestError::InvalidOpcode));
    assert_eq!(TFTP::parse_rrq(&[0x00, 0x01, b'f']).err(), Some(RequestError::MissingFields));
    assert_eq!(TFTP::parse_rrq(&[0x00, 0x01, 0xc3, 0x00, b'o', 0x00]).err(), Some(RequestError::InvalidFilename));
    assert_eq!(TFTP::parse_rrq(&[0x00, 0x01, b'f', 0x00, 0xff, 0x00]).err(), Some(RequestError::InvalidMode));
}

#[test]
fn parse_rrq_zero_block_size_counts_as_not_given() {
    let mut packet = vec![0x00, 0x01];
    packet.extend_from_slice(b"f\x00octet\x00blksize\x000\x00");
    let q = TFTP::parse_rrq(&packet).unwrap();
    assert_eq!(q.blksize, None);
    assert_eq!(q.block_size(), 1488);
}
