use pxe_server::server::is_safe_name;
use pxe_server::{endpoint_key, Action, TFTPServer, TFTPTransfer, TFTP};

fn peer() -> u64 {
    endpoint_key([192, 168, 1, 50], 2070)
}

fn open_file(server: &mut TFTPServer, from: u64, packet: &[u8], size: u64) -> Vec<u8> {
    match server.handle(from, packet) {
        Action::Open(req) => server.opened(from, &req, Some(size)),
        _ => panic!("a read request asks for its file to be opened"),
    }
}

fn next_block(server: &mut TFTPServer, from: u64, file: &[u8], offset: &mut usize, ack: u16) -> Option<Vec<u8>> {
    match server.handle(from, &TFTP::ack(ack)) {
        Action::Read(n) => {
            let end = std::cmp::min(file.len(), *offset + n as usize);
            let block = file[*offset..end].to_vec();
            *offset = end;
            Some(server.block_read(from, Some(block)))
        }
        Action::Close => None,
        _ => panic!("an ACK reads a block or closes the transfer"),
    }
}

#[test]
fn rrq_with_options_gets_oack() {
    let mut server = TFTPServer::new();
    let mut packet = vec![0x00, 0x01];
    packet.extend_from_slice(b"f\x00octet\x00blksize\x001456\x00tsize\x000\x00");
    let reply = open_file(&mut server, peer(), &packet, 3000);
    let mut expected = vec![0x00, 0x06];
    expected.extend_from_slice(b"blksize\x001456\x00tsize\x003000\x00");
    assert_eq!(reply, expected);
}

#[test]
fn blocks_follow_acks_until_short_block() {
    let mut server = TFTPServer::new();
    let file: Vec<u8> = (1..=10).collect();
    let mut packet = vec![0x00, 0x01];
    packet.extend_from_slice(b"f\x00octet\x00blksize\x004\x00");
    let mut expected = vec![0x00, 0x06];
    expected.extend_from_slice(b"blksize\x004\x00");
    assert_eq!(open_file(&mut server, peer(), &packet, 10), expected);
    let mut offset = 0usize;
    assert_eq!(next_block(&mut server, peer(), &file, &mut offset, 0), Some(vec![0, 3, 0, 1, 1, 2, 3, 4]));
    assert_eq!(next_block(&mut server, peer(), &file, &mut offset, 1), Some(vec![0, 3, 0, 2, 5, 6, 7, 8]));
    assert_eq!(next_block(&mut server, peer(), &file, &mut offset, 2), Some(vec![0, 3, 0, 3, 9, 10]));
    assert_eq!(next_block(&mut server, peer(), &file, &mut offset, 3), None);
    // The transfer is gone: a further ACK has nothing to read.
    let mut err = vec![0x00, 0x05, 0x00, 0x02];
    err.extend_from_slice(b"Unable to read next block.\x00");
    assert!(matches!(server.handle(peer(), &TFTP::ack(4)), Action::Reply(b) if b == err));
}

#[test]
fn blocks_concatenate_to_file() {
    let mut server = TFTPServer::new();
    let file: Vec<u8> = (0..=255u8).cycle().take(1000).collect();
    let mut packet = vec![0x00, 0x01];
    packet.extend_from_slice(b"big\x00octet\x00blksize\x00100\x00");
    open_file(&mut server, peer(), &packet, 1000);
    let mut offset = 0usize;
    let mut got = Vec::new();
    let mut ack = 0u16;
    let mut last_len = 0usize;
    while let Some(data) = next_block(&mut server, peer(), &file, &mut offset, ack) {
        ack += 1;
        assert_eq!(u16::from_be_bytes([data[2], data[3]]), ack);
        last_len = data.len() - 4;
        got.extend_from_slice(&data[4..]);
    }
    assert_eq!(got, file);
    assert_eq!(ack, 11);
    assert_eq!(last_len, 0);
}

#[test]
fn default_block_size_without_options() {
    let mut server = TFTPServer::new();
    let reply = open_file(&mut server, peer(), &TFTP::rrq("pxelinux.0", "octet"), 5);
    assert_eq!(reply, vec![0x00, 0x06]);
    assert!(matches!(server.handle(peer(), &TFTP::ack(0)), Action::Read(1488)));
}

#[test]
fn missing_file_is_error_one() {
    let mut server = TFTPServer::new();
    let packet = TFTP::rrq("nothing", "octet");
    let req = match server.handle(peer(), &packet) {
        Action::Open(req) => req,
        _ => panic!("expected an open"),
    };
    let mut err = vec![0x00, 0x05, 0x00, 0x01];
    err.extend_from_slice(b"No such file\x00");
    assert_eq!(server.opened(peer(), &req, None), err);
    let mut err2 = vec![0x00, 0x05, 0x00, 0x02];
    err2.extend_from_slice(b"Unable to read next block.\x00");
    assert!(matches!(server.handle(peer(), &TFTP::ack(0)), Action::Reply(b) if b == err2));
}

#[test]
fn malformed_request_is_error_one() {
    let mut server = TFTPServer::new();
    let mut err = vec![0x00, 0x05, 0x00, 0x01];
    err.extend_from_slice(b"No such file\x00");
    assert!(matches!(server.handle(peer(), &[0x00, 0x01, b'f']), Action::Reply(b) if b == err));
}

#[test]
fn unsupported_opcode_is_error_twenty() {
    let mut server = TFTPServer::new();
    let mut err = vec![0x00, 0x05, 0x00, 0x14];
    err.extend_from_slice(b"Unsupported operation\x00");
    let wrq = TFTP::wrq("f", "octet");
    assert!(matches!(server.handle(peer(), &wrq), Action::Reply(b) if b == err));
}

#[test]
fn short_packet_is_ignored() {
    let mut server = TFTPServer::new();
    assert!(matches!(server.handle(peer(), &[0x00]), Action::Ignore));
    assert!(matches!(server.handle(peer(), &[]), Action::Ignore));
}

#[test]
fn read_failure_ends_transfer() {
    let mut server = TFTPServer::new();
    open_file(&mut server, peer(), &TFTP::rrq("f", "octet"), 5);
    assert!(matches!(server.handle(peer(), &TFTP::ack(0)), Action::Read(_)));
    let mut err = vec![0x00, 0x05, 0x00, 0x02];
    err.extend_from_slice(b"Unable to read next block.\x00");
    assert_eq!(server.block_read(peer(), None), err);
    assert!(matches!(server.handle(peer(), &TFTP::ack(0)), Action::Reply(_)));
}

#[test]
fn peers_have_separate_transfers() {
    let mut server = TFTPServer::new();
    let a = endpoint_key([10, 0, 0, 1], 1000);
    let b = endpoint_key([10, 0, 0, 1], 1001);
    assert_ne!(a, b);
    let mut packet = vec![0x00, 0x01];
    packet.extend_from_slice(b"f\x00octet\x00blksize\x00512\x00");
    open_file(&mut server, a, &packet, 5);
    open_file(&mut server, b, &TFTP::rrq("g", "octet"), 5);
    assert!(matches!(server.handle(a, &TFTP::ack(0)), Action::Read(512)));
    assert!(matches!(server.handle(b, &TFTP::ack(0)), Action::Read(1488)));
}

#[test]
fn endpoint_key_packs_address_and_port() {
    assert_eq!(endpoint_key([192, 168, 1, 103], 69), 0xc0a8_0167_0045);
    assert_eq!(endpoint_key([0, 0, 0, 0], 0), 0);
}

#[test]
fn transfer_counter_wraps() {
    let mut t = TFTPTransfer { block_cnt: 65535, block_sz: 2, done: false };
    assert_eq!(t.next_block(vec![1, 2]), Some(vec![1, 2]));
    assert_eq!(t.block_cnt, 0);
    assert!(!t.done);
    assert_eq!(t.next_block(vec![1, 2, 3]), None);
    assert_eq!(t.next_block(vec![7]), Some(vec![7]));
    assert_eq!(t.block_cnt, 1);
    assert!(t.done);
    assert_eq!(t.next_block(vec![]), None);
}

#[test]
fn new_transfer_starts_at_zero() {
    let t = TFTPTransfer::new(512);
    assert_eq!(t, TFTPTransfer { block_cnt: 0, block_sz: 512, done: false });
}

#[test]
fn names_outside_the_root_are_refused() {
    let mut server = TFTPServer::new();
    let mut err = vec![0x00, 0x05, 0x00, 0x01];
    err.extend_from_slice(b"No such file\x00");
    for name in ["../etc/passwd", "/etc/passwd", "a/../../b", "..", "C:\\boot.ini", "a\\..\\..\\b"] {
        let packet = TFTP::rrq(name, "octet");
        assert!(matches!(server.handle(peer(), &packet), Action::Reply(ref b) if *b == err), "{}", name);
        assert!(!is_safe_name(name.as_bytes()));
    }
    for name in ["pxelinux.0", "boot/grub.cfg", "a..b", "...", "x/.hidden"] {
        assert!(is_safe_name(name.as_bytes()), "{}", name);
        assert!(matches!(server.handle(peer(), &TFTP::rrq(name, "octet")), Action::Open(_)));
    }
    assert!(!is_safe_name(b""));
}

#[test]
fn failed_open_keeps_running_transfer() {
    let mut server = TFTPServer::new();
    let mut packet = vec![0x00, 0x01];
    packet.extend_from_slice(b"f\x00octet\x00blksize\x00512\x00");
    open_file(&mut server, peer(), &packet, 5);
    let req = match server.handle(peer(), &TFTP::rrq("missing", "octet")) {
        Action::Open(req) => req,
        _ => panic!("expected an open"),
    };
    let mut err = vec![0x00, 0x05, 0x00, 0x01];
    err.extend_from_slice(b"No such file\x00");
    assert_eq!(server.opened(peer(), &req, None), err);
    assert!(matches!(server.handle(peer(), &TFTP::ack(0)), Action::Read(512)));
}
