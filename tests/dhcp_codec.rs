use pxe_server::dhcp::{BODY_LEN, MAGIC_COOKIE};
use pxe_server::names::{ipv4_str, mac_str, message_type_name, operation_name, option_name};
use pxe_server::{DHCPBody, DHCPDgram, DHCPDgramBuilder, DHCPOption};

fn request_body() -> DHCPBody {
    let mut body = DHCPBody::default();
    body.op = 1;
    body.htype = 1;
    body.hlen = 6;
    body.xid = 0xDEADBEEF;
    body.secs = 0x0102;
    body.flags = 0x8000;
    body.ciaddr = [10, 0, 0, 1];
    body.chaddr[..6].copy_from_slice(&[0xaa, 0xbb, 0xcc, 0xdd, 0xee, 0xff]);
    body
}

fn client_id() -> Vec<u8> {
    (0..16).collect()
}

fn discover_dgram() -> DHCPDgram {
    DHCPDgramBuilder::default()
        .body(request_body())
        .option(53, &[1])
        .option(60, b"PXEClient")
        .option(97, &client_id())
        .end()
        .build()
        .unwrap()
}

#[test]
fn default_body_has_magic_cookie() {
    let body = DHCPBody::default();
    assert_eq!(body.mcookie, 0x63825363);
    assert_eq!(body.mcookie, MAGIC_COOKIE);
    assert_eq!(body.op, 0);
    assert_eq!(body.sname, [0u8; 64]);
    let d = DHCPDgram::default();
    assert_eq!(d.body.mcookie, 0x63825363);
    assert!(d.options.is_empty());
}

#[test]
fn body_layout_on_the_wire() {
    let d = DHCPDgram { body: request_body(), options: vec![] };
    let b = d.as_bytes();
    assert_eq!(b.len(), BODY_LEN);
    assert_eq!(&b[0..4], &[1, 1, 6, 0]);
    assert_eq!(&b[4..8], &[0xde, 0xad, 0xbe, 0xef]);
    assert_eq!(&b[8..10], &[0x01, 0x02]);
    assert_eq!(&b[10..12], &[0x80, 0x00]);
    assert_eq!(&b[12..16], &[10, 0, 0, 1]);
    assert_eq!(&b[28..34], &[0xaa, 0xbb, 0xcc, 0xdd, 0xee, 0xff]);
    assert_eq!(&b[236..240], &[0x63, 0x82, 0x53, 0x63]);
}

#[test]
fn short_input_does_not_parse() {
    assert!(DHCPDgram::from_bytes(&[0u8; 239]).is_none());
    assert!(DHCPDgram::from_bytes(&[]).is_none());
    let d = DHCPDgram::from_bytes(&[0u8; 240]).unwrap();
    assert!(d.options.is_empty());
}

#[test]
fn parse_after_serialize_gives_datagram() {
    let d = discover_dgram();
    let parsed = DHCPDgram::from_bytes(&d.clone().as_bytes()).unwrap();
    assert_eq!(parsed, d);
    let with_pads = DHCPDgram {
        body: request_body(),
        options: vec![DHCPOption(0, 0, vec![]), DHCPOption(53, 1, vec![3]), DHCPOption(0, 0, vec![])],
    };
    let wire = with_pads.clone().as_bytes();
    assert_eq!(&wire[BODY_LEN..], &[0x00, 0x00, 53, 1, 3, 0x00, 0x00]);
    let back = DHCPDgram::from_bytes(&wire).unwrap();
    assert_eq!(back.body, with_pads.body);
    assert_eq!(
        back.options,
        vec![
            DHCPOption(0, 0, vec![]),
            DHCPOption(0, 0, vec![]),
            DHCPOption(53, 1, vec![3]),
            DHCPOption(0, 0, vec![]),
            DHCPOption(0, 0, vec![]),
        ]
    );
}

#[test]
fn serialize_after_parse_gives_octets_up_to_end() {
    let mut wire = DHCPDgram { body: request_body(), options: vec![] }.as_bytes();
    wire.extend_from_slice(&[53, 1, 1, 60, 3, b'a', b'b', b'c', 0xff, 0x07, 0x11, 0x22]);
    let d = DHCPDgram::from_bytes(&wire).unwrap();
    let again = d.as_bytes();
    assert_eq!(again[..BODY_LEN + 9], wire[..BODY_LEN + 9]);
    assert_eq!(again.len(), BODY_LEN + 10);
    assert_eq!(again[BODY_LEN + 9], 0);

    let mut no_end = DHCPDgram { body: request_body(), options: vec![] }.as_bytes();
    no_end.extend_from_slice(&[53, 1, 5, 61, 0]);
    assert_eq!(DHCPDgram::from_bytes(&no_end).unwrap().as_bytes(), no_end);
}

#[test]
fn parse_stops_at_end_and_drops_truncated_option() {
    let mut wire = DHCPDgram { body: request_body(), options: vec![] }.as_bytes();
    wire.extend_from_slice(&[53, 1, 1, 0xff, 54, 4, 1, 2, 3, 4]);
    let d = DHCPDgram::from_bytes(&wire).unwrap();
    assert_eq!(d.options, vec![DHCPOption(53, 1, vec![1]), DHCPOption(0xff, 0, vec![])]);

    let mut cut = DHCPDgram { body: request_body(), options: vec![] }.as_bytes();
    cut.extend_from_slice(&[53, 1, 1, 54, 4, 1, 2]);
    let d = DHCPDgram::from_bytes(&cut).unwrap();
    assert_eq!(d.options, vec![DHCPOption(53, 1, vec![1])]);
}

#[test]
fn option_lookup() {
    let d = DHCPDgram::from_bytes(&discover_dgram().as_bytes()).unwrap();
    assert_eq!(d.option(60), Some(&b"PXEClient"[..]));
    assert_eq!(d.option(60).unwrap().len(), 9);
    assert_eq!(d.option(53), Some(&[1u8][..]));
    assert_eq!(d.option(97), Some(&client_id()[..]));
    assert_eq!(d.option(99), None);
}

#[test]
fn option_lookup_takes_first_match() {
    let d = DHCPDgram {
        body: request_body(),
        options: vec![DHCPOption(53, 1, vec![1]), DHCPOption(53, 1, vec![3])],
    };
    assert_eq!(d.option(53), Some(&[1u8][..]));
}

#[test]
fn swap_twice_is_identity() {
    let d = discover_dgram();
    let twice = d.swap_endianess().swap_endianess();
    assert_eq!(twice, d);
    let once = d.swap_endianess();
    assert_eq!(once.body.xid, 0xEFBEADDE);
    assert_eq!(once.body.secs, 0x0201);
    assert_eq!(once.body.flags, 0x0080);
    assert_eq!(once.body.mcookie, 0x63538263);
    assert_eq!(once.options, d.options);
}

#[test]
fn swapped_xid_on_the_wire() {
    let mut body = DHCPBody::default();
    body.xid = 0x01020304;
    let d = DHCPDgram { body, options: vec![] };
    let wire = d.swap_endianess().as_bytes();
    assert_eq!(&wire[4..8], &[0x04, 0x03, 0x02, 0x01]);
}

#[test]
fn pad_is_written_as_code_and_length() {
    let d = DHCPDgram { body: DHCPBody::default(), options: vec![DHCPOption(0, 0, vec![])] };
    let wire = d.as_bytes();
    assert_eq!(wire.len(), BODY_LEN + 2);
    assert_eq!(&wire[BODY_LEN..], &[0x00, 0x00]);
}

#[test]
fn emitted_lengths_match_values() {
    let d = DHCPDgramBuilder::default()
        .body(DHCPBody::default())
        .option(0, &[])
        .option(43, &[1, 2, 3, 4, 5])
        .option(12, &[7; 255])
        .end()
        .build()
        .unwrap();
    for o in &d.options {
        if o.0 != 0 && o.0 != 255 {
            assert_eq!(o.1 as usize, o.2.len());
        }
    }
    let wire = d.as_bytes();
    let opts = &wire[BODY_LEN..];
    assert_eq!(&opts[0..2], &[0, 0]);
    assert_eq!(&opts[2..4], &[43, 5]);
    assert_eq!(&opts[9..11], &[12, 255]);
    assert_eq!(opts.len(), 2 + 7 + 257 + 2);
    assert_eq!(&opts[opts.len() - 2..], &[0xff, 0x00]);
}

#[test]
fn builder_needs_a_body() {
    assert!(DHCPDgramBuilder::default().option(53, &[1]).end().build().is_none());
    let d = DHCPDgramBuilder::default().end().body(DHCPBody::default()).build().unwrap();
    assert_eq!(d.options, vec![DHCPOption(0xff, 0, vec![])]);
}

#[test]
fn names_of_values() {
    assert_eq!(operation_name(1), Some("BOOT REQUEST"));
    assert_eq!(operation_name(2), Some("BOOT REPLY"));
    assert_eq!(operation_name(3), None);
    assert_eq!(message_type_name(1), Some("DISCOVER"));
    assert_eq!(message_type_name(8), Some("INFORM"));
    assert_eq!(message_type_name(9), None);
    assert_eq!(option_name(60), Some("Vendor class Identifier"));
    assert_eq!(option_name(97), Some("UUID/GUID-based Client Identifier"));
    assert_eq!(option_name(56), None);
    assert_eq!(option_name(255), Some("END"));
}

#[test]
fn text_of_addresses() {
    assert_eq!(mac_str(&[0xaa, 0xbb, 0x0c, 0xdd, 0x00, 0xff]), "aa:bb:0c:dd:00:ff");
    assert_eq!(ipv4_str(&[192, 168, 1, 103]), "192.168.1.103");
    assert_eq!(ipv4_str(&[0, 10, 255, 7]), "0.10.255.7");
}

#[test]
fn every_option_name_is_known() {
    let named: [(u8, &str); 19] = [
        (1, "Subnet Mask"),
        (3, "Router"),
        (6, "Domain Name Server"),
        (15, "Domain Name"),
        (43, "Vendor-Specific Information (PXEClient)"),
        (51, "IP Address Lease Time"),
        (52, "Overload 'sname' or 'file'"),
        (53, "DHCP Message Type"),
        (54, "DHCP Server Identifier"),
        (55, "Parameter Request List"),
        (57, "Maximum DHCP Message Size"),
        (58, "Renewal Time Value"),
        (59, "Rebinding Time Value"),
        (60, "Vendor class Identifier"),
        (61, "Client Identifier"),
        (93, "Client System Architecture"),
        (94, "Client Network Device Interface"),
        (97, "UUID/GUID-based Client Identifier"),
        (255, "END"),
    ];
    for (code, name) in named {
        assert_eq!(option_name(code), Some(name));
    }
    assert_eq!(option_name(0), None);
    assert_eq!(option_name(2), None);
}
