//! Names and text forms of DHCP values, for showing datagrams to people.
use vstd::prelude::*;
use crate::text::{decimal, push_decimal};

verus! {

/// The name of a BOOTP `op` value.
pub fn operation_name(op: u8) -> (r: Option<&'static str>)
    ensures
        op == 1 ==> r == Some("BOOT REQUEST"),
        op == 2 ==> r == Some("BOOT REPLY"),
        op != 1 && op != 2 ==> r is None,
{
    match op {
        1 => Some("BOOT REQUEST"),
        2 => Some("BOOT REPLY"),
        _ => None,
    }
}

/// The name of a DHCP message type (the value of option 53).
pub fn message_type_name(t: u8) -> (r: Option<&'static str>)
    ensures
        t == 1 ==> r == Some("DISCOVER"),
        t == 2 ==> r == Some("OFFER"),
        t == 3 ==> r == Some("REQUEST"),
        t == 4 ==> r == Some("DECLINE"),
        t == 5 ==> r == Some("ACK"),
        t == 6 ==> r == Some("NACK"),
        t == 7 ==> r == Some("RELEASE"),
        t == 8 ==> r == Some("INFORM"),
        (t == 0 || t > 8) ==> r is None,
{
    match t {
        1 => Some("DISCOVER"),
        2 => Some("OFFER"),
        3 => Some("REQUEST"),
        4 => Some("DECLINE"),
        5 => Some("ACK"),
        6 => Some("NACK"),
        7 => Some("RELEASE"),
        8 => Some("INFORM"),
        _ => None,
    }
}

/// The option codes that `option_name` knows.
pub open spec fn named_option(code: u8) -> bool {
    code == 1 || code == 3 || code == 6 || code == 15 || code == 43 || (51 <= code <= 61 && code != 56)
        || code == 93 || code == 94 || code == 97 || code == 255
}

/// The name of a DHCP option code.
pub fn option_name(code: u8) -> (r: Option<&'static str>)
    ensures
        r is Some <==> named_option(code),
        code == 1 ==> r == Some("Subnet Mask"),
        code == 3 ==> r == Some("Router"),
        code == 6 ==> r == Some("Domain Name Server"),
        code == 15 ==> r == Some("Domain Name"),
        code == 43 ==> r == Some("Vendor-Specific Information (PXEClient)"),
        code == 51 ==> r == Some("IP Address Lease Time"),
        code == 52 ==> r == Some("Overload 'sname' or 'file'"),
        code == 53 ==> r == Some("DHCP Message Type"),
        code == 54 ==> r == Some("DHCP Server Identifier"),
        code == 55 ==> r == Some("Parameter Request List"),
        code == 57 ==> r == Some("Maximum DHCP Message Size"),
        code == 58 ==> r == Some("Renewal Time Value"),
        code == 59 ==> r == Some("Rebinding Time Value"),
        code == 60 ==> r == Some("Vendor class Identifier"),
        code == 61 ==> r == Some("Client Identifier"),
        code == 93 ==> r == Some("Client System Architecture"),
        code == 94 ==> r == Some("Client Network Device Interface"),
        code == 97 ==> r == Some("UUID/GUID-based Client Identifier"),
        code == 255 ==> r == Some("END"),
{
    match code {
        1 => Some("Subnet Mask"),
        3 => Some("Router"),
        6 => Some("Domain Name Server"),
        15 => Some("Domain Name"),
        43 => Some("Vendor-Specific Information (PXEClient)"),
        51 => Some("IP Address Lease Time"),
        52 => Some("Overload 'sname' or 'file'"),
        53 => Some("DHCP Message Type"),
        54 => Some("DHCP Server Identifier"),
        55 => Some("Parameter Request List"),
        57 => Some("Maximum DHCP Message Size"),
        58 => Some("Renewal Time Value"),
        59 => Some("Rebinding Time Value"),
        60 => Some("Vendor class Identifier"),
        61 => Some("Client Identifier"),
        93 => Some("Client System Architecture"),
        94 => Some("Client Network Device Interface"),
        97 => Some("UUID/GUID-based Client Identifier"),
        255 => Some("END"),
        _ => None,
    }
}

/// The characters of ASCII octets.
pub open spec fn ascii_chars(b: Seq<u8>) -> Seq<char> {
    b.map_values(|c: u8| c as char)
}

/// Relies on `String::from_utf8`, which accepts every ASCII string and keeps
/// its characters.
#[verifier::external_body]
fn ascii_string(b: Vec<u8>) -> (r: String)
    requires
        forall|i: int| 0 <= i < b@.len() ==> #[trigger] b@[i] < 128,
    ensures
        r@ == ascii_chars(b@),
{
    String::from_utf8(b).unwrap_or_default()
}

/// The lower-case hexadecimal digit of `n`, below 16.
pub open spec fn hex_digit(n: u8) -> u8 {
    if n < 10 {
        (48 + n) as u8
    } else {
        (87 + n) as u8
    }
}

/// Six octets as a MAC address: two lower-case hexadecimal digits each,
/// separated by colons.
pub open spec fn mac_text(o: Seq<u8>) -> Seq<u8> {
    Seq::new(
        17,
        |i: int|
            if i % 3 == 2 {
                0x3au8
            } else if i % 3 == 0 {
                hex_digit(o[i / 3] / 16)
            } else {
                hex_digit(o[i / 3] % 16)
            },
    )
}

fn hex(n: u8) -> (r: u8)
    requires
        n < 16,
    ensures
        r == hex_digit(n),
        r < 128,
{
    if n < 10 {
        48 + n
    } else {
        87 + n
    }
}

/// The MAC address text of six octets, as `aa:bb:cc:dd:ee:ff`.
pub fn mac_str(octets: &[u8; 6]) -> (r: String)
    ensures
        r@ == ascii_chars(mac_text(octets@)),
{
    let mut b: Vec<u8> = Vec::new();
    let mut i: usize = 0;
    while i < 6
        invariant
            i <= 6,
            b@.len() == if i == 0 { 0 } else { 3 * i - 1 },
            forall|k: int| 0 <= k < b@.len() ==> #[trigger] b@[k] == mac_text(octets@)[k],
            forall|k: int| 0 <= k < b@.len() ==> #[trigger] b@[k] < 128,
        decreases 6 - i,
    {
        if i > 0 {
            b.push(0x3a);
        }
        b.push(hex(octets[i] / 16));
        b.push(hex(octets[i] % 16));
        i = i + 1;
    }
    assert(b@ =~= mac_text(octets@));
    ascii_string(b)
}

/// The dotted decimal text of an IPv4 address.
pub open spec fn ipv4_text(o: Seq<u8>) -> Seq<u8> {
    decimal(o[0] as nat) + seq![0x2eu8] + decimal(o[1] as nat) + seq![0x2eu8] + decimal(o[2] as nat)
        + seq![0x2eu8] + decimal(o[3] as nat)
}

proof fn lemma_decimal_ascii(n: nat)
    ensures
        forall|i: int| 0 <= i < decimal(n).len() ==> #[trigger] decimal(n)[i] < 128,
    decreases n,
{
    if n >= 10 {
        lemma_decimal_ascii(n / 10);
        let p = decimal(n / 10);
        assert forall|i: int| 0 <= i < decimal(n).len() implies #[trigger] decimal(n)[i] < 128 by {
            if i < p.len() {
                assert(decimal(n)[i] == p[i]);
            }
        }
    }
}

/// The IPv4 address text of four octets, as `192.168.1.103`.
pub fn ipv4_str(octets: &[u8; 4]) -> (r: String)
    ensures
        r@ == ascii_chars(ipv4_text(octets@)),
{
    let mut b: Vec<u8> = Vec::new();
    push_decimal(&mut b, octets[0] as u64);
    b.push(0x2e);
    push_decimal(&mut b, octets[1] as u64);
    b.push(0x2e);
    push_decimal(&mut b, octets[2] as u64);
    b.push(0x2e);
    push_decimal(&mut b, octets[3] as u64);
    proof {
        lemma_decimal_ascii(octets[0] as nat);
        lemma_decimal_ascii(octets[1] as nat);
        lemma_decimal_ascii(octets[2] as nat);
        lemma_decimal_ascii(octets[3] as nat);
        assert(b@ =~= ipv4_text(octets@));
    }
    ascii_string(b)
}

} // verus!
