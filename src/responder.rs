//! The ProxyDHCP responder: answers a PXE client's DISCOVER with an OFFER that
//! carries the boot server and boot file, and leaves address leases to others.
use vstd::prelude::*;
use crate::dhcp::{find_option, DHCPBody, DHCPDgram, DHCPDgramBuilder, OptionView, END};
use crate::pxe::{address_bytes, discovery_control, pxe_bytes, servers_bytes, PXEBuilder, BOOT_SERVERS, DISCOVERY_CONTROL, PXE_END};

verus! {

/// `op` of a client's request.
pub const BOOT_REQUEST: u8 = 1;

/// `op` of a server's reply.
pub const BOOT_REPLY: u8 = 2;

/// DHCP message type DISCOVER.
pub const DISCOVER: u8 = 1;

/// DHCP message type OFFER.
pub const OFFER: u8 = 2;

/// DHCP message type REQUEST.
pub const REQUEST: u8 = 3;

/// Option code of the vendor-specific information.
pub const VENDOR_OPTIONS: u8 = 43;

/// Option code of the DHCP message type.
pub const MESSAGE_TYPE: u8 = 53;

/// Option code of the server identifier.
pub const SERVER_ID: u8 = 54;

/// Option code of the vendor class identifier.
pub const CLASS_ID: u8 = 60;

/// What the responder says of itself.
pub struct ProxyConfig {
    /// The server's own IPv4 address.
    pub ip: [u8; 4],
    /// The name placed in `sname`.
    pub server_name: Vec<u8>,
    /// The boot file name placed in `filename`.
    pub bootfile: Vec<u8>,
}

/// The vendor class identifier of PXE clients and servers, "PXEClient".
pub open spec fn pxe_class_id() -> Seq<u8> {
    seq![0x50u8, 0x58u8, 0x45u8, 0x43u8, 0x6cu8, 0x69u8, 0x65u8, 0x6eu8, 0x74u8]
}

/// `name` cut to `n` octets and padded with NULs to `n`.
pub open spec fn fixed_field(name: Seq<u8>, n: nat) -> Seq<u8> {
    Seq::new(n, |i: int| if i < name.len() { name[i] } else { 0u8 })
}

/// The PXE vendor options of an offer: take the boot file at once, the server
/// itself as the only boot server, end.
pub open spec fn offer_vendor_options(ip: [u8; 4]) -> Seq<u8> {
    pxe_bytes(
        seq![
            (DISCOVERY_CONTROL, seq![discovery_control(false)]),
            (BOOT_SERVERS, servers_bytes(seq![ip])),
            (PXE_END, Seq::<u8>::empty()),
        ],
    )
}

/// The options of an offer, in order.
pub open spec fn offer_options(ip: [u8; 4]) -> Seq<OptionView> {
    seq![
        (MESSAGE_TYPE, 1u8, seq![OFFER]),
        (SERVER_ID, 4u8, ip@),
        (CLASS_ID, 9u8, pxe_class_id()),
        (VENDOR_OPTIONS, offer_vendor_options(ip).len() as u8, offer_vendor_options(ip)),
        (END, 0u8, Seq::<u8>::empty()),
    ]
}

/// The body of an offer made in answer to a request with body `b`: the request's
/// body turned into a reply that names the server and the boot file.
pub open spec fn offer_body(b: DHCPBody, r: DHCPBody, c: ProxyConfig) -> bool {
    &&& r == (DHCPBody { op: BOOT_REPLY, sname: r.sname, filename: r.filename, ..b })
    &&& r.sname@ == fixed_field(c.server_name@, 64)
    &&& r.filename@ == fixed_field(c.bootfile@, 128)
}

/// The responder answers a datagram: a BOOT REQUEST whose message type is
/// DISCOVER, and nothing else.
pub open spec fn answers(d: DHCPDgram) -> bool {
    d.body.op == BOOT_REQUEST && find_option(d.options_spec(), MESSAGE_TYPE) == Some(seq![DISCOVER])
}

/// The vendor options of an offer, octet by octet.
pub proof fn lemma_offer_vendor_options(ip: [u8; 4])
    ensures
        offer_vendor_options(ip) == seq![0x06u8, 1u8, 0x0eu8, 0x08u8, 7u8, 0u8, 0u8, 1u8]
            + ip@ + seq![0xffu8],
        offer_vendor_options(ip).len() == 13,
{
    let os = seq![
        (DISCOVERY_CONTROL, seq![discovery_control(false)]),
        (BOOT_SERVERS, servers_bytes(seq![ip])),
        (PXE_END, Seq::<u8>::empty()),
    ];
    reveal_with_fuel(address_bytes, 2);
    reveal_with_fuel(pxe_bytes, 4);
    assert(seq![ip].drop_last() =~= Seq::<[u8; 4]>::empty());
    assert(address_bytes(seq![ip]) =~= ip@);
    assert(servers_bytes(seq![ip]) =~= seq![0u8, 0u8, 1u8] + ip@);
    assert(os.drop_last().drop_last().drop_last() =~= Seq::<(u8, Seq<u8>)>::empty());
    assert(pxe_bytes(os.drop_last().drop_last()) =~= seq![0x06u8, 1u8, 0x0eu8]);
    assert(pxe_bytes(os.drop_last()) =~= seq![0x06u8, 1u8, 0x0eu8, 0x08u8, 7u8, 0u8, 0u8, 1u8] + ip@);
    assert(pxe_bytes(os) =~= seq![0x06u8, 1u8, 0x0eu8, 0x08u8, 7u8, 0u8, 0u8, 1u8] + ip@ + seq![0xffu8]);
}

/// Copies `name` into an `N`-octet field, cut to `N` and padded with NULs.
fn copy_name<const N: usize>(name: &Vec<u8>) -> (r: [u8; N])
    ensures
        r@ == fixed_field(name@, N as nat),
{
    let mut r: [u8; N] = [0u8; N];
    let mut i: usize = 0;
    while i < N && i < name.len()
        invariant
            i <= N,
            i <= name@.len(),
            r@.len() == N,
            forall|k: int| 0 <= k < i ==> r@[k] == name@[k],
            forall|k: int| i <= k < N ==> r@[k] == 0u8,
        decreases N - i,
    {
        r[i] = name[i];
        i = i + 1;
    }
    assert(r@ =~= fixed_field(name@, N as nat));
    r
}

/// The PXE vendor options of an offer from the server at `ip`.
fn vendor_options(ip: [u8; 4]) -> (r: Vec<u8>)
    ensures
        r@ == offer_vendor_options(ip),
{
    let mut servers: Vec<[u8; 4]> = Vec::new();
    servers.push(ip);
    let b = PXEBuilder::default().start(false).boot_servers(servers);
    let b = b.end();
    let r = b.build();
    proof {
        assert(servers@ =~= seq![ip]);
        assert(b.view() =~= seq![
            (DISCOVERY_CONTROL, seq![discovery_control(false)]),
            (BOOT_SERVERS, servers_bytes(seq![ip])),
            (PXE_END, Seq::<u8>::empty()),
        ]);
    }
    r
}

/// The OFFER for a DISCOVER: the request's body as a reply naming this server
/// and the boot file, with message type, server identifier, class identifier,
/// PXE vendor options and the end marker.
pub fn discover(config: &ProxyConfig, dhcp: &DHCPDgram) -> (r: DHCPDgram)
    ensures
        offer_body(dhcp.body, r.body, *config),
        r.options_spec() == offer_options(config.ip),
{
    let mut body = dhcp.body;
    body.op = BOOT_REPLY;
    body.sname = copy_name::<64>(&config.server_name);
    body.filename = copy_name::<128>(&config.bootfile);

    let pxe = vendor_options(config.ip);
    proof {
        lemma_offer_vendor_options(config.ip);
    }
    let class_id: [u8; 9] = [0x50, 0x58, 0x45, 0x43, 0x6c, 0x69, 0x65, 0x6e, 0x74];
    let message_type: [u8; 1] = [OFFER];
    assert(class_id@ =~= pxe_class_id());
    assert(message_type@ =~= seq![OFFER]);
    let b = DHCPDgramBuilder::default().body(body);
    let b = b.option(MESSAGE_TYPE, message_type.as_slice());
    let b = b.option(SERVER_ID, config.ip.as_slice());
    let b = b.option(CLASS_ID, class_id.as_slice());
    let b = b.option(VENDOR_OPTIONS, pxe.as_slice());
    let b = b.end();
    assert(b.options_spec() =~= offer_options(config.ip));
    match b.build() {
        Some(d) => d,
        None => DHCPDgram { body, options: Vec::new() },
    }
}

/// The answer to a datagram: an OFFER for a BOOT REQUEST whose message type is
/// DISCOVER, nothing for anything else (replies, REQUEST and other types).
pub fn respond(config: &ProxyConfig, request: &DHCPDgram) -> (r: Option<DHCPDgram>)
    ensures
        r.is_some() <==> answers(*request),
        r matches Some(o) ==> offer_body(request.body, o.body, *config) && o.options_spec()
            == offer_options(config.ip),
{
    if request.body.op != BOOT_REQUEST {
        return None;
    }
    match request.option(MESSAGE_TYPE) {
        Some(t) => {
            if t.len() == 1 && t[0] == DISCOVER {
                assert(t@ =~= seq![DISCOVER]);
                Some(discover(config, request))
            } else {
                None
            }
        },
        None => None,
    }
}

} // verus!
