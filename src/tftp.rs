//! TFTP packets: building RRQ, WRQ, DATA, ACK, OACK and ERROR, and reading a
//! read request with its options.
use vstd::prelude::*;
use vstd::string::StringSliceAdditionalSpecFns;
use crate::text::{decimal, parse_u16, parse_u16_spec, pieces_view, push_decimal, split_at_nul, split_nul};
use crate::wire::{be16, be16_octets};

verus! {

/// Block size used when a read request does not negotiate one.
pub const DEFAULT_BLOCK_SIZE: u16 = 1488;

/// TFTP packet builders and the opcodes they use.
pub struct TFTP {}

/// Read request opcode.
pub const RRQ: u8 = 1;

/// Write request opcode.
pub const WRQ: u8 = 2;

/// Data opcode.
pub const DATA: u8 = 3;

/// Acknowledgement opcode.
pub const ACK: u8 = 4;

/// Error opcode.
pub const ERROR: u8 = 5;

/// Option acknowledgement opcode.
pub const OPT_ACK: u8 = 6;

/// The option name "blksize".
pub open spec fn blksize_name() -> Seq<u8> {
    seq![0x62u8, 0x6cu8, 0x6bu8, 0x73u8, 0x69u8, 0x7au8, 0x65u8]
}

/// The option name "tsize".
pub open spec fn tsize_name() -> Seq<u8> {
    seq![0x74u8, 0x73u8, 0x69u8, 0x7au8, 0x65u8]
}

/// A request packet: opcode, file name and mode, each string NUL-terminated.
pub open spec fn request_bytes(opcode: u8, filename: Seq<u8>, mode: Seq<u8>) -> Seq<u8> {
    seq![0u8, opcode] + filename + seq![0u8] + mode + seq![0u8]
}

/// An option of an option acknowledgement, if accepted: name and decimal
/// value, each NUL-terminated.
pub open spec fn oack_entry(name: Seq<u8>, value: Option<nat>) -> Seq<u8> {
    match value {
        Some(v) => name + seq![0u8] + decimal(v) + seq![0u8],
        None => seq![],
    }
}

/// The octets of a string followed by a NUL.
pub fn str_to_bytes(string: &str) -> (r: Vec<u8>)
    ensures
        r@ == string.spec_bytes().push(0u8),
{
    let mut r: Vec<u8> = Vec::new();
    r.extend_from_slice(string.as_bytes());
    r.push(0);
    r
}

/// Appends a NUL-terminated option name and decimal value.
fn push_option(out: &mut Vec<u8>, name: &[u8], value: u64)
    ensures
        final(out)@ == old(out)@ + oack_entry(name@, Some(value as nat)),
{
    out.extend_from_slice(name);
    out.push(0);
    push_decimal(out, value);
    out.push(0);
    assert(final(out)@ =~= old(out)@ + oack_entry(name@, Some(value as nat)));
}

impl TFTP {
    /// A write request for `filname` in transfer mode `mode`.
    pub fn wrq(filname: &str, mode: &str) -> (r: Vec<u8>)
        ensures
            r@ == request_bytes(WRQ, filname.spec_bytes(), mode.spec_bytes()),
    {
        let mut r: Vec<u8> = Vec::new();
        r.push(0);
        r.push(WRQ);
        r.append(&mut str_to_bytes(filname));
        r.append(&mut str_to_bytes(mode));
        assert(r@ =~= request_bytes(WRQ, filname.spec_bytes(), mode.spec_bytes()));
        r
    }

    /// A read request for `filname` in transfer mode `mode`.
    pub fn rrq(filname: &str, mode: &str) -> (r: Vec<u8>)
        ensures
            r@ == request_bytes(RRQ, filname.spec_bytes(), mode.spec_bytes()),
    {
        let mut r = Self::wrq(filname, mode);
        r.set(1, RRQ);
        assert(r@ =~= request_bytes(RRQ, filname.spec_bytes(), mode.spec_bytes()));
        r
    }

    /// A data packet: opcode, block number, payload.
    pub fn data(block: u16, bytes: Vec<u8>) -> (r: Vec<u8>)
        ensures
            r@ == seq![0u8, DATA] + be16(block) + bytes@,
    {
        let mut r: Vec<u8> = Vec::new();
        r.push(0);
        r.push(DATA);
        r.extend_from_slice(be16_octets(block).as_slice());
        r.extend_from_slice(bytes.as_slice());
        assert(r@ =~= seq![0u8, DATA] + be16(block) + bytes@);
        r
    }

    /// An acknowledgement of block `block`.
    pub fn ack(block: u16) -> (r: Vec<u8>)
        ensures
            r@ == seq![0u8, ACK] + be16(block),
    {
        let mut r: Vec<u8> = Vec::new();
        r.push(0);
        r.push(ACK);
        r.extend_from_slice(be16_octets(block).as_slice());
        assert(r@ =~= seq![0u8, ACK] + be16(block));
        r
    }

    /// An option acknowledgement listing the accepted options: the block size
    /// and the transfer size, each only when given.
    pub fn opt_ack(blksize: Option<u16>, tsize: Option<u64>) -> (r: Vec<u8>)
        ensures
            r@ == seq![0u8, OPT_ACK] + oack_entry(
                blksize_name(),
                match blksize {
                    Some(b) => Some(b as nat),
                    None => None,
                },
            ) + oack_entry(
                tsize_name(),
                match tsize {
                    Some(t) => Some(t as nat),
                    None => None,
                },
            ),
    {
        let mut r: Vec<u8> = Vec::new();
        r.push(0);
        r.push(OPT_ACK);
        let ghost head = r@;
        if let Some(b) = blksize {
            let name: [u8; 7] = [0x62, 0x6c, 0x6b, 0x73, 0x69, 0x7a, 0x65];
            assert(name@ =~= blksize_name());
            push_option(&mut r, name.as_slice(), b as u64);
        }
        let ghost mid = r@;
        if let Some(t) = tsize {
            let name: [u8; 5] = [0x74, 0x73, 0x69, 0x7a, 0x65];
            assert(name@ =~= tsize_name());
            push_option(&mut r, name.as_slice(), t);
        }
        assert(r@ =~= seq![0u8, OPT_ACK] + oack_entry(
            blksize_name(),
            match blksize {
                Some(b) => Some(b as nat),
                None => None,
            },
        ) + oack_entry(
            tsize_name(),
            match tsize {
                Some(t) => Some(t as nat),
                None => None,
            },
        ));
        r
    }

    /// An error packet: opcode, error code, NUL-terminated message.
    pub fn error(code: u16, msg: &str) -> (r: Vec<u8>)
        ensures
            r@ == seq![0u8, ERROR] + be16(code) + msg.spec_bytes() + seq![0u8],
    {
        let mut r: Vec<u8> = Vec::new();
        r.push(0);
        r.push(ERROR);
        r.extend_from_slice(be16_octets(code).as_slice());
        r.append(&mut str_to_bytes(msg));
        assert(r@ =~= seq![0u8, ERROR] + be16(code) + msg.spec_bytes() + seq![0u8]);
        r
    }
}

/// Why a packet is not a read request that can be served.
#[derive(Clone, Copy, Debug, PartialEq, Eq, Structural)]
pub enum RequestError {
    /// The first two octets are not the read request opcode.
    InvalidOpcode,
    /// The file name or the mode is missing.
    MissingFields,
    /// The file name is not ASCII.
    InvalidFilename,
    /// The mode is not ASCII.
    InvalidMode,
}

/// A read request: file name, transfer mode, and the options the server acts on.
pub struct ReadRequest {
    pub filename: Vec<u8>,
    pub mode: Vec<u8>,
    /// The block size asked for, when the request names one that reads as a
    /// `u16` other than 0 (a block size of 0 could never end a transfer).
    pub blksize: Option<u16>,
    /// The request asks for the transfer size.
    pub tsize: bool,
}

/// A read request as values: file name, mode, block size asked for, transfer size asked for.
pub type RequestView = (Seq<u8>, Seq<u8>, Option<u16>, bool);

impl ReadRequest {
    pub open spec fn view_of(&self) -> RequestView {
        (self.filename@, self.mode@, self.blksize, self.tsize)
    }

    /// The block size of the transfer: the one asked for, else the default.
    pub fn block_size(&self) -> (r: u16)
        ensures
            r == match self.blksize {
                Some(b) => b,
                None => DEFAULT_BLOCK_SIZE,
            },
    {
        match self.blksize {
            Some(b) => b,
            None => DEFAULT_BLOCK_SIZE,
        }
    }
}

/// Every octet is ASCII.
pub open spec fn is_ascii_bytes(s: Seq<u8>) -> bool {
    forall|i: int| 0 <= i < s.len() ==> #[trigger] s[i] < 128
}

/// How many whole name-value pairs follow the file name and the mode.
pub open spec fn pair_count(p: Seq<Seq<u8>>) -> nat {
    if p.len() >= 2 {
        ((p.len() - 2) / 2) as nat
    } else {
        0
    }
}

/// The value of the last of the first `n` pairs whose name is `name`.
pub open spec fn option_value(p: Seq<Seq<u8>>, name: Seq<u8>, n: nat) -> Option<Seq<u8>>
    decreases n,
{
    if n == 0 {
        None
    } else if p[2 * (n - 1) + 2] == name {
        Some(p[2 * (n - 1) + 3])
    } else {
        option_value(p, name, (n - 1) as nat)
    }
}

/// What a packet says as a read request. After the opcode come NUL-separated
/// strings: file name, mode, then name-value pairs; a trailing string
/// without a partner is ignored, and so are unknown option names. Of
/// repeated names the last counts. A block size that does not read as a
/// `u16`, or reads as 0, counts as not asked for.
pub open spec fn request_view(b: Seq<u8>) -> Result<RequestView, RequestError> {
    if b.len() < 2 || b[0] != 0 || b[1] != RRQ {
        Err(RequestError::InvalidOpcode)
    } else {
        let p = split_nul(b.subrange(2, b.len() as int));
        if p.len() < 2 {
            Err(RequestError::MissingFields)
        } else if !is_ascii_bytes(p[0]) {
            Err(RequestError::InvalidFilename)
        } else if !is_ascii_bytes(p[1]) {
            Err(RequestError::InvalidMode)
        } else {
            let n = pair_count(p);
            let blksize = match option_value(p, blksize_name(), n) {
                Some(v) => match parse_u16_spec(v) {
                    Some(b) => if b > 0 { Some(b) } else { None },
                    None => None,
                },
                None => None,
            };
            Ok((p[0], p[1], blksize, option_value(p, tsize_name(), n) is Some))
        }
    }
}

/// The two strings are equal.
fn bytes_eq(a: &[u8], b: &[u8]) -> (r: bool)
    ensures
        r == (a@ == b@),
{
    if a.len() != b.len() {
        return false;
    }
    let mut i: usize = 0;
    while i < a.len()
        invariant
            i <= a@.len(),
            a@.len() == b@.len(),
            forall|k: int| 0 <= k < i ==> a@[k] == b@[k],
        decreases a@.len() - i,
    {
        if a[i] != b[i] {
            return false;
        }
        i = i + 1;
    }
    assert(a@ =~= b@);
    true
}

/// Every octet of `s` is ASCII.
fn all_ascii(s: &[u8]) -> (r: bool)
    ensures
        r == is_ascii_bytes(s@),
{
    let mut i: usize = 0;
    while i < s.len()
        invariant
            i <= s@.len(),
            forall|k: int| 0 <= k < i ==> #[trigger] s@[k] < 128,
        decreases s@.len() - i,
    {
        if s[i] >= 128 {
            return false;
        }
        i = i + 1;
    }
    true
}

/// A copy of `v`.
fn copy_bytes(v: &Vec<u8>) -> (r: Vec<u8>)
    ensures
        r@ == v@,
{
    let r = v.clone();
    assert(r@ =~= v@);
    r
}

impl TFTP {
    /// Reads a read request: opcode, file name, mode and the options
    /// `blksize` (ignored when 0) and `tsize`.
    pub fn parse_rrq(bytes: &[u8]) -> (r: Result<ReadRequest, RequestError>)
        ensures
            match r {
                Ok(q) => request_view(bytes@) == Ok::<RequestView, RequestError>(q.view_of()),
                Err(e) => request_view(bytes@) == Err::<RequestView, RequestError>(e),
            },
    {
        if bytes.len() < 2 || bytes[0] != 0 || bytes[1] != RRQ {
            return Err(RequestError::InvalidOpcode);
        }
        let rest = vstd::slice::slice_subrange(bytes, 2, bytes.len());
        let pieces = split_at_nul(rest);
        let ghost p = pieces_view(pieces@);
        if pieces.len() < 2 {
            return Err(RequestError::MissingFields);
        }
        assert(pieces@[0]@ == p[0] && pieces@[1]@ == p[1]);
        if !all_ascii(pieces[0].as_slice()) {
            return Err(RequestError::InvalidFilename);
        }
        if !all_ascii(pieces[1].as_slice()) {
            return Err(RequestError::InvalidMode);
        }
        let blksize_key: [u8; 7] = [0x62, 0x6c, 0x6b, 0x73, 0x69, 0x7a, 0x65];
        let tsize_key: [u8; 5] = [0x74, 0x73, 0x69, 0x7a, 0x65];
        assert(blksize_key@ =~= blksize_name());
        assert(tsize_key@ =~= tsize_name());
        let count = pieces.len();
        let n: usize = (count - 2) / 2;
        let mut blksize_at: Option<usize> = None;
        let mut tsize = false;
        let mut k: usize = 0;
        while k < n
            invariant
                k <= n,
                n == pair_count(p),
                2 * n + 2 <= p.len(),
                count == pieces@.len(),
                p == pieces_view(pieces@),
                p.len() == pieces@.len(),
                blksize_key@ == blksize_name(),
                tsize_key@ == tsize_name(),
                match blksize_at {
                    Some(i) => 2 <= i < p.len() && option_value(p, blksize_name(), k as nat) == Some(p[i as int]),
                    None => option_value(p, blksize_name(), k as nat) is None,
                },
                tsize == option_value(p, tsize_name(), k as nat) is Some,
            decreases n - k,
        {
            let name = pieces[2 * k + 2].as_slice();
            assert(name@ == p[2 * k + 2]);
            if bytes_eq(name, blksize_key.as_slice()) {
                blksize_at = Some(2 * k + 3);
            }
            if bytes_eq(name, tsize_key.as_slice()) {
                tsize = true;
            }
            k = k + 1;
        }
        let blksize = match blksize_at {
            Some(i) => {
                assert(pieces@[i as int]@ == p[i as int]);
                match parse_u16(pieces[i].as_slice()) {
                    Some(b) => if b > 0 { Some(b) } else { None },
                    None => None,
                }
            },
            None => None,
        };
        let q = ReadRequest {
            filename: copy_bytes(&pieces[0]),
            mode: copy_bytes(&pieces[1]),
            blksize,
            tsize,
        };
        Ok(q)
    }
}

} // verus!
