//! The TFTP server's decisions: a table of transfers keyed by the peer's
//! endpoint, and what to send or do for each packet. The caller owns the
//! socket and the files; it does what an [`Action`] asks and hands the outcome
//! back.
use vstd::prelude::*;
use std::collections::HashMap;
use vstd::string::StringSliceAdditionalSpecFns;
use crate::tftp::{request_view, ReadRequest, RequestView, ACK, DATA, DEFAULT_BLOCK_SIZE, ERROR, OPT_ACK, RRQ, TFTP, blksize_name, oack_entry, tsize_name};
use crate::wire::be16;

verus! {

/// Error code: the file cannot be had.
pub const FILE_NOT_FOUND: u16 = 1;

/// Error code: the next block cannot be read.
pub const READ_FAILED: u16 = 2;

/// Error code: the packet asks for something this server does not do.
pub const UNSUPPORTED: u16 = 20;

/// One transfer in progress: the last block number sent, the block size, and
/// whether the last (short) block has gone out.
#[derive(Clone, Copy, Debug, PartialEq, Eq, Structural)]
pub struct TFTPTransfer {
    pub block_cnt: u16,
    pub block_sz: u16,
    pub done: bool,
}

/// The block number after `n`, wrapping to 0 after 65535.
pub open spec fn next_block_number(n: u16) -> u16 {
    if n == 65535 {
        0
    } else {
        (n + 1) as u16
    }
}

/// The transfer after sending a block of `len` octets: the counter moves on,
/// and a block shorter or longer than the block size ends the transfer.
pub open spec fn advanced(t: TFTPTransfer, len: nat) -> TFTPTransfer {
    TFTPTransfer { block_cnt: next_block_number(t.block_cnt), block_sz: t.block_sz, done: len != t.block_sz }
}

/// A new transfer: nothing sent yet.
pub open spec fn fresh(block_sz: u16) -> TFTPTransfer {
    TFTPTransfer { block_cnt: 0, block_sz, done: false }
}

impl TFTPTransfer {
    /// A transfer with block size `block_sz` that has sent nothing.
    pub fn new(block_sz: u16) -> (r: Self)
        ensures
            r == fresh(block_sz),
    {
        TFTPTransfer { block_cnt: 0, block_sz, done: false }
    }

    /// Takes `read`, the next at most `block_sz` octets of the file, as the
    /// next block: `None`, and no change, once the transfer is done or when
    /// `read` is longer than a block.
    pub fn next_block(&mut self, read: Vec<u8>) -> (r: Option<Vec<u8>>)
        ensures
            r.is_some() <==> !old(self).done && read@.len() <= old(self).block_sz,
            r.is_some() ==> *final(self) == advanced(*old(self), read@.len()) && r.unwrap()@ == read@,
            r.is_none() ==> *final(self) == *old(self),
    {
        if self.done || read.len() > self.block_sz as usize {
            return None;
        }
        self.block_cnt = if self.block_cnt == 65535 { 0 } else { self.block_cnt + 1 };
        self.done = read.len() != self.block_sz as usize;
        Some(read)
    }
}

/// The key of a peer's transfer: its IPv4 address and UDP port.
pub open spec fn endpoint_key_spec(ip: [u8; 4], port: u16) -> u64 {
    ((((ip[0] as int * 256 + ip[1]) * 256 + ip[2]) * 256 + ip[3]) * 65536 + port) as u64
}

/// The key of a peer's transfer: its IPv4 address and UDP port.
pub fn endpoint_key(ip: [u8; 4], port: u16) -> (r: u64)
    ensures
        r == endpoint_key_spec(ip, port),
{
    let a: u64 = ((ip[0] as u64 * 256 + ip[1] as u64) * 256 + ip[2] as u64) * 256 + ip[3] as u64;
    a * 65536 + port as u64
}

/// An error packet as values.
pub open spec fn error_bytes(code: u16, msg: Seq<u8>) -> Seq<u8> {
    seq![0u8, ERROR] + be16(code) + msg + seq![0u8]
}

/// The message sent with `FILE_NOT_FOUND`.
pub open spec fn no_such_file() -> Seq<u8> {
    "No such file".spec_bytes()
}

/// The message sent with `READ_FAILED`.
pub open spec fn read_failed() -> Seq<u8> {
    "Unable to read next block.".spec_bytes()
}

/// The message sent with `UNSUPPORTED`.
pub open spec fn unsupported() -> Seq<u8> {
    "Unsupported operation".spec_bytes()
}

/// The option acknowledgement for a request whose file has `size` octets.
pub open spec fn oack_bytes(q: RequestView, size: u64) -> Seq<u8> {
    seq![0u8, OPT_ACK] + oack_entry(
        blksize_name(),
        match q.2 {
            Some(b) => Some(b as nat),
            None => None,
        },
    ) + oack_entry(tsize_name(), if q.3 { Some(size as nat) } else { None })
}

/// The block size that a request sets up.
pub open spec fn request_block_size(q: RequestView) -> u16 {
    match q.2 {
        Some(b) => b,
        None => DEFAULT_BLOCK_SIZE,
    }
}

/// `c` separates path components.
pub open spec fn is_separator(c: u8) -> bool {
    c == 0x2f || c == 0x5c
}

/// `s` has a `..` component starting at `i`.
pub open spec fn parent_at(s: Seq<u8>, i: int) -> bool {
    &&& 0 <= i && i + 2 <= s.len()
    &&& s[i] == 0x2e && s[i + 1] == 0x2e
    &&& i == 0 || is_separator(s[i - 1])
    &&& i + 2 == s.len() || is_separator(s[i + 2])
}

/// A file name that stays under the served directory: not empty, not
/// absolute, no drive letter, no `..` component.
pub open spec fn safe_name(s: Seq<u8>) -> bool {
    &&& s.len() > 0
    &&& !is_separator(s[0])
    &&& forall|i: int| 0 <= i < s.len() ==> #[trigger] s[i] != 0x3a
    &&& forall|i: int| !#[trigger] parent_at(s, i)
}

/// The file name stays under the served directory.
pub fn is_safe_name(s: &[u8]) -> (r: bool)
    ensures
        r == safe_name(s@),
{
    let n = s.len();
    if n == 0 || s[0] == 0x2f || s[0] == 0x5c {
        return false;
    }
    let mut i: usize = 0;
    while i < n
        invariant
            n == s@.len(),
            i <= n,
            forall|k: int| 0 <= k < i ==> #[trigger] s@[k] != 0x3a,
            forall|k: int| 0 <= k < i ==> !#[trigger] parent_at(s@, k),
        decreases n - i,
    {
        if s[i] == 0x3a {
            return false;
        }
        if i + 1 < n && s[i] == 0x2e && s[i + 1] == 0x2e && (i == 0 || s[i - 1] == 0x2f || s[i - 1]
            == 0x5c) && (i + 2 == n || s[i + 2] == 0x2f || s[i + 2] == 0x5c) {
            assert(parent_at(s@, i as int));
            return false;
        }
        i = i + 1;
    }
    assert forall|k: int| !#[trigger] parent_at(s@, k) by {
        if 0 <= k < n {
        }
    }
    true
}

/// Every read request sets up a non-zero block size, so the block law below
/// applies to every transfer that `opened` starts.
pub proof fn lemma_request_block_size_positive(b: Seq<u8>)
    ensures
        request_view(b) matches Ok(q) ==> request_block_size(q) > 0,
{
}

/// What the caller is to do for a packet.
pub enum Action {
    /// Send these octets to the peer.
    Reply(Vec<u8>),
    /// Open the file the request names, under the served directory, and
    /// hand the outcome to `opened`.
    Open(ReadRequest),
    /// Read up to this many octets more of the peer's file and hand them to
    /// `block_read`.
    Read(u16),
    /// The transfer is over and forgotten: close the peer's file, send nothing.
    Close,
    /// Too short to be a packet: send nothing.
    Ignore,
}

/// The opcode of a packet of at least two octets.
pub open spec fn opcode(p: Seq<u8>) -> int {
    p[0] * 256 + p[1]
}

/// The transfers in progress, one per peer.
pub struct TFTPServer {
    transfers: HashMap<u64, TFTPTransfer>,
}

impl TFTPServer {
    /// The transfer of each peer.
    pub closed spec fn view(&self) -> Map<u64, TFTPTransfer> {
        self.transfers@
    }

    /// A server with no transfers.
    pub fn new() -> (r: Self)
        ensures
            r.view() == Map::<u64, TFTPTransfer>::empty(),
    {
        TFTPServer { transfers: HashMap::new() }
    }

    /// Decides what to do with a packet from the peer `from`. A read request
    /// is read and, if sound and naming a file under the served directory,
    /// handed out to be opened; an ACK asks for the
    /// next block, or ends a transfer whose last block has gone out; anything
    /// else is answered with an error.
    pub fn handle(&mut self, from: u64, packet: &[u8]) -> (r: Action)
        ensures
            packet@.len() < 2 ==> r is Ignore && final(self).view() == old(self).view(),
            packet@.len() >= 2 && opcode(packet@) == RRQ ==> final(self).view() == old(self).view()
                && match request_view(packet@) {
                Ok(q) => if safe_name(q.0) {
                    r matches Action::Open(o) && o.view_of() == q
                } else {
                    r matches Action::Reply(b) && b@ == error_bytes(FILE_NOT_FOUND, no_such_file())
                },
                Err(_) => (r matches Action::Reply(b) && b@ == error_bytes(FILE_NOT_FOUND, no_such_file())),
            },
            packet@.len() >= 2 && opcode(packet@) == ACK ==> if !old(self).view().contains_key(from) {
                (r matches Action::Reply(b) && b@ == error_bytes(READ_FAILED, read_failed()))
                    && final(self).view() == old(self).view()
            } else if old(self).view()[from].done {
                r is Close && final(self).view() == old(self).view().remove(from)
            } else {
                r == Action::Read(old(self).view()[from].block_sz) && final(self).view() == old(self).view()
            },
            packet@.len() >= 2 && opcode(packet@) != RRQ && opcode(packet@) != ACK ==> (r matches Action::Reply(b)
                && b@ == error_bytes(UNSUPPORTED, unsupported())) && final(self).view() == old(self).view(),
    {
        broadcast use vstd::std_specs::hash::group_hash_axioms;
        if packet.len() < 2 {
            return Action::Ignore;
        }
        if packet[0] == 0 && packet[1] == RRQ {
            return match TFTP::parse_rrq(packet) {
                Ok(q) => if is_safe_name(q.filename.as_slice()) {
                    Action::Open(q)
                } else {
                    Action::Reply(TFTP::error(FILE_NOT_FOUND, "No such file"))
                },
                Err(_) => Action::Reply(TFTP::error(FILE_NOT_FOUND, "No such file")),
            };
        }
        if packet[0] == 0 && packet[1] == ACK {
            let t = match self.transfers.get(&from) {
                Some(t) => *t,
                None => {
                    return Action::Reply(TFTP::error(READ_FAILED, "Unable to read next block."));
                },
            };
            if t.done {
                self.transfers.remove(&from);
                return Action::Close;
            }
            return Action::Read(t.block_sz);
        }
        Action::Reply(TFTP::error(UNSUPPORTED, "Unsupported operation"))
    }

    /// Takes the outcome of opening the file of `req` for `from`: its size,
    /// or `None` when it could not be opened. An opened file starts a
    /// transfer, replacing any of the same peer, and is answered with the
    /// option acknowledgement.
    pub fn opened(&mut self, from: u64, req: &ReadRequest, file_size: Option<u64>) -> (r: Vec<u8>)
        ensures
            file_size is None ==> r@ == error_bytes(FILE_NOT_FOUND, no_such_file())
                && final(self).view() == old(self).view(),
            file_size matches Some(size) ==> r@ == oack_bytes(req.view_of(), size)
                && final(self).view() == old(self).view().insert(
                from,
                fresh(request_block_size(req.view_of())),
            ),
    {
        broadcast use vstd::std_specs::hash::group_hash_axioms;
        match file_size {
            None => TFTP::error(FILE_NOT_FOUND, "No such file"),
            Some(size) => {
                self.transfers.insert(from, TFTPTransfer::new(req.block_size()));
                TFTP::opt_ack(req.blksize, if req.tsize { Some(size) } else { None })
            },
        }
    }

    /// Takes the next block read for `from`: `None` when reading failed. A
    /// block goes out as DATA with the next block number; a failed read, or
    /// more octets than a block, ends the transfer with an error.
    pub fn block_read(&mut self, from: u64, data: Option<Vec<u8>>) -> (r: Vec<u8>)
        ensures
            !old(self).view().contains_key(from) || old(self).view()[from].done ==> r@ == error_bytes(
                READ_FAILED,
                read_failed(),
            ) && final(self).view() == old(self).view(),
            old(self).view().contains_key(from) && !old(self).view()[from].done ==> match data {
                Some(d) => if d@.len() <= old(self).view()[from].block_sz {
                    let t = advanced(old(self).view()[from], d@.len());
                    &&& r@ == seq![0u8, DATA] + be16(t.block_cnt) + d@
                    &&& final(self).view() == old(self).view().insert(from, t)
                } else {
                    &&& r@ == error_bytes(READ_FAILED, read_failed())
                    &&& final(self).view() == old(self).view().remove(from)
                },
                None => r@ == error_bytes(READ_FAILED, read_failed()) && final(self).view()
                    == old(self).view().remove(from),
            },
    {
        broadcast use vstd::std_specs::hash::group_hash_axioms;
        let mut t = match self.transfers.get(&from) {
            Some(t) => *t,
            None => {
                return TFTP::error(READ_FAILED, "Unable to read next block.");
            },
        };
        if t.done {
            return TFTP::error(READ_FAILED, "Unable to read next block.");
        }
        match data {
            None => {
                self.transfers.remove(&from);
                TFTP::error(READ_FAILED, "Unable to read next block.")
            },
            Some(d) => {
                match t.next_block(d) {
                    Some(block) => {
                        self.transfers.insert(from, t);
                        TFTP::data(t.block_cnt, block)
                    },
                    None => {
                        self.transfers.remove(&from);
                        TFTP::error(READ_FAILED, "Unable to read next block.")
                    },
                }
            },
        }
    }
}

/// A file of octets `f` cut into blocks of `sz`: whole blocks while at least
/// `sz` octets are left, then one shorter block, empty when `sz` divides the
/// length.
pub open spec fn file_blocks(f: Seq<u8>, sz: nat) -> Seq<Seq<u8>>
    decreases f.len(),
{
    if sz == 0 || f.len() < sz {
        seq![f]
    } else {
        seq![f.subrange(0, sz as int)] + file_blocks(f.subrange(sz as int, f.len() as int), sz)
    }
}

/// The transfer `t` after sending the blocks `bs` in order.
pub open spec fn sent(t: TFTPTransfer, bs: Seq<Seq<u8>>) -> TFTPTransfer
    decreases bs.len(),
{
    if bs.len() == 0 {
        t
    } else {
        advanced(sent(t, bs.drop_last()), bs.last().len())
    }
}

proof fn lemma_file_blocks(f: Seq<u8>, sz: nat)
    requires
        sz > 0,
    ensures
        file_blocks(f, sz).len() >= 1,
        file_blocks(f, sz).len() == f.len() / sz + 1,
        file_blocks(f, sz).flatten() == f,
        file_blocks(f, sz).last().len() < sz,
        forall|i: int| 0 <= i < file_blocks(f, sz).len() - 1 ==> #[trigger] file_blocks(f, sz)[i].len() == sz,
    decreases f.len(),
{
    let bs = file_blocks(f, sz);
    if f.len() < sz {
        let n = f.len() as int;
        let z = sz as int;
        assert(n / z == 0) by (nonlinear_arith)
            requires
                0 <= n < z,
        ;
        assert(bs.drop_first() =~= Seq::<Seq<u8>>::empty());
        assert(bs.drop_first().flatten() =~= Seq::<u8>::empty());
        assert(bs.flatten() == bs.first() + bs.drop_first().flatten());
        assert(bs.flatten() =~= f);
    } else {
        let rest = f.subrange(sz as int, f.len() as int);
        lemma_file_blocks(rest, sz);
        let n = f.len() as int;
        let z = sz as int;
        vstd::arithmetic::div_mod::lemma_div_plus_one(n - z, z);
        assert(z + (n - z) == n);
        assert(bs.drop_first() =~= file_blocks(rest, sz));
        assert(bs.flatten() =~= f);
        assert forall|i: int| 0 <= i < bs.len() - 1 implies #[trigger] bs[i].len() == sz by {
            if i > 0 {
                assert(bs[i] == file_blocks(rest, sz)[i - 1]);
            }
        }
    }
}

proof fn lemma_sent(t: TFTPTransfer, bs: Seq<Seq<u8>>, k: nat)
    requires
        k <= bs.len(),
    ensures
        sent(t, bs.subrange(0, k as int)).block_cnt == (t.block_cnt + k) % 65536,
        sent(t, bs.subrange(0, k as int)).block_sz == t.block_sz,
        k >= 1 ==> sent(t, bs.subrange(0, k as int)).done == (bs[k - 1].len() != t.block_sz),
    decreases k,
{
    if k == 0 {
        assert(bs.subrange(0, 0) =~= Seq::<Seq<u8>>::empty());
    } else {
        lemma_sent(t, bs, (k - 1) as nat);
        assert(bs.subrange(0, k as int).drop_last() =~= bs.subrange(0, k - 1));
    }
}

/// A file sent block by block from a fresh transfer with a non-zero block
/// size: there is one block more than whole blocks fit in the file; the
/// blocks, in increasing block order, put together give the file;
/// every block but the last is full and the last is shorter than the block
/// size (possibly empty); the transfer is done after the last block and not
/// before, so that `next_block` gives `None` from then on; and the `k`-th
/// block carries block number `k` modulo 2^16.
pub proof fn law_blocks_make_up_file(f: Seq<u8>, sz: u16)
    requires
        sz > 0,
    ensures
        ({
            let bs = file_blocks(f, sz as nat);
            &&& bs.len() == f.len() / (sz as nat) + 1
            &&& bs.flatten() == f
            &&& bs.last().len() < sz
            &&& forall|i: int| 0 <= i < bs.len() - 1 ==> #[trigger] bs[i].len() == sz
            &&& forall|k: nat|
                1 <= k <= bs.len() ==> (#[trigger] sent(fresh(sz), bs.subrange(0, k as int))).done == (k
                    == bs.len())
            &&& forall|k: nat|
                k <= bs.len() ==> (#[trigger] sent(fresh(sz), bs.subrange(0, k as int))).block_cnt == k
                    % 65536
        }),
{
    let bs = file_blocks(f, sz as nat);
    lemma_file_blocks(f, sz as nat);
    assert forall|k: nat| 1 <= k <= bs.len() implies (#[trigger] sent(fresh(sz), bs.subrange(0, k as int))).done
        == (k == bs.len()) by {
        lemma_sent(fresh(sz), bs, k);
        if k < bs.len() {
            assert(bs[k - 1].len() == sz);
        }
    }
    assert forall|k: nat| k <= bs.len() implies (#[trigger] sent(fresh(sz), bs.subrange(0, k as int))).block_cnt
        == k % 65536 by {
        lemma_sent(fresh(sz), bs, k);
    }
}

} // verus!
