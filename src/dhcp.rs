//! The DHCP/BOOTP datagram: a fixed 240-octet body (the BOOTP header and the
//! magic cookie) followed by a list of type-length-value options.
use vstd::prelude::*;
use crate::codec_laws::lemma_parse_options_frame;
use crate::wire::{be16, be16_octets, be32, be32_octets, read_be16, read_be32, reverse16, reverse32, swap16, swap32, to_vec};

verus! {

/// Octets in the fixed part of a datagram: the BOOTP header and the magic cookie.
pub const BODY_LEN: usize = 240;

/// The DHCP magic cookie.
pub const MAGIC_COOKIE: u32 = 0x63825363;

/// The pad option code.
pub const PAD: u8 = 0x00;

/// The end-of-options marker code.
pub const END: u8 = 0xFF;

/// The fixed BOOTP header of a DHCP datagram.
#[derive(Clone, Copy, Debug, PartialEq, Eq)]
pub struct DHCPBody {
    pub op: u8,
    pub htype: u8,
    pub hlen: u8,
    pub hops: u8,
    pub xid: u32,
    pub secs: u16,
    pub flags: u16,
    pub ciaddr: [u8; 4],
    pub yiaddr: [u8; 4],
    pub siaddr: [u8; 4],
    pub giaddr: [u8; 4],
    pub chaddr: [u8; 16],
    pub sname: [u8; 64],
    pub filename: [u8; 128],
    pub mcookie: u32,
}

/// One DHCP option: code, length octet and value.
#[derive(Clone, Debug, PartialEq, Eq)]
pub struct DHCPOption(pub u8, pub u8, pub Vec<u8>);

/// An option as a mathematical value: code, length octet and value.
pub type OptionView = (u8, u8, Seq<u8>);

impl View for DHCPOption {
    type V = OptionView;

    open spec fn view(&self) -> OptionView {
        (self.0, self.1, self.2@)
    }
}

/// A DHCP datagram: the fixed body and the options in wire order.
#[derive(Clone, Debug, PartialEq, Eq)]
pub struct DHCPDgram {
    pub body: DHCPBody,
    pub options: Vec<DHCPOption>,
}

/// The options of a vector, as values.
pub open spec fn options_view(os: Seq<DHCPOption>) -> Seq<OptionView> {
    os.map_values(|o: DHCPOption| o@)
}

impl DHCPDgram {
    pub open spec fn options_spec(&self) -> Seq<OptionView> {
        options_view(self.options@)
    }
}

/// The 240 octets of a body on the wire: single octets as they are, the
/// multi-octet integers most significant octet first, arrays in order.
pub open spec fn body_bytes(b: DHCPBody) -> Seq<u8> {
    seq![b.op, b.htype, b.hlen, b.hops] + be32(b.xid) + be16(b.secs) + be16(b.flags) + b.ciaddr@
        + b.yiaddr@ + b.siaddr@ + b.giaddr@ + b.chaddr@ + b.sname@ + b.filename@ + be32(b.mcookie)
}

/// The options read from the octets that follow the body. A pad is one octet;
/// the end marker is kept and ends the list; any other code is followed by a
/// length octet and that many octets of value. A truncated option ends the
/// list and is dropped.
pub open spec fn parse_options(s: Seq<u8>) -> Seq<OptionView>
    decreases s.len(),
{
    if s.len() == 0 {
        seq![]
    } else if s[0] == PAD {
        seq![(PAD, 0u8, seq![])] + parse_options(s.drop_first())
    } else if s[0] == END {
        seq![(END, 0u8, seq![])]
    } else if s.len() < 2 || s.len() < s[1] + 2 {
        seq![]
    } else {
        seq![(s[0], s[1], s.subrange(2, s[1] + 2))] + parse_options(s.subrange(s[1] + 2, s.len() as int))
    }
}

/// The octets of one option on the wire: code, length octet and value; the
/// end marker is its code and a zero length. (Parsing reads a pad octet
/// alone, so a pad written this way reads back as two pads.)
pub open spec fn option_bytes(o: OptionView) -> Seq<u8> {
    if o.0 == END {
        seq![END, 0u8]
    } else {
        seq![o.0, o.1] + o.2
    }
}

/// The octets of a list of options, in order.
pub open spec fn options_bytes(os: Seq<OptionView>) -> Seq<u8>
    decreases os.len(),
{
    if os.len() == 0 {
        seq![]
    } else {
        options_bytes(os.drop_last()) + option_bytes(os.last())
    }
}

/// The length octet of an option other than a pad or the end marker counts
/// the octets of its value.
pub open spec fn option_wf(o: OptionView) -> bool {
    o.0 != PAD && o.0 != END ==> o.1 == o.2.len() && o.2.len() <= 255
}

/// Every option of the list is well formed.
pub open spec fn options_wf(os: Seq<OptionView>) -> bool {
    forall|i: int| 0 <= i < os.len() ==> #[trigger] option_wf(os[i])
}

/// A list of options as a frame carries them: each well formed, a pad or an
/// end marker has no value, and an end marker stands only last.
pub open spec fn options_frame(os: Seq<OptionView>) -> bool {
    &&& options_wf(os)
    &&& forall|i: int|
        0 <= i < os.len() && (os[i].0 == PAD || os[i].0 == END) ==> #[trigger] os[i].1 == 0
            && os[i].2.len() == 0
    &&& forall|i: int| 0 <= i < os.len() - 1 ==> #[trigger] os[i].0 != END
}

/// The octets after the body hold whole options, and no pad octet, up to
/// the end of the input or up to an end marker.
pub open spec fn options_unpadded(s: Seq<u8>) -> bool
    decreases s.len(),
{
    if s.len() == 0 {
        true
    } else if s[0] == PAD {
        false
    } else if s[0] == END {
        true
    } else if s.len() < 2 || s.len() < s[1] + 2 {
        false
    } else {
        options_unpadded(s.subrange(s[1] + 2, s.len() as int))
    }
}

/// How many octets options without pads take, the end marker included.
pub open spec fn options_extent(s: Seq<u8>) -> int
    decreases s.len(),
{
    if s.len() == 0 {
        0
    } else if s[0] == END {
        1
    } else if s.len() < 2 || s.len() < s[1] + 2 {
        0
    } else {
        s[1] + 2 + options_extent(s.subrange(s[1] + 2, s.len() as int))
    }
}

/// The octets of a whole datagram, as `as_bytes` writes them.
pub open spec fn dgram_bytes(d: DHCPDgram) -> Seq<u8> {
    body_bytes(d.body) + options_bytes(d.options_spec())
}

/// `p` is what `from_bytes` gives for `b`.
pub open spec fn parsed_as(b: Seq<u8>, p: DHCPDgram) -> bool {
    &&& b.len() >= BODY_LEN
    &&& body_bytes(p.body) == b.subrange(0, BODY_LEN as int)
    &&& p.options_spec() == parse_options(b.subrange(BODY_LEN as int, b.len() as int))
}

/// Appending a well-formed option keeps a list well formed.
pub proof fn lemma_options_wf_push(os: Seq<OptionView>, o: OptionView)
    requires
        options_wf(os),
        option_wf(o),
    ensures
        options_wf(os.push(o)),
{
    assert forall|i: int| 0 <= i < os.push(o).len() implies #[trigger] option_wf(os.push(o)[i]) by {
        if i < os.len() {
            assert(os.push(o)[i] == os[i]);
        }
    }
}

/// The value of the first option with the given code.
pub open spec fn find_option(os: Seq<OptionView>, code: u8) -> Option<Seq<u8>>
    decreases os.len(),
{
    if os.len() == 0 {
        None
    } else if os[0].0 == code {
        Some(os[0].2)
    } else {
        find_option(os.drop_first(), code)
    }
}

/// Reads the options that follow the body.
pub fn read_options(data: &[u8]) -> (r: Vec<DHCPOption>)
    ensures
        options_view(r@) == parse_options(data@),
        options_wf(options_view(r@)),
{
    let mut idx: usize = 0;
    let mut options: Vec<DHCPOption> = Vec::new();
    proof {
        assert(data@.subrange(0, data@.len() as int) =~= data@);
        assert(options_view(options@) =~= seq![]);
        assert(seq![] + parse_options(data@) =~= parse_options(data@));
    }
    while idx < data.len()
        invariant
            idx <= data@.len(),
            options_view(options@) + parse_options(data@.subrange(idx as int, data@.len() as int))
                == parse_options(data@),
            options_wf(options_view(options@)),
        decreases data@.len() - idx,
    {
        let ghost rest = data@.subrange(idx as int, data@.len() as int);
        let ghost before = options_view(options@);
        let code = data[idx];
        if code == PAD {
            options.push(DHCPOption(PAD, 0, Vec::new()));
            idx = idx + 1;
            proof {
                assert(rest.drop_first() =~= data@.subrange(idx as int, data@.len() as int));
                assert(options_view(options@) =~= before.push((PAD, 0u8, seq![])));
                lemma_options_wf_push(before, (PAD, 0u8, seq![]));
                assert(before.push((PAD, 0u8, seq![])) + parse_options(rest.drop_first())
                    =~= before + parse_options(rest));
            }
        } else if code == END {
            options.push(DHCPOption(END, 0, Vec::new()));
            proof {
                assert(options_view(options@) =~= before.push((END, 0u8, seq![])));
                lemma_options_wf_push(before, (END, 0u8, seq![]));
                assert(before.push((END, 0u8, seq![])) =~= before + parse_options(rest));
                assert(parse_options(data@.subrange(data@.len() as int, data@.len() as int))
                    =~= seq![]) by {
                    reveal_with_fuel(parse_options, 1);
                }
                assert(options_view(options@) + seq![] =~= options_view(options@));
            }
            return options;
        } else {
            if idx + 1 >= data.len() {
                proof {
                    assert(parse_options(rest) =~= seq![]);
                    assert(before + seq![] =~= before);
                }
                return options;
            }
            let length = data[idx + 1];
            if data.len() - idx - 2 < length as usize {
                proof {
                    assert(parse_options(rest) =~= seq![]);
                    assert(before + seq![] =~= before);
                }
                return options;
            }
            let end = idx + 2 + length as usize;
            let mut value: Vec<u8> = Vec::new();
            let mut j: usize = idx + 2;
            while j < end
                invariant
                    idx + 2 <= j <= end <= data@.len(),
                    value@ == data@.subrange(idx + 2, j as int),
                decreases end - j,
            {
                value.push(data[j]);
                j = j + 1;
                proof {
                    assert(value@ =~= data@.subrange(idx + 2, j as int));
                }
            }
            let ghost opt = (code, length, value@);
            options.push(DHCPOption(code, length, value));
            idx = end;
            proof {
                assert(rest.subrange(length + 2, rest.len() as int) =~= data@.subrange(
                    idx as int,
                    data@.len() as int,
                ));
                assert(rest.subrange(2, length + 2) =~= data@.subrange(
                    (end - length) as int,
                    end as int,
                ));
                assert(options_view(options@) =~= before.push(opt));
                lemma_options_wf_push(before, opt);
                assert(before.push(opt) + parse_options(data@.subrange(idx as int, data@.len() as int))
                    =~= before + parse_options(rest));
            }
        }
    }
    proof {
        assert(parse_options(data@.subrange(idx as int, data@.len() as int)) =~= seq![]);
        assert(options_view(options@) + seq![] =~= options_view(options@));
    }
    options
}

/// Copies `N` octets of `b` from `off` on into an array.
fn read_array<const N: usize>(b: &[u8], off: usize) -> (r: [u8; N])
    requires
        off + N <= b@.len(),
    ensures
        r@ == b@.subrange(off as int, off + N),
{
    let mut r: [u8; N] = [0u8; N];
    let len = b.len();
    let mut i: usize = 0;
    while i < N
        invariant
            i <= N,
            off + N <= b@.len(),
            len == b@.len(),
            r@.len() == N,
            forall|k: int| 0 <= k < i ==> r@[k] == b@[off + k],
        decreases N - i,
    {
        r[i] = b[off + i];
        i = i + 1;
    }
    assert(r@ =~= b@.subrange(off as int, off + N));
    r
}

/// Reads the body from the first 240 octets of `b`.
fn read_body(b: &[u8]) -> (r: DHCPBody)
    requires
        b@.len() >= BODY_LEN,
    ensures
        body_bytes(r) == b@.subrange(0, BODY_LEN as int),
{
    let r = DHCPBody {
        op: b[0],
        htype: b[1],
        hlen: b[2],
        hops: b[3],
        xid: read_be32(b[4], b[5], b[6], b[7]),
        secs: read_be16(b[8], b[9]),
        flags: read_be16(b[10], b[11]),
        ciaddr: read_array::<4>(b, 12),
        yiaddr: read_array::<4>(b, 16),
        siaddr: read_array::<4>(b, 20),
        giaddr: read_array::<4>(b, 24),
        chaddr: read_array::<16>(b, 28),
        sname: read_array::<64>(b, 44),
        filename: read_array::<128>(b, 108),
        mcookie: read_be32(b[236], b[237], b[238], b[239]),
    };
    assert(body_bytes(r) =~= b@.subrange(0, BODY_LEN as int));
    r
}

/// Writes the 240 octets of a body.
fn write_body(b: &DHCPBody) -> (r: Vec<u8>)
    ensures
        r@ == body_bytes(*b),
{
    let mut r: Vec<u8> = Vec::new();
    r.push(b.op);
    r.push(b.htype);
    r.push(b.hlen);
    r.push(b.hops);
    r.extend_from_slice(be32_octets(b.xid).as_slice());
    r.extend_from_slice(be16_octets(b.secs).as_slice());
    r.extend_from_slice(be16_octets(b.flags).as_slice());
    r.extend_from_slice(b.ciaddr.as_slice());
    r.extend_from_slice(b.yiaddr.as_slice());
    r.extend_from_slice(b.siaddr.as_slice());
    r.extend_from_slice(b.giaddr.as_slice());
    r.extend_from_slice(b.chaddr.as_slice());
    r.extend_from_slice(b.sname.as_slice());
    r.extend_from_slice(b.filename.as_slice());
    r.extend_from_slice(be32_octets(b.mcookie).as_slice());
    assert(r@ =~= body_bytes(*b));
    r
}

/// A copy of a list of options.
fn copy_options(os: &Vec<DHCPOption>) -> (r: Vec<DHCPOption>)
    ensures
        options_view(r@) == options_view(os@),
{
    let mut r: Vec<DHCPOption> = Vec::new();
    let mut i: usize = 0;
    while i < os.len()
        invariant
            i <= os@.len(),
            options_view(r@) == options_view(os@.subrange(0, i as int)),
        decreases os@.len() - i,
    {
        let o = &os[i];
        let value = o.2.clone();
        assert(value@ =~= o.2@);
        let ghost before = r@;
        r.push(DHCPOption(o.0, o.1, value));
        i = i + 1;
        proof {
            assert(r@ == before.push(DHCPOption(o.0, o.1, value)));
            assert(options_view(r@) =~= options_view(before).push(os@[i - 1]@));
            assert(os@.subrange(0, i as int) =~= os@.subrange(0, i - 1).push(os@[i - 1]));
            assert(options_view(os@.subrange(0, i as int)) =~= options_view(os@.subrange(0, i - 1)).push(os@[i - 1]@));
        }
    }
    assert(os@.subrange(0, i as int) =~= os@);
    r
}

/// `b` with its multi-octet integer fields byte-reversed.
pub open spec fn swapped(b: DHCPBody) -> DHCPBody {
    DHCPBody {
        xid: reverse32(b.xid),
        secs: reverse16(b.secs),
        flags: reverse16(b.flags),
        mcookie: reverse32(b.mcookie),
        ..b
    }
}

impl DHCPBody {
    /// The body with `xid`, `secs`, `flags` and `mcookie` byte-reversed.
    /// The codec itself reads and writes these fields most significant octet
    /// first; a caller that keeps them byte-reversed in memory swaps once on
    /// the way in and once on the way out, which leaves the wire octets as
    /// they were.
    pub fn swap_endianess(&self) -> (r: Self)
        ensures
            r == swapped(*self),
    {
        DHCPBody {
            xid: swap32(self.xid),
            secs: swap16(self.secs),
            flags: swap16(self.flags),
            mcookie: swap32(self.mcookie),
            ..*self
        }
    }
}

impl Default for DHCPBody {
    /// A body of zeros but for the magic cookie.
    fn default() -> (r: Self)
        ensures
            body_bytes(r) == Seq::new(236, |i: int| 0u8) + be32(MAGIC_COOKIE),
            r.mcookie == MAGIC_COOKIE,
    {
        let r = DHCPBody {
            op: 0,
            htype: 0,
            hlen: 0,
            hops: 0,
            xid: 0,
            secs: 0,
            flags: 0,
            ciaddr: [0u8; 4],
            yiaddr: [0u8; 4],
            siaddr: [0u8; 4],
            giaddr: [0u8; 4],
            chaddr: [0u8; 16],
            sname: [0u8; 64],
            filename: [0u8; 128],
            mcookie: MAGIC_COOKIE,
        };
        assert(be32(0) =~= seq![0u8, 0u8, 0u8, 0u8]) by {
            assert((0u32 >> 24u32) as u8 == 0 && ((0u32 >> 16u32) & 0xffu32) as u8 == 0 && ((0u32
                >> 8u32) & 0xffu32) as u8 == 0 && (0u32 & 0xffu32) as u8 == 0) by (bit_vector);
        }
        assert(be16(0) =~= seq![0u8, 0u8]) by {
            assert((0u16 >> 8u16) as u8 == 0 && (0u16 & 0xffu16) as u8 == 0) by (bit_vector);
        }
        assert(body_bytes(r) =~= Seq::new(236, |i: int| 0u8) + be32(MAGIC_COOKIE));
        r
    }
}

impl Default for DHCPDgram {
    /// The default body and no options.
    fn default() -> (r: Self)
        ensures
            body_bytes(r.body) == Seq::new(236, |i: int| 0u8) + be32(MAGIC_COOKIE),
            r.body.mcookie == MAGIC_COOKIE,
            r.options_spec() == Seq::<OptionView>::empty(),
    {
        let r = DHCPDgram { body: DHCPBody::default(), options: Vec::new() };
        assert(r.options_spec() =~= Seq::<OptionView>::empty());
        r
    }
}

impl DHCPDgram {
    /// The datagram with the multi-octet body fields byte-reversed.
    pub fn swap_endianess(&self) -> (r: Self)
        ensures
            r.body == swapped(self.body),
            r.options_spec() == self.options_spec(),
    {
        DHCPDgram { body: self.body.swap_endianess(), options: copy_options(&self.options) }
    }

    /// Parses a datagram: `None` when the input is shorter than the body.
    pub fn from_bytes(bytes: &[u8]) -> (r: Option<Self>)
        ensures
            r.is_some() <==> bytes@.len() >= BODY_LEN,
            r matches Some(d) ==> parsed_as(bytes@, d) && options_frame(d.options_spec()),
    {
        if bytes.len() < BODY_LEN {
            return None;
        }
        let body = read_body(bytes);
        let rest = slice_from(bytes, BODY_LEN);
        let options = read_options(rest);
        proof {
            lemma_parse_options_frame(rest@);
        }
        Some(DHCPDgram { body, options })
    }

    /// The octets of the datagram: the body, then each option in order.
    pub fn as_bytes(self) -> (r: Vec<u8>)
        ensures
            r@ == dgram_bytes(self),
    {
        let mut r = write_body(&self.body);
        let mut i: usize = 0;
        while i < self.options.len()
            invariant
                i <= self.options@.len(),
                r@ == body_bytes(self.body) + options_bytes(self.options_spec().subrange(0, i as int)),
            decreases self.options@.len() - i,
        {
            let o = &self.options[i];
            let ghost prefix = self.options_spec().subrange(0, i as int);
            if o.0 == END {
                r.push(END);
                r.push(0);
            } else {
                r.push(o.0);
                r.push(o.1);
                r.extend_from_slice(o.2.as_slice());
            }
            i = i + 1;
            proof {
                let next = self.options_spec().subrange(0, i as int);
                assert(next.drop_last() =~= prefix);
                assert(next.last() == o@);
                assert(r@ =~= body_bytes(self.body) + options_bytes(next));
            }
        }
        assert(self.options_spec().subrange(0, i as int) =~= self.options_spec());
        r
    }

    /// The value of the first option with code `id`.
    pub fn option(&self, id: u8) -> (r: Option<&[u8]>)
        ensures
            r matches Some(v) ==> find_option(self.options_spec(), id) == Some(v@),
            r is None ==> find_option(self.options_spec(), id) is None,
    {
        let mut i: usize = 0;
        assert(self.options_spec().subrange(0, self.options@.len() as int) =~= self.options_spec());
        while i < self.options.len()
            invariant
                i <= self.options@.len(),
                find_option(self.options_spec(), id) == find_option(
                    self.options_spec().subrange(i as int, self.options@.len() as int),
                    id,
                ),
            decreases self.options@.len() - i,
        {
            let ghost tail = self.options_spec().subrange(i as int, self.options@.len() as int);
            if self.options[i].0 == id {
                return Some(self.options[i].2.as_slice());
            }
            i = i + 1;
            assert(tail.drop_first() =~= self.options_spec().subrange(i as int, self.options@.len() as int));
        }
        None
    }
}

/// The octets of `b` from `start` on.
fn slice_from(b: &[u8], start: usize) -> (r: &[u8])
    requires
        start <= b@.len(),
    ensures
        r@ == b@.subrange(start as int, b@.len() as int),
{
    vstd::slice::slice_subrange(b, start, b.len())
}

/// Builds a datagram: a body and options appended in order.
pub struct DHCPDgramBuilder {
    dhcp: Option<DHCPBody>,
    options: Vec<DHCPOption>,
}

impl DHCPDgramBuilder {
    /// The body set so far.
    pub closed spec fn body_spec(&self) -> Option<DHCPBody> {
        self.dhcp
    }

    /// The options appended so far.
    pub closed spec fn options_spec(&self) -> Seq<OptionView> {
        options_view(self.options@)
    }

    /// Every option appended so far is well formed.
    pub open spec fn wf(&self) -> bool {
        options_wf(self.options_spec())
    }

    /// Appends an option whose value is `data`.
    pub fn option(self, code: u8, data: &[u8]) -> (r: Self)
        requires
            self.wf(),
            data@.len() <= 255,
        ensures
            r.wf(),
            r.body_spec() == self.body_spec(),
            r.options_spec() == self.options_spec().push((code, data@.len() as u8, data@)),
    {
        let mut s = self;
        let ghost before = s.options_spec();
        let value = to_vec(data);
        s.options.push(DHCPOption(code, data.len() as u8, value));
        proof {
            assert(s.options_spec() =~= before.push((code, data@.len() as u8, data@)));
            lemma_options_wf_push(before, (code, data@.len() as u8, data@));
        }
        s
    }

    /// Sets the body.
    pub fn body(self, dhcp: DHCPBody) -> (r: Self)
        ensures
            r.body_spec() == Some(dhcp),
            r.options_spec() == self.options_spec(),
    {
        let mut s = self;
        s.dhcp = Some(dhcp);
        s
    }

    /// Appends the end marker.
    pub fn end(self) -> (r: Self)
        requires
            self.wf(),
        ensures
            r.wf(),
            r.body_spec() == self.body_spec(),
            r.options_spec() == self.options_spec().push((END, 0u8, seq![])),
    {
        let mut s = self;
        let ghost before = s.options_spec();
        s.options.push(DHCPOption(END, 0, Vec::new()));
        proof {
            assert(s.options_spec() =~= before.push((END, 0u8, seq![])));
            lemma_options_wf_push(before, (END, 0u8, seq![]));
        }
        s
    }

    /// The datagram, when a body has been set.
    pub fn build(self) -> (r: Option<DHCPDgram>)
        ensures
            r.is_some() <==> self.body_spec().is_some(),
            r matches Some(d) ==> Some(d.body) == self.body_spec() && d.options_spec()
                == self.options_spec(),
    {
        match self.dhcp {
            Some(body) => Some(DHCPDgram { body, options: self.options }),
            None => None,
        }
    }
}

impl Default for DHCPDgramBuilder {
    /// No body and no options.
    fn default() -> (r: Self)
        ensures
            r.wf(),
            r.body_spec() is None,
            r.options_spec() == Seq::<OptionView>::empty(),
    {
        let r = DHCPDgramBuilder { dhcp: None, options: Vec::new() };
        assert(r.options_spec() =~= Seq::<OptionView>::empty());
        r
    }
}

} // verus!
