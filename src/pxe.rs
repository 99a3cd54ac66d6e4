//! The PXE vendor options carried as the value of DHCP option 43: a list of
//! sub-options, each code, length octet and value, closed by an end marker
//! that has no length octet.
use vstd::prelude::*;
use crate::wire::to_vec;
use vstd::string::StringSliceAdditionalSpecFns;

verus! {

/// Sub-option code of the discovery control bit field.
pub const DISCOVERY_CONTROL: u8 = 6;

/// Sub-option code of the multicast discovery address.
pub const MCAST_ADDR: u8 = 7;

/// Sub-option code of the boot server list.
pub const BOOT_SERVERS: u8 = 8;

/// Sub-option code of the boot menu.
pub const BOOT_MENU: u8 = 9;

/// Sub-option code of the menu prompt.
pub const MENU_PROMPT: u8 = 10;

/// Sub-option code of the end marker.
pub const PXE_END: u8 = 255;

/// One PXE sub-option.
pub struct PXEOption {
    pub code: u8,
    pub data: Vec<u8>,
}

impl PXEOption {
    /// The length octet of the sub-option.
    pub fn len(&self) -> (r: u8)
        requires
            self.data@.len() <= 255,
        ensures
            r == self.data@.len(),
    {
        self.data.len() as u8
    }
}

/// The octets of one sub-option: code, length octet and value, but for the
/// end marker, which has no length octet (and, as `end` appends it, no value).
pub open spec fn pxe_option_bytes(o: (u8, Seq<u8>)) -> Seq<u8> {
    if o.0 == PXE_END {
        seq![PXE_END] + o.1
    } else {
        seq![o.0, o.1.len() as u8] + o.1
    }
}

/// The octets of a list of sub-options, in order.
pub open spec fn pxe_bytes(os: Seq<(u8, Seq<u8>)>) -> Seq<u8>
    decreases os.len(),
{
    if os.len() == 0 {
        seq![]
    } else {
        pxe_bytes(os.drop_last()) + pxe_option_bytes(os.last())
    }
}

/// The discovery control octet: bits 1 and 2 always, bit 3 (take the boot
/// file without menu or discovery) unless `discover`.
pub open spec fn discovery_control(discover: bool) -> u8 {
    if discover {
        0x06
    } else {
        0x0e
    }
}

/// The boot menu value: for each entry the server type 8, 0, the length of
/// the description and the description.
pub open spec fn menu_bytes(items: Seq<Seq<u8>>) -> Seq<u8>
    decreases items.len(),
{
    if items.len() == 0 {
        seq![]
    } else {
        menu_bytes(items.drop_last()) + seq![8u8, 0u8, items.last().len() as u8] + items.last()
    }
}

/// The four octets of each address, in order.
pub open spec fn address_bytes(ips: Seq<[u8; 4]>) -> Seq<u8>
    decreases ips.len(),
{
    if ips.len() == 0 {
        seq![]
    } else {
        address_bytes(ips.drop_last()) + ips.last()@
    }
}

/// The boot server list value: type 0 in two octets, the count, the addresses.
pub open spec fn servers_bytes(ips: Seq<[u8; 4]>) -> Seq<u8> {
    seq![0u8, 0u8, ips.len() as u8] + address_bytes(ips)
}

/// The octets of each string.
pub open spec fn strs_bytes(items: Seq<&str>) -> Seq<Seq<u8>> {
    items.map_values(|s: &str| s.spec_bytes())
}

proof fn lemma_address_bytes_len(ips: Seq<[u8; 4]>)
    ensures
        address_bytes(ips).len() == 4 * ips.len(),
    decreases ips.len(),
{
    if ips.len() > 0 {
        lemma_address_bytes_len(ips.drop_last());
    }
}

/// Builds the PXE vendor options, one sub-option after another.
pub struct PXEBuilder {
    options: Vec<PXEOption>,
}

impl PXEBuilder {
    /// The sub-options appended so far, as code and value.
    pub closed spec fn view(&self) -> Seq<(u8, Seq<u8>)> {
        self.options@.map_values(|o: PXEOption| (o.code, o.data@))
    }

    /// Every value appended so far fits a length octet.
    pub open spec fn wf(&self) -> bool {
        forall|i: int| 0 <= i < self.view().len() ==> #[trigger] self.view()[i].1.len() <= 255
    }

    /// Appends a sub-option with code `tag` and value `data`.
    pub fn option(self, tag: u8, data: &[u8]) -> (r: Self)
        requires
            self.wf(),
            data@.len() <= 255,
        ensures
            r.wf(),
            r.view() == self.view().push((tag, data@)),
    {
        let mut s = self;
        let ghost before = s.view();
        let option = PXEOption { code: tag, data: to_vec(data) };
        s.options.push(option);
        proof {
            assert(s.view() =~= before.push((tag, data@)));
            assert forall|i: int| 0 <= i < s.view().len() implies #[trigger] s.view()[i].1.len()
                <= 255 by {
                if i < before.len() {
                    assert(s.view()[i] == before[i]);
                }
            }
        }
        s
    }

    /// Appends the discovery control sub-option.
    pub fn start(self, discover: bool) -> (r: Self)
        requires
            self.wf(),
        ensures
            r.wf(),
            r.view() == self.view().push((DISCOVERY_CONTROL, seq![discovery_control(discover)])),
    {
        let mut byte: u8 = 0b00000110;
        if !discover {
            byte = byte | (1u8 << 3u8);
        }
        assert((0b00000110u8 | (1u8 << 3u8)) == 0x0e) by (bit_vector);
        let v = [byte];
        assert(v@ =~= seq![discovery_control(discover)]);
        self.option(DISCOVERY_CONTROL, v.as_slice())
    }

    /// Appends the end marker.
    pub fn end(self) -> (r: Self)
        requires
            self.wf(),
        ensures
            r.wf(),
            r.view() == self.view().push((PXE_END, Seq::<u8>::empty())),
    {
        let v: Vec<u8> = Vec::new();
        self.option(PXE_END, v.as_slice())
    }

    /// Appends the menu prompt: the timeout octet, then the text.
    pub fn menu_prompt(self, timeout: u8, text: &str) -> (r: Self)
        requires
            self.wf(),
            1 + text.spec_bytes().len() <= 255,
        ensures
            r.wf(),
            r.view() == self.view().push((MENU_PROMPT, seq![timeout] + text.spec_bytes())),
    {
        let mut v: Vec<u8> = Vec::new();
        v.push(timeout);
        v.extend_from_slice(text.as_bytes());
        assert(v@ =~= seq![timeout] + text.spec_bytes());
        self.option(MENU_PROMPT, v.as_slice())
    }

    /// Appends the boot menu, one entry per description.
    pub fn menu_items(self, items: Vec<&str>) -> (r: Self)
        requires
            self.wf(),
            forall|i: int| 0 <= i < items@.len() ==> #[trigger] items@[i].spec_bytes().len() <= 255,
            menu_bytes(strs_bytes(items@)).len() <= 255,
        ensures
            r.wf(),
            r.view() == self.view().push((BOOT_MENU, menu_bytes(strs_bytes(items@)))),
    {
        let mut v: Vec<u8> = Vec::new();
        let mut i: usize = 0;
        while i < items.len()
            invariant
                i <= items@.len(),
                forall|k: int| 0 <= k < items@.len() ==> #[trigger] items@[k].spec_bytes().len() <= 255,
                v@ == menu_bytes(strs_bytes(items@.subrange(0, i as int))),
            decreases items@.len() - i,
        {
            let item: &str = items[i];
            let b = item.as_bytes();
            v.push(8);
            v.push(0);
            v.push(b.len() as u8);
            v.extend_from_slice(b);
            i = i + 1;
            proof {
                let next = strs_bytes(items@.subrange(0, i as int));
                assert(next.drop_last() =~= strs_bytes(items@.subrange(0, i - 1)));
                assert(next.last() == item.spec_bytes());
                assert(v@ =~= menu_bytes(next));
            }
        }
        assert(items@.subrange(0, i as int) =~= items@);
        self.option(BOOT_MENU, v.as_slice())
    }

    /// Appends the boot server list.
    pub fn boot_servers(self, ips: Vec<[u8; 4]>) -> (r: Self)
        requires
            self.wf(),
            3 + 4 * ips@.len() <= 255,
        ensures
            r.wf(),
            r.view() == self.view().push((BOOT_SERVERS, servers_bytes(ips@))),
    {
        let mut v: Vec<u8> = Vec::new();
        v.push(0);
        v.push(0);
        v.push(ips.len() as u8);
        let mut i: usize = 0;
        while i < ips.len()
            invariant
                i <= ips@.len(),
                3 + 4 * ips@.len() <= 255,
                v@ == seq![0u8, 0u8, ips@.len() as u8] + address_bytes(ips@.subrange(0, i as int)),
            decreases ips@.len() - i,
        {
            v.extend_from_slice(ips[i].as_slice());
            i = i + 1;
            proof {
                let next = ips@.subrange(0, i as int);
                assert(next.drop_last() =~= ips@.subrange(0, i - 1));
                assert(v@ =~= seq![0u8, 0u8, ips@.len() as u8] + address_bytes(next));
            }
        }
        assert(ips@.subrange(0, i as int) =~= ips@);
        proof {
            lemma_address_bytes_len(ips@);
        }
        self.option(BOOT_SERVERS, v.as_slice())
    }

    /// Appends the multicast discovery address.
    pub fn mcast(self, addr: [u8; 4]) -> (r: Self)
        requires
            self.wf(),
        ensures
            r.wf(),
            r.view() == self.view().push((MCAST_ADDR, addr@)),
    {
        self.option(MCAST_ADDR, addr.as_slice())
    }

    /// The octets of the sub-options, in order.
    pub fn build(self) -> (r: Vec<u8>)
        requires
            self.wf(),
        ensures
            r@ == pxe_bytes(self.view()),
    {
        let mut r: Vec<u8> = Vec::new();
        let mut i: usize = 0;
        while i < self.options.len()
            invariant
                i <= self.options@.len(),
                self.wf(),
                r@ == pxe_bytes(self.view().subrange(0, i as int)),
            decreases self.options@.len() - i,
        {
            let o = &self.options[i];
            assert(self.view()[i as int].1.len() <= 255);
            r.push(o.code);
            if o.code != PXE_END {
                r.push(o.len());
            }
            r.extend_from_slice(o.data.as_slice());
            i = i + 1;
            proof {
                let next = self.view().subrange(0, i as int);
                assert(next.drop_last() =~= self.view().subrange(0, i - 1));
                assert(next.last() == (o.code, o.data@));
                assert(r@ =~= pxe_bytes(next));
            }
        }
        assert(self.view().subrange(0, i as int) =~= self.view());
        r
    }
}

impl Default for PXEBuilder {
    /// No sub-options.
    fn default() -> (r: Self)
        ensures
            r.wf(),
            r.view() == Seq::<(u8, Seq<u8>)>::empty(),
    {
        let r = PXEBuilder { options: Vec::new() };
        assert(r.view() =~= Seq::<(u8, Seq<u8>)>::empty());
        r
    }
}

/// Sub-options read back from their octets: the end marker is one octet,
/// any other code is followed by a length octet and that many octets of
/// value. A truncated sub-option ends the list and is dropped.
pub open spec fn parse_pxe(s: Seq<u8>) -> Seq<(u8, Seq<u8>)>
    decreases s.len(),
{
    if s.len() == 0 {
        seq![]
    } else if s[0] == PXE_END {
        seq![(PXE_END, Seq::<u8>::empty())] + parse_pxe(s.drop_first())
    } else if s.len() < 2 || s.len() < s[1] + 2 {
        seq![]
    } else {
        seq![(s[0], s.subrange(2, s[1] + 2))] + parse_pxe(s.subrange(s[1] + 2, s.len() as int))
    }
}

proof fn lemma_pxe_bytes_cons(os: Seq<(u8, Seq<u8>)>)
    requires
        os.len() > 0,
    ensures
        pxe_bytes(os) == pxe_option_bytes(os[0]) + pxe_bytes(os.drop_first()),
    decreases os.len(),
{
    if os.len() == 1 {
        assert(os.drop_last() =~= seq![]);
        assert(os.drop_first() =~= seq![]);
        assert(pxe_bytes(os) =~= pxe_option_bytes(os[0]) + pxe_bytes(os.drop_first()));
    } else {
        lemma_pxe_bytes_cons(os.drop_last());
        assert(os.drop_last().drop_first() =~= os.drop_first().drop_last());
        assert(pxe_bytes(os) =~= pxe_option_bytes(os[0]) + pxe_bytes(os.drop_first()));
    }
}

/// Every value fits a length octet and every end marker has no value.
pub open spec fn pxe_emittable(os: Seq<(u8, Seq<u8>)>) -> bool {
    forall|i: int|
        0 <= i < os.len() ==> #[trigger] os[i].1.len() <= 255 && (os[i].0 == PXE_END ==> os[i].1.len()
            == 0)
}

proof fn lemma_parse_pxe_bytes(os: Seq<(u8, Seq<u8>)>)
    requires
        pxe_emittable(os),
    ensures
        parse_pxe(pxe_bytes(os)) == os,
    decreases os.len(),
{
    if os.len() == 0 {
        assert(parse_pxe(pxe_bytes(os)) =~= os);
    } else {
        let rest = os.drop_first();
        assert(pxe_emittable(rest)) by {
            assert forall|i: int| 0 <= i < rest.len() implies #[trigger] rest[i].1.len() <= 255 && (
            rest[i].0 == PXE_END ==> rest[i].1.len() == 0) by {
                assert(rest[i] == os[i + 1]);
            }
        }
        lemma_pxe_bytes_cons(os);
        lemma_parse_pxe_bytes(rest);
        let s = pxe_bytes(os);
        let o = os[0];
        assert(o.1.len() <= 255);
        if o.0 == PXE_END {
            assert(o.1 =~= Seq::<u8>::empty());
            assert(s.drop_first() =~= pxe_bytes(rest));
            assert(parse_pxe(s) =~= os);
        } else {
            let l = o.1.len() as int;
            assert(s.subrange(2, l + 2) =~= o.1);
            assert(s.subrange(l + 2, s.len() as int) =~= pxe_bytes(rest));
            assert(parse_pxe(s) =~= os);
        }
    }
}

/// The octets that `build` gives read back as the sub-options appended, in
/// order, and use up every octet: each length octet equals the number of
/// value octets after it, and the end marker is a single octet. This holds
/// for every builder made by `default` and the appending methods, whose end
/// marker has no value.
pub proof fn law_pxe_lengths(b: PXEBuilder)
    requires
        b.wf(),
        forall|i: int| 0 <= i < b.view().len() && (#[trigger] b.view()[i]).0 == PXE_END ==> b.view()[i].1.len() == 0,
    ensures
        parse_pxe(pxe_bytes(b.view())) == b.view(),
        forall|i: int|
            0 <= i < b.view().len() && b.view()[i].0 != PXE_END ==> (#[trigger] pxe_option_bytes(b.view()[i]))[1]
                == b.view()[i].1.len(),
{
    let os = b.view();
    assert(pxe_emittable(os)) by {
        assert forall|i: int| 0 <= i < os.len() implies #[trigger] os[i].1.len() <= 255 && (os[i].0
            == PXE_END ==> os[i].1.len() == 0) by {
            assert(b.view()[i].1.len() <= 255);
        }
    }
    lemma_parse_pxe_bytes(os);
    assert forall|i: int| 0 <= i < os.len() && os[i].0 != PXE_END implies (#[trigger] pxe_option_bytes(os[i]))[1]
        == os[i].1.len() by {
        assert(os[i].1.len() <= 255);
    }
}

} // verus!
