//! Round-trip laws of the DHCP datagram codec.
use vstd::prelude::*;
use crate::dhcp::{
    dgram_bytes, parsed_as,
    body_bytes, options_bytes, option_bytes, options_extent, options_frame, options_unpadded,
    options_wf, option_wf, parse_options, swapped, DHCPBody, DHCPDgram, OptionView, BODY_LEN, END,
    PAD,
};
use crate::wire::{be16, be32, lemma_be16_injective, lemma_be32_injective, lemma_reverse16_involutive, lemma_reverse32_involutive};

verus! {

/// Reading options without pads met an end marker.
pub open spec fn stops_at_end(s: Seq<u8>) -> bool
    decreases s.len(),
{
    if s.len() == 0 {
        false
    } else if s[0] == END {
        true
    } else if s.len() < 2 || s.len() < s[1] + 2 {
        false
    } else {
        stops_at_end(s.subrange(s[1] + 2, s.len() as int))
    }
}

proof fn lemma_options_bytes_cons(os: Seq<OptionView>)
    requires
        os.len() > 0,
    ensures
        options_bytes(os) == option_bytes(os[0]) + options_bytes(os.drop_first()),
    decreases os.len(),
{
    if os.len() == 1 {
        assert(os.drop_last() =~= seq![]);
        assert(os.drop_first() =~= seq![]);
        assert(options_bytes(os) =~= option_bytes(os[0]) + options_bytes(os.drop_first()));
    } else {
        lemma_options_bytes_cons(os.drop_last());
        assert(os.drop_last().drop_first() =~= os.drop_first().drop_last());
        assert(options_bytes(os) =~= option_bytes(os[0]) + options_bytes(os.drop_first()));
    }
}

proof fn lemma_parse_options_bytes(os: Seq<OptionView>)
    requires
        options_frame(os),
    ensures
        parse_options(options_bytes(os)) == expand_pads(os),
    decreases os.len(),
{
    if os.len() == 0 {
        assert(parse_options(options_bytes(os)) =~= expand_pads(os));
    } else {
        let rest = os.drop_first();
        assert(options_frame(rest)) by {
            assert forall|i: int| 0 <= i < rest.len() implies #[trigger] option_wf(rest[i]) by {
                assert(option_wf(os[i + 1]));
            }
            assert forall|i: int| 0 <= i < rest.len() && (rest[i].0 == PAD || rest[i].0 == END)
                implies #[trigger] rest[i].1 == 0 && rest[i].2.len() == 0 by {
                assert(os[i + 1] == rest[i]);
            }
            assert forall|i: int| 0 <= i < rest.len() - 1 implies #[trigger] rest[i].0 != END by {
                assert(os[i + 1] == rest[i]);
            }
        }
        lemma_options_bytes_cons(os);
        lemma_parse_options_bytes(rest);
        let s = options_bytes(os);
        let o = os[0];
        assert(option_wf(o));
        if o.0 == PAD {
            assert(o.2 =~= seq![]);
            assert(s.drop_first().drop_first() =~= options_bytes(rest));
            assert(parse_options(s.drop_first()) =~= seq![(PAD, 0u8, Seq::<u8>::empty())] + expand_pads(rest));
            assert(parse_options(s) =~= expand_pads(os));
        } else if o.0 == END {
            assert(o.2 =~= seq![]);
            assert(rest.len() == 0);
            assert(expand_pads(rest) =~= seq![]);
            assert(parse_options(s) =~= expand_pads(os));
        } else {
            let l = o.1;
            assert(s.subrange(2, l + 2) =~= o.2);
            assert(s.subrange(l + 2, s.len() as int) =~= options_bytes(rest));
            assert(parse_options(s) =~= expand_pads(os));
        }
    }
}

/// Every list of options that parsing yields is one a frame can carry.
pub proof fn lemma_parse_options_frame(s: Seq<u8>)
    ensures
        options_frame(parse_options(s)),
    decreases s.len(),
{
    let os = parse_options(s);
    if s.len() == 0 {
    } else if s[0] == PAD {
        lemma_parse_options_frame(s.drop_first());
        let rest = parse_options(s.drop_first());
        assert forall|i: int| 0 <= i < os.len() implies #[trigger] option_wf(os[i]) by {
            if i > 0 {
                assert(os[i] == rest[i - 1]);
            }
        }
        assert forall|i: int| 0 <= i < os.len() && (os[i].0 == PAD || os[i].0 == END) implies
            #[trigger] os[i].1 == 0 && os[i].2.len() == 0 by {
            if i > 0 {
                assert(os[i] == rest[i - 1]);
            }
        }
        assert forall|i: int| 0 <= i < os.len() - 1 implies #[trigger] os[i].0 != END by {
            if i > 0 {
                assert(os[i] == rest[i - 1]);
            }
        }
    } else if s[0] == END {
    } else if s.len() < 2 || s.len() < s[1] + 2 {
    } else {
        let tail = s.subrange(s[1] + 2, s.len() as int);
        lemma_parse_options_frame(tail);
        let rest = parse_options(tail);
        assert forall|i: int| 0 <= i < os.len() implies #[trigger] option_wf(os[i]) by {
            if i > 0 {
                assert(os[i] == rest[i - 1]);
            }
        }
        assert forall|i: int| 0 <= i < os.len() && (os[i].0 == PAD || os[i].0 == END) implies
            #[trigger] os[i].1 == 0 && os[i].2.len() == 0 by {
            if i > 0 {
                assert(os[i] == rest[i - 1]);
            }
        }
        assert forall|i: int| 0 <= i < os.len() - 1 implies #[trigger] os[i].0 != END by {
            if i > 0 {
                assert(os[i] == rest[i - 1]);
            }
        }
    }
}

proof fn lemma_serialize_parsed(s: Seq<u8>)
    requires
        options_unpadded(s),
    ensures
        0 <= options_extent(s) <= s.len(),
        options_bytes(parse_options(s)) == if stops_at_end(s) {
            s.subrange(0, options_extent(s)).push(0u8)
        } else {
            s.subrange(0, options_extent(s))
        },
        !stops_at_end(s) ==> options_extent(s) == s.len(),
        stops_at_end(s) ==> 1 <= options_extent(s),
        stops_at_end(s) ==> s[options_extent(s) - 1] == END,
    decreases s.len(),
{
    let os = parse_options(s);
    if s.len() == 0 {
        assert(options_bytes(os) =~= s.subrange(0, 0));
    } else if s[0] == END {
        lemma_options_bytes_cons(os);
        assert(os.drop_first() =~= seq![]);
        assert(options_bytes(os) =~= s.subrange(0, options_extent(s)).push(0u8));
    } else {
        let l = s[1];
        let t = s.subrange(l + 2, s.len() as int);
        lemma_serialize_parsed(t);
        lemma_options_bytes_cons(os);
        assert(os.drop_first() == parse_options(t));
        assert(option_bytes(os[0]) =~= s.subrange(0, l + 2));
        if stops_at_end(t) {
            assert(s[options_extent(s) - 1] == t[options_extent(t) - 1]);
            assert(options_bytes(os) =~= s.subrange(0, options_extent(s)).push(0u8));
        } else {
            assert(options_bytes(os) =~= s.subrange(0, options_extent(s)));
        }
    }
}

#[verifier::rlimit(50)]
proof fn lemma_body_regions(a: DHCPBody)
    ensures
        body_bytes(a).len() == BODY_LEN,
        body_bytes(a)[0] == a.op,
        body_bytes(a)[1] == a.htype,
        body_bytes(a)[2] == a.hlen,
        body_bytes(a)[3] == a.hops,
        body_bytes(a).subrange(4, 8) == be32(a.xid),
        body_bytes(a).subrange(8, 10) == be16(a.secs),
        body_bytes(a).subrange(10, 12) == be16(a.flags),
        body_bytes(a).subrange(12, 16) == a.ciaddr@,
        body_bytes(a).subrange(16, 20) == a.yiaddr@,
        body_bytes(a).subrange(20, 24) == a.siaddr@,
        body_bytes(a).subrange(24, 28) == a.giaddr@,
        body_bytes(a).subrange(28, 44) == a.chaddr@,
        body_bytes(a).subrange(44, 108) == a.sname@,
        body_bytes(a).subrange(108, 236) == a.filename@,
        body_bytes(a).subrange(236, 240) == be32(a.mcookie),
{
    let x = body_bytes(a);
    assert(x.subrange(4, 8) =~= be32(a.xid));
    assert(x.subrange(8, 10) =~= be16(a.secs));
    assert(x.subrange(10, 12) =~= be16(a.flags));
    assert(x.subrange(12, 16) =~= a.ciaddr@);
    assert(x.subrange(16, 20) =~= a.yiaddr@);
    assert(x.subrange(20, 24) =~= a.siaddr@);
    assert(x.subrange(24, 28) =~= a.giaddr@);
    assert(x.subrange(28, 44) =~= a.chaddr@);
    assert(x.subrange(44, 108) =~= a.sname@);
    assert(x.subrange(108, 236) =~= a.filename@);
    assert(x.subrange(236, 240) =~= be32(a.mcookie));
}

/// Two bodies with the same octets are the same body.
pub proof fn lemma_body_bytes_injective(a: DHCPBody, b: DHCPBody)
    requires
        body_bytes(a) == body_bytes(b),
    ensures
        a == b,
{
    lemma_body_regions(a);
    lemma_body_regions(b);
    let x = body_bytes(a);
    let y = body_bytes(b);
    assert(x.subrange(4, 8) == y.subrange(4, 8));
    lemma_be32_injective(a.xid, b.xid);
    assert(x.subrange(8, 10) == y.subrange(8, 10));
    lemma_be16_injective(a.secs, b.secs);
    assert(x.subrange(10, 12) == y.subrange(10, 12));
    lemma_be16_injective(a.flags, b.flags);
    assert(x.subrange(236, 240) == y.subrange(236, 240));
    lemma_be32_injective(a.mcookie, b.mcookie);
    assert(x.subrange(12, 16) == y.subrange(12, 16));
    assert(x.subrange(16, 20) == y.subrange(16, 20));
    assert(x.subrange(20, 24) == y.subrange(20, 24));
    assert(x.subrange(24, 28) == y.subrange(24, 28));
    assert(x.subrange(28, 44) == y.subrange(28, 44));
    assert(x.subrange(44, 108) == y.subrange(44, 108));
    assert(x.subrange(108, 236) == y.subrange(108, 236));
    assert(a.ciaddr =~= b.ciaddr);
    assert(a.yiaddr =~= b.yiaddr);
    assert(a.siaddr =~= b.siaddr);
    assert(a.giaddr =~= b.giaddr);
    assert(a.chaddr =~= b.chaddr);
    assert(a.sname =~= b.sname);
    assert(a.filename =~= b.filename);
}

/// The options with each pad written twice: a pad goes on the wire as code
/// and zero length, two octets that each read back as a pad.
pub open spec fn expand_pads(os: Seq<OptionView>) -> Seq<OptionView>
    decreases os.len(),
{
    if os.len() == 0 {
        seq![]
    } else if os[0].0 == PAD {
        seq![os[0], os[0]] + expand_pads(os.drop_first())
    } else {
        seq![os[0]] + expand_pads(os.drop_first())
    }
}

proof fn lemma_expand_no_pads(os: Seq<OptionView>)
    requires
        forall|i: int| 0 <= i < os.len() ==> #[trigger] os[i].0 != PAD,
    ensures
        expand_pads(os) == os,
    decreases os.len(),
{
    if os.len() > 0 {
        let rest = os.drop_first();
        assert forall|i: int| 0 <= i < rest.len() implies #[trigger] rest[i].0 != PAD by {
            assert(rest[i] == os[i + 1]);
        }
        lemma_expand_no_pads(rest);
        assert(expand_pads(os) =~= os);
    }
}

/// Parsing the octets of a datagram whose options a frame can carry gives
/// back that datagram up to padding: the same body, and the same options in
/// the same order except that each pad comes back twice. Without pads it is
/// the same datagram.
pub proof fn law_parse_after_serialize(d: DHCPDgram, p: DHCPDgram)
    requires
        options_frame(d.options_spec()),
        parsed_as(dgram_bytes(d), p),
    ensures
        p.body == d.body,
        p.options_spec() == expand_pads(d.options_spec()),
        (forall|i: int| 0 <= i < d.options_spec().len() ==> #[trigger] d.options_spec()[i].0 != PAD)
            ==> p.options_spec() == d.options_spec(),
{
    if forall|i: int| 0 <= i < d.options_spec().len() ==> #[trigger] d.options_spec()[i].0 != PAD {
        lemma_expand_no_pads(d.options_spec());
    }
    let b = dgram_bytes(d);
    assert(b.subrange(0, BODY_LEN as int) =~= body_bytes(d.body));
    assert(b.subrange(BODY_LEN as int, b.len() as int) =~= options_bytes(d.options_spec()));
    lemma_body_bytes_injective(p.body, d.body);
    lemma_parse_options_bytes(d.options_spec());
}

/// The octets of every datagram are at least as long as the body, so
/// parsing them succeeds.
pub proof fn lemma_dgram_bytes_len(d: DHCPDgram)
    ensures
        dgram_bytes(d).len() >= BODY_LEN,
{
}

/// Parsing octets whose options are whole and hold no pad, and serializing
/// the result, gives the same octets up to the end of the options, the end
/// marker included; an end
/// marker is written back with a zero length octet, and what followed it on
/// the wire is dropped.
pub proof fn law_serialize_after_parse(b: Seq<u8>, p: DHCPDgram)
    requires
        parsed_as(b, p),
        options_unpadded(b.subrange(BODY_LEN as int, b.len() as int)),
    ensures
        ({
            let s = b.subrange(BODY_LEN as int, b.len() as int);
            let k = BODY_LEN + options_extent(s);
            &&& k <= b.len()
            &&& dgram_bytes(p) == if stops_at_end(s) {
                b.subrange(0, k).push(0u8)
            } else {
                b.subrange(0, k)
            }
            &&& !stops_at_end(s) ==> k == b.len()
            &&& stops_at_end(s) ==> b[k - 1] == END
        }),
{
    let s = b.subrange(BODY_LEN as int, b.len() as int);
    lemma_serialize_parsed(s);
    let k = BODY_LEN + options_extent(s);
    if stops_at_end(s) {
        assert(b[k - 1] == s[options_extent(s) - 1]);
        assert(dgram_bytes(p) =~= b.subrange(0, k).push(0u8));
    } else {
        assert(dgram_bytes(p) =~= b.subrange(0, k));
    }
}

/// Swapping the byte order twice gives the datagram back: `once` is what
/// `swap_endianess` gives for `d`, and `twice` what it gives for `once`.
pub proof fn law_swap_involutive(d: DHCPDgram, once: DHCPDgram, twice: DHCPDgram)
    requires
        once.body == swapped(d.body),
        once.options_spec() == d.options_spec(),
        twice.body == swapped(once.body),
        twice.options_spec() == once.options_spec(),
    ensures
        twice.body == d.body,
        twice.options_spec() == d.options_spec(),
{
    lemma_reverse32_involutive(d.body.xid);
    lemma_reverse32_involutive(d.body.mcookie);
    lemma_reverse16_involutive(d.body.secs);
    lemma_reverse16_involutive(d.body.flags);
}

/// Every option that a datagram from `from_bytes` or the builder carries is
/// written with a length octet equal to the number of value octets that
/// follow it, pads and the end marker aside.
pub proof fn law_emitted_lengths(d: DHCPDgram)
    requires
        options_wf(d.options_spec()),
    ensures
        forall|i: int|
            0 <= i < d.options_spec().len() && d.options_spec()[i].0 != PAD && d.options_spec()[i].0 != END
                ==> (#[trigger] option_bytes(d.options_spec()[i]))[1] == option_bytes(d.options_spec()[i]).len() - 2,
{
    assert forall|i: int|
        0 <= i < d.options_spec().len() && d.options_spec()[i].0 != PAD && d.options_spec()[i].0 != END
            implies (#[trigger] option_bytes(d.options_spec()[i]))[1] == option_bytes(d.options_spec()[i]).len() - 2 by {
        assert(option_wf(d.options_spec()[i]));
    }
}

} // verus!
