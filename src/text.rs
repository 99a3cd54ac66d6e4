//! Decimal numbers and NUL-separated strings as TFTP writes them.
use vstd::prelude::*;

verus! {

/// The ASCII decimal digits of `n`, most significant first, with no leading zeros.
pub open spec fn decimal(n: nat) -> Seq<u8>
    decreases n,
{
    if n < 10 {
        seq![(48 + n) as u8]
    } else {
        decimal(n / 10) + seq![(48 + n % 10) as u8]
    }
}

/// Appends the decimal digits of `n` to `out`.
pub fn push_decimal(out: &mut Vec<u8>, n: u64)
    ensures
        final(out)@ == old(out)@ + decimal(n as nat),
    decreases n,
{
    if n >= 10 {
        push_decimal(out, n / 10);
    }
    out.push((48 + n % 10) as u8);
    assert(final(out)@ =~= old(out)@ + decimal(n as nat));
}

/// `b` is an ASCII decimal digit.
pub open spec fn is_digit(b: u8) -> bool {
    48 <= b <= 57
}

/// The value of a string of decimal digits.
pub open spec fn digits_value(s: Seq<u8>) -> nat
    decreases s.len(),
{
    if s.len() == 0 {
        0
    } else {
        digits_value(s.drop_last()) * 10 + (s.last() - 48) as nat
    }
}

/// The digits of a number as `u16::from_str` reads them: after an optional
/// `+`, at least one digit and nothing else.
pub open spec fn unsigned_digits(s: Seq<u8>) -> Seq<u8> {
    if s.len() > 0 && s[0] == 0x2b {
        s.drop_first()
    } else {
        s
    }
}

/// The `u16` that a string spells in decimal, if it spells one that fits.
pub open spec fn parse_u16_spec(s: Seq<u8>) -> Option<u16> {
    let d = unsigned_digits(s);
    if d.len() > 0 && (forall|i: int| 0 <= i < d.len() ==> #[trigger] is_digit(d[i]))
        && digits_value(d) <= 65535 {
        Some(digits_value(d) as u16)
    } else {
        None
    }
}

proof fn lemma_capped_step(v: nat, d: nat)
    requires
        d < 10,
    ensures
        (if v * 10 + d < 65536 { v * 10 + d } else { 65536 }) == (if (if v < 65536 { v } else {
            65536
        }) * 10 + d < 65536 {
            (if v < 65536 { v } else { 65536 }) * 10 + d
        } else {
            65536
        }),
{
    if v >= 65536 {
        assert(v * 10 + d >= 65536) by (nonlinear_arith)
            requires
                v >= 65536,
        ;
    }
}

/// Reads a decimal `u16`: an optional `+` then digits only, at most 65535.
pub fn parse_u16(s: &[u8]) -> (r: Option<u16>)
    ensures
        r == parse_u16_spec(s@),
{
    let mut start: usize = 0;
    if s.len() > 0 && s[0] == 0x2b {
        start = 1;
    }
    let ghost d = unsigned_digits(s@);
    assert(d =~= s@.subrange(start as int, s@.len() as int));
    if start >= s.len() {
        return None;
    }
    let mut value: u32 = 0;
    let mut i: usize = start;
    while i < s.len()
        invariant
            start <= i <= s@.len(),
            d == s@.subrange(start as int, s@.len() as int),
            d == unsigned_digits(s@),
            forall|k: int| start <= k < i ==> #[trigger] is_digit(s@[k]),
            value == (if digits_value(s@.subrange(start as int, i as int)) < 65536 {
                digits_value(s@.subrange(start as int, i as int))
            } else {
                65536
            }),
        decreases s@.len() - i,
    {
        let c = s[i];
        if c < 48 || c > 57 {
            proof {
                let k = i - start;
                assert(d[k] == s@[i as int]);
                assert(!is_digit(d[k]));
                assert(!(forall|j: int| 0 <= j < d.len() ==> #[trigger] is_digit(d[j])));
            }
            return None;
        }
        let ghost prefix = s@.subrange(start as int, i as int);
        let next: u32 = value * 10 + (c - 48) as u32;
        value = if next < 65536 { next } else { 65536 };
        i = i + 1;
        proof {
            let grown = s@.subrange(start as int, i as int);
            assert(grown.drop_last() =~= prefix);
            lemma_capped_step(digits_value(prefix), (c - 48) as nat);
        }
    }
    assert(s@.subrange(start as int, i as int) =~= d);
    if value > 65535 {
        None
    } else {
        Some(value as u16)
    }
}

/// The pieces of `s` between NULs: one more than there are NULs, some empty.
pub open spec fn split_nul(s: Seq<u8>) -> Seq<Seq<u8>>
    decreases s.len(),
{
    if s.len() == 0 {
        seq![Seq::<u8>::empty()]
    } else {
        let p = split_nul(s.drop_last());
        if s.last() == 0 {
            p.push(Seq::<u8>::empty())
        } else {
            p.update(p.len() - 1, p.last().push(s.last()))
        }
    }
}

/// The pieces of a vector of vectors, as values.
pub open spec fn pieces_view(v: Seq<Vec<u8>>) -> Seq<Seq<u8>> {
    v.map_values(|c: Vec<u8>| c@)
}

/// Splits `s` at each NUL.
pub fn split_at_nul(s: &[u8]) -> (r: Vec<Vec<u8>>)
    ensures
        pieces_view(r@) == split_nul(s@),
{
    let mut pieces: Vec<Vec<u8>> = Vec::new();
    let mut current: Vec<u8> = Vec::new();
    let mut i: usize = 0;
    assert(s@.subrange(0, 0) =~= Seq::<u8>::empty());
    assert(pieces_view(pieces@).push(current@) =~= split_nul(s@.subrange(0, 0)));
    while i < s.len()
        invariant
            i <= s@.len(),
            pieces_view(pieces@).push(current@) == split_nul(s@.subrange(0, i as int)),
        decreases s@.len() - i,
    {
        let ghost before = pieces_view(pieces@).push(current@);
        let c = s[i];
        i = i + 1;
        let ghost prefix = s@.subrange(0, i as int);
        assert(prefix.drop_last() =~= s@.subrange(0, i - 1));
        if c == 0 {
            pieces.push(current);
            current = Vec::new();
            assert(pieces_view(pieces@).push(current@) =~= before.push(Seq::<u8>::empty()));
        } else {
            current.push(c);
            assert(pieces_view(pieces@).push(current@) =~= before.update(
                before.len() - 1,
                before.last().push(c),
            ));
        }
    }
    pieces.push(current);
    assert(s@.subrange(0, i as int) =~= s@);
    pieces
}

} // verus!
