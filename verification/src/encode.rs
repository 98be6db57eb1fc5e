//! Percent-encoding of query components and decimal rendering of ports.
//!
//! The encoding keeps ASCII alphanumerics and `-`, `.`, `_`, `~` and
//! replaces every other byte by `%` and two upper-case hex digits, the
//! convention the proxy's query strings use throughout.

use vstd::prelude::*;

verus! {

/// Bytes that survive percent-encoding unchanged.
pub open spec fn is_unreserved(b: u8) -> bool {
    ||| 0x30 <= b <= 0x39  // 0-9
    ||| 0x41 <= b <= 0x5a  // A-Z
    ||| 0x61 <= b <= 0x7a  // a-z
    ||| b == 0x2d  // -
    ||| b == 0x2e  // .
    ||| b == 0x5f  // _
    ||| b == 0x7e  // ~

}

/// Upper-case hex digit for a value below 16.
pub open spec fn hex_digit(d: u8) -> u8
    recommends
        d < 16,
{
    if d < 10 {
        (0x30 + d) as u8
    } else {
        (0x37 + d) as u8
    }
}

/// The encoding of one byte: itself, or `%` plus two hex digits.
pub open spec fn pe_byte(b: u8) -> Seq<u8> {
    if is_unreserved(b) {
        seq![b]
    } else {
        seq![0x25u8, hex_digit(b / 16), hex_digit(b % 16)]
    }
}

/// Percent-encoding of a whole byte string.
pub open spec fn pe(s: Seq<u8>) -> Seq<u8>
    decreases s.len(),
{
    if s.len() == 0 {
        seq![]
    } else {
        pe_byte(s[0]) + pe(s.drop_first())
    }
}

pub proof fn lemma_pe_concat(a: Seq<u8>, b: Seq<u8>)
    ensures
        pe(a + b) == pe(a) + pe(b),
    decreases a.len(),
{
    if a.len() == 0 {
        assert(a + b =~= b);
        assert(pe(a) + pe(b) =~= pe(b));
    } else {
        lemma_pe_concat(a.drop_first(), b);
        assert((a + b).drop_first() =~= a.drop_first() + b);
        assert(pe_byte((a + b)[0]) + (pe(a.drop_first()) + pe(b)) =~= (pe_byte(a[0]) + pe(
            a.drop_first(),
        )) + pe(b));
    }
}

/// An encoded string consists of ASCII bytes only.
pub proof fn lemma_pe_ascii(s: Seq<u8>)
    ensures
        forall|i: int| 0 <= i < pe(s).len() ==> pe(s)[i] < 0x80,
    decreases s.len(),
{
    if s.len() > 0 {
        lemma_pe_ascii(s.drop_first());
        let head = pe_byte(s[0]);
        let tail = pe(s.drop_first());
        assert(forall|i: int| 0 <= i < head.len() ==> head[i] < 0x80);
        assert forall|i: int| 0 <= i < pe(s).len() implies pe(s)[i] < 0x80 by {
            if i < head.len() {
                assert(pe(s)[i] == head[i]);
            } else {
                assert(pe(s)[i] == tail[i - head.len()]);
            }
        }
    }
}

/// Appends the percent-encoding of `s` to `out`.
pub fn push_encoded(out: &mut Vec<u8>, s: &Vec<u8>)
    ensures
        final(out)@ == old(out)@ + pe(s@),
{
    let mut i: usize = 0;
    while i < s.len()
        invariant
            0 <= i <= s@.len(),
            out@ == old(out)@ + pe(s@.subrange(0, i as int)),
        decreases s.len() - i,
    {
        let b = s[i];
        if (0x30 <= b && b <= 0x39) || (0x41 <= b && b <= 0x5a) || (0x61 <= b && b <= 0x7a) || b
            == 0x2d || b == 0x2e || b == 0x5f || b == 0x7e {
            out.push(b);
        } else {
            out.push(0x25);
            let hi = b / 16;
            let lo = b % 16;
            out.push(if hi < 10 { 0x30 + hi } else { 0x37 + hi });
            out.push(if lo < 10 { 0x30 + lo } else { 0x37 + lo });
        }
        proof {
            let prefix = s@.subrange(0, i as int);
            let ext = s@.subrange(0, i + 1 as int);
            assert(ext =~= prefix + seq![s@[i as int]]);
            lemma_pe_concat(prefix, seq![s@[i as int]]);
            let single = seq![s@[i as int]];
            assert(single.drop_first() =~= Seq::<u8>::empty());
            assert(pe(Seq::<u8>::empty()) =~= Seq::<u8>::empty());
            assert(pe(single) =~= pe_byte(s@[i as int]));
            assert(out@ =~= old(out)@ + pe(ext));
        }
        i = i + 1;
    }
    assert(s@.subrange(0, s@.len() as int) =~= s@);
}

/// The decimal digits of `n`, most significant first.
pub open spec fn dec_bytes(n: nat) -> Seq<u8>
    decreases n,
{
    if n < 10 {
        seq![(0x30 + n) as u8]
    } else {
        dec_bytes(n / 10) + seq![(0x30 + n % 10) as u8]
    }
}

/// Decimal digits are ASCII digit bytes.
pub proof fn lemma_dec_bytes_ascii(n: nat)
    ensures
        forall|i: int|
            0 <= i < dec_bytes(n).len() ==> 0x30 <= #[trigger] dec_bytes(n)[i] <= 0x39,
    decreases n,
{
    if n >= 10 {
        lemma_dec_bytes_ascii(n / 10);
        assert forall|i: int| 0 <= i < dec_bytes(n).len() implies 0x30 <= #[trigger] dec_bytes(
            n,
        )[i] <= 0x39 by {
            if i < dec_bytes(n / 10).len() {
                assert(dec_bytes(n)[i] == dec_bytes(n / 10)[i]);
            }
        }
    }
}

/// Appends the decimal rendering of `n` to `out`.
pub fn push_dec_u16(out: &mut Vec<u8>, n: u16)
    ensures
        final(out)@ == old(out)@ + dec_bytes(n as nat),
    decreases n,
{
    if n < 10 {
        out.push(0x30 + (n as u8));
    } else {
        push_dec_u16(out, n / 10);
        out.push(0x30 + ((n % 10) as u8));
        assert(out@ =~= old(out)@ + (dec_bytes((n / 10) as nat) + seq![
            (0x30 + (n % 10) as nat) as u8,
        ]));
    }
}

} // verus!
