//! Bridging between byte strings and `String`.
//!
//! The library computes on UTF-8 bytes; these lemmas relate such byte
//! strings to the character sequences a caller sees, and the one trusted
//! item here turns verified-valid bytes back into a `String`.

use vstd::prelude::*;
use vstd::utf8::{
    codepoint_width_2, codepoint_width_3, codepoint_width_4, decode_utf8, encode_utf8,
    is_leading_byte_width_1, is_leading_byte_width_2, is_leading_byte_width_3,
    is_leading_byte_width_4, length_of_first_scalar, pop_first_scalar,
    valid_first_scalar, valid_leading_and_continuation_bytes_first_codepoint, valid_utf8,
    valid_utf8_concat,
};

verus! {

/// Every byte is ASCII.
pub open spec fn ascii_seq(s: Seq<u8>) -> bool {
    forall|i: int| 0 <= i < s.len() ==> s[i] < 0x80
}

/// The characters an ASCII byte string decodes to.
pub open spec fn ascii_chars(s: Seq<u8>) -> Seq<char> {
    s.map_values(|b: u8| b as char)
}

/// An ASCII byte string is valid UTF-8 and decodes byte by byte.
pub proof fn lemma_ascii_decode(s: Seq<u8>)
    requires
        ascii_seq(s),
    ensures
        valid_utf8(s),
        decode_utf8(s) == ascii_chars(s),
    decreases s.len(),
{
    if s.len() == 0 {
        assert(ascii_chars(s) =~= Seq::<char>::empty());
    } else {
        let b = s[0];
        assert(is_leading_byte_width_1(b));
        assert((b & 0x7f) == b) by (bit_vector)
            requires
                b < 0x80,
        ;
        assert(valid_first_scalar(s));
        assert(pop_first_scalar(s) =~= s.drop_first());
        lemma_ascii_decode(s.drop_first());
        assert((b as u32) as char == b as char);
        assert(decode_utf8(s) =~= ascii_chars(s));
    }
}

/// Decoding distributes over concatenation of valid UTF-8 strings.
pub proof fn lemma_decode_concat(a: Seq<u8>, b: Seq<u8>)
    requires
        valid_utf8(a),
        valid_utf8(b),
    ensures
        valid_utf8(a + b),
        decode_utf8(a + b) == decode_utf8(a) + decode_utf8(b),
    decreases a.len(),
{
    valid_utf8_concat(a, b);
    if a.len() == 0 {
        assert(a + b =~= b);
        assert(decode_utf8(a) + decode_utf8(b) =~= decode_utf8(b));
    } else {
        assert(valid_first_scalar(a));
        let w = length_of_first_scalar(a);
        assert forall|i: int| 0 <= i < a.len() implies (a + b)[i] == a[i] by {}
        assert(valid_first_scalar(a + b));
        assert(length_of_first_scalar(a + b) == w);
        assert(pop_first_scalar(a + b) =~= pop_first_scalar(a) + b);
        lemma_decode_concat(pop_first_scalar(a), b);
        assert(decode_utf8(a + b) =~= decode_utf8(a) + decode_utf8(b));
    }
}

/// Whether a well-formed scalar encoding starts at `i`, and how many
/// bytes it takes.
fn first_scalar_width(v: &Vec<u8>, i: usize) -> (r: Option<usize>)
    requires
        i < v@.len(),
    ensures
        ({
            let s = v@.subrange(i as int, v@.len() as int);
            match r {
                Some(w) => valid_first_scalar(s) && length_of_first_scalar(s) == w && i + w
                    <= v@.len(),
                None => !valid_first_scalar(s),
            }
        }),
{
    let n = v.len();
    let ghost s = v@.subrange(i as int, v@.len() as int);
    proof {
        assert(s.len() == n - i);
        assert(s[0] == v@[i as int]);
    }
    let b0 = v[i];
    if b0 < 0x80 {
        proof {
            assert(is_leading_byte_width_1(b0));
            assert(((b0 & 0x7f) as u32) < 0x80) by (bit_vector)
                requires
                    b0 < 0x80,
            ;
        }
        Some(1)
    } else if 0xc0 <= b0 && b0 <= 0xdf {
        if i + 1 >= n {
            return None;
        }
        let b1 = v[i + 1];
        proof {
            assert(s[1] == v@[i + 1]);
        }
        if !(0x80 <= b1 && b1 <= 0xbf) {
            return None;
        }
        let cp: u32 = (((b0 & 0x1f) as u32) << 6u32) | ((b1 & 0x3f) as u32);
        proof {
            assert(cp == codepoint_width_2(b0, b1));
            assert(cp <= 0x7ff) by (bit_vector)
                requires
                    cp == (((b0 & 0x1f) as u32) << 6u32) | ((b1 & 0x3f) as u32),
            ;
        }
        if cp < 0x80 {
            // overlong two-byte encoding
            return None;
        }
        Some(2)
    } else if 0xe0 <= b0 && b0 <= 0xef {
        if n - i < 3 {
            return None;
        }
        let b1 = v[i + 1];
        let b2 = v[i + 2];
        proof {
            assert(s[1] == v@[i + 1]);
            assert(s[2] == v@[i + 2]);
        }
        if !(0x80 <= b1 && b1 <= 0xbf) || !(0x80 <= b2 && b2 <= 0xbf) {
            return None;
        }
        let cp: u32 = (((b0 & 0x0f) as u32) << 12u32) | (((b1 & 0x3f) as u32) << 6u32) | ((b2
            & 0x3f) as u32);
        proof {
            assert(cp == codepoint_width_3(b0, b1, b2));
        }
        if cp < 0x800 {
            // overlong three-byte encoding
            return None;
        }
        if 0xd800 <= cp && cp <= 0xdfff {
            // surrogate range
            return None;
        }
        Some(3)
    } else if 0xf0 <= b0 && b0 <= 0xf7 {
        if n - i < 4 {
            return None;
        }
        let b1 = v[i + 1];
        let b2 = v[i + 2];
        let b3 = v[i + 3];
        proof {
            assert(s[1] == v@[i + 1]);
            assert(s[2] == v@[i + 2]);
            assert(s[3] == v@[i + 3]);
        }
        if !(0x80 <= b1 && b1 <= 0xbf) || !(0x80 <= b2 && b2 <= 0xbf) || !(0x80 <= b3 && b3
            <= 0xbf) {
            return None;
        }
        let cp: u32 = (((b0 & 0x07) as u32) << 18u32) | (((b1 & 0x3f) as u32) << 12u32) | (((b2
            & 0x3f) as u32) << 6u32) | ((b3 & 0x3f) as u32);
        proof {
            assert(cp == codepoint_width_4(b0, b1, b2, b3));
        }
        if cp < 0x10000 || cp > 0x10ffff {
            // overlong four-byte encoding, or beyond the scalar range
            return None;
        }
        Some(4)
    } else {
        // a stray continuation byte, or a byte no encoding begins with
        proof {
            assert(!is_leading_byte_width_1(s[0]));
            assert(!is_leading_byte_width_2(s[0]));
            assert(!is_leading_byte_width_3(s[0]));
            assert(!is_leading_byte_width_4(s[0]));
            assert(!valid_leading_and_continuation_bytes_first_codepoint(s));
        }
        None
    }
}

/// Whether the bytes form valid UTF-8, checked scalar by scalar.
pub fn is_valid_utf8(v: &Vec<u8>) -> (r: bool)
    ensures
        r == valid_utf8(v@),
{
    let n = v.len();
    proof {
        assert(v@.subrange(0, n as int) =~= v@);
    }
    let mut i: usize = 0;
    while i < n
        invariant
            0 <= i <= n,
            n == v@.len(),
            valid_utf8(v@) == valid_utf8(v@.subrange(i as int, n as int)),
        decreases n - i,
    {
        let ghost s = v@.subrange(i as int, n as int);
        match first_scalar_width(v, i) {
            Option::Some(w) => {
                proof {
                    assert(pop_first_scalar(s) =~= v@.subrange(i + w, n as int));
                    assert(valid_utf8(s) == valid_utf8(v@.subrange(i + w, n as int)));
                }
                i = i + w;
            },
            Option::None => {
                proof {
                    assert(!valid_utf8(s));
                }
                return false;
            },
        }
    }
    proof {
        assert(v@.subrange(n as int, n as int) =~= Seq::<u8>::empty());
        assert(valid_utf8(Seq::<u8>::empty()));
    }
    true
}

/// Relies on `String::from_utf8`: on valid UTF-8 input it returns the
/// string holding exactly those bytes.
#[verifier::external_body]
pub fn into_string(v: Vec<u8>) -> (r: String)
    requires
        valid_utf8(v@),
    ensures
        r@ == decode_utf8(v@),
{
    match String::from_utf8(v) {
        Ok(s) => s,
        Err(_) => String::new(),
    }
}

/// The UTF-8 bytes of a string, as an owned vector.
pub fn bytes_of_string(s: &String) -> (r: Vec<u8>)
    ensures
        r@ == encode_utf8(s@),
{
    s.as_str().as_bytes_vec()
}

} // verus!
