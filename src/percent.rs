//! Percent-encoding of query components, and the decoding that undoes it.
use vstd::prelude::*;
use vstd::slice::slice_to_vec;
use vstd::utf8::*;
use crate::text::{all_ascii, ascii_chars, lemma_ascii_utf8};

verus! {

broadcast use group_utf8_lib;

/// The upper-case hexadecimal digit (as an ASCII byte) of a value below 16.
pub open spec fn hex_digit(n: u8) -> u8 {
    if n < 10 {
        (48 + n) as u8
    } else {
        (55 + n) as u8
    }
}

/// Whether a byte is an upper-case hexadecimal digit.
pub open spec fn is_hex_digit(c: u8) -> bool {
    (48 <= c <= 57) || (65 <= c <= 70)
}

/// The value of an upper-case hexadecimal digit.
pub open spec fn hex_value(c: u8) -> u8 {
    if c <= 57 {
        (c - 48) as u8
    } else {
        (c - 55) as u8
    }
}

/// The bytes that are escaped in a query component: every byte that is not
/// ASCII, the ASCII control characters, the characters that a query may not
/// hold literally (space, `"`, `#`, `<`, `>`), the separators of a query
/// (`&`, `=`) and the escape character `%` itself.
pub open spec fn must_escape(b: u8) -> bool {
    b < 0x20 || b >= 0x7f || b == 0x20 || b == 0x22 || b == 0x23 || b == 0x3c || b == 0x3e
        || b == 0x25 || b == 0x26 || b == 0x3d
}

/// The three bytes `%XY` that stand for an escaped byte.
pub open spec fn escape_bytes(b: u8) -> Seq<u8> {
    seq![0x25u8, hex_digit(b / 16), hex_digit(b % 16)]
}

/// The encoding of one byte.
pub open spec fn encode_byte(b: u8) -> Seq<u8> {
    if must_escape(b) {
        escape_bytes(b)
    } else {
        seq![b]
    }
}

/// The percent-encoding of a byte sequence, byte by byte.
pub open spec fn encode_component(bs: Seq<u8>) -> Seq<u8>
    decreases bs.len(),
{
    if bs.len() == 0 {
        seq![]
    } else {
        encode_byte(bs[0]) + encode_component(bs.drop_first())
    }
}

/// Percent-decoding: `%` followed by two hexadecimal digits stands for the
/// byte they spell; every other byte stands for itself.
pub open spec fn percent_decode(s: Seq<u8>) -> Seq<u8>
    decreases s.len(),
{
    if s.len() == 0 {
        seq![]
    } else if s.len() >= 3 && s[0] == 0x25u8 && is_hex_digit(s[1]) && is_hex_digit(s[2]) {
        seq![(hex_value(s[1]) * 16 + hex_value(s[2])) as u8] + percent_decode(s.subrange(3, s.len() as int))
    } else {
        seq![s[0]] + percent_decode(s.drop_first())
    }
}

proof fn lemma_hex_round_trip(b: u8)
    ensures
        is_hex_digit(hex_digit(b / 16)),
        is_hex_digit(hex_digit(b % 16)),
        (hex_value(hex_digit(b / 16)) * 16 + hex_value(hex_digit(b % 16))) as u8 == b,
{
}

proof fn lemma_encode_single(b: u8)
    ensures
        encode_component(seq![b]) == encode_byte(b),
{
    let s = seq![b];
    assert(s.drop_first() =~= Seq::<u8>::empty());
    assert(encode_component(s.drop_first()) =~= Seq::<u8>::empty());
    assert(encode_component(s) =~= encode_byte(b));
}

/// Encoding a concatenation encodes each part.
pub proof fn lemma_encode_concat(a: Seq<u8>, b: Seq<u8>)
    ensures
        encode_component(a + b) == encode_component(a) + encode_component(b),
    decreases a.len(),
{
    if a.len() == 0 {
        assert(a + b =~= b);
    } else {
        assert((a + b).drop_first() =~= a.drop_first() + b);
        lemma_encode_concat(a.drop_first(), b);
        assert(encode_component(a + b) =~= encode_component(a) + encode_component(b));
    }
}

/// An encoded component is ASCII and holds neither of the separators `&`
/// and `=`.
pub proof fn lemma_encode_shape(bs: Seq<u8>)
    ensures
        all_ascii(encode_component(bs)),
        forall|i: int|
            0 <= i < encode_component(bs).len() ==> #[trigger] encode_component(bs)[i] != 0x26u8
                && encode_component(bs)[i] != 0x3du8,
    decreases bs.len(),
{
    if bs.len() > 0 {
        lemma_encode_shape(bs.drop_first());
        let e = encode_component(bs);
        let h = encode_byte(bs[0]);
        let t = encode_component(bs.drop_first());
        assert forall|i: int| 0 <= i < e.len() implies #[trigger] e[i] < 128 && e[i] != 0x26u8
            && e[i] != 0x3du8 by {
            if i < h.len() {
                lemma_hex_round_trip(bs[0]);
            } else {
                assert(e[i] == t[i - h.len()]);
            }
        }
    }
}

/// Decoding undoes encoding, byte for byte, `%` included.
pub proof fn lemma_decode_encode(bs: Seq<u8>)
    ensures
        percent_decode(encode_component(bs)) == bs,
    decreases bs.len(),
{
    if bs.len() == 0 {
    } else {
        let b = bs[0];
        let rest = bs.drop_first();
        let e = encode_component(bs);
        lemma_decode_encode(rest);
        if must_escape(b) {
            lemma_hex_round_trip(b);
            assert(e.subrange(3, e.len() as int) =~= encode_component(rest));
        } else {
            assert(e.drop_first() =~= encode_component(rest));
        }
        assert(bs =~= seq![b] + rest);
    }
}

/// Relies on percent_encoding::percent_encode_byte: the escape of a byte is
/// `%` followed by its two upper-case hexadecimal digits.
#[verifier::external_body]
fn percent_encode_byte(b: u8) -> (r: &'static str)
    ensures
        r@ == seq!['%', hex_digit(b / 16) as char, hex_digit(b % 16) as char],
{
    percent_encoding::percent_encode_byte(b)
}

/// Whether a byte is escaped in a query component.
pub fn needs_escape(b: u8) -> (r: bool)
    ensures
        r == must_escape(b),
{
    b < 0x20 || b >= 0x7f || b == 0x20 || b == 0x22 || b == 0x23 || b == 0x3c || b == 0x3e
        || b == 0x25 || b == 0x26 || b == 0x3d
}

/// Appends the percent-encoding of `s`'s UTF-8 bytes to `out`.
pub fn push_encoded(out: &mut Vec<u8>, s: &str)
    ensures
        final(out)@ == old(out)@ + encode_component(encode_utf8(s@)),
{
    let bytes = s.as_bytes();
    let ghost start = out@;
    let mut i: usize = 0;
    while i < bytes.len()
        invariant
            i <= bytes@.len(),
            bytes@ == encode_utf8(s@),
            out@ == start + encode_component(bytes@.subrange(0, i as int)),
        decreases bytes@.len() - i,
    {
        let b = bytes[i];
        proof {
            let pre = bytes@.subrange(0, i as int);
            assert(bytes@.subrange(0, i + 1) =~= pre + seq![b]);
            lemma_encode_concat(pre, seq![b]);
            lemma_encode_single(b);
        }
        if needs_escape(b) {
            let esc = percent_encode_byte(b);
            let mut v = slice_to_vec(esc.as_bytes());
            proof {
                let cs = seq!['%', hex_digit(b / 16) as char, hex_digit(b % 16) as char];
                lemma_hex_round_trip(b);
                lemma_ascii_utf8(escape_bytes(b));
                assert(ascii_chars(escape_bytes(b)) =~= cs);
            }
            out.append(&mut v);
        } else {
            out.push(b);
        }
        i = i + 1;
    }
    assert(bytes@.subrange(0, i as int) =~= bytes@);
}

} // verus!
