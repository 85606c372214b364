//! Percent-encoding of URL query values.

use vstd::prelude::*;
use crate::text::digit_char;
use vstd::string::StringSliceAdditionalSpecFns;

verus! {

/// Bytes that stay as they are: ASCII letters, digits and `-_.~`.
pub open spec fn unreserved(b: u8) -> bool {
    ||| (65 <= b && b <= 90)
    ||| (97 <= b && b <= 122)
    ||| (48 <= b && b <= 57)
    ||| b == 45
    ||| b == 95
    ||| b == 46
    ||| b == 126
}

/// Upper-case hexadecimal digit.
pub open spec fn hex_upper(d: int) -> char {
    if d < 10 {
        digit_char(d)
    } else if d == 10 {
        'A'
    } else if d == 11 {
        'B'
    } else if d == 12 {
        'C'
    } else if d == 13 {
        'D'
    } else if d == 14 {
        'E'
    } else {
        'F'
    }
}

/// The text one byte becomes: itself, or `%` and two upper-case hex digits.
pub open spec fn encode_byte(b: u8) -> Seq<char> {
    if unreserved(b) {
        seq![b as char]
    } else {
        seq!['%', hex_upper(b as int / 16), hex_upper(b as int % 16)]
    }
}

/// Percent-encoding of a byte sequence.
pub open spec fn url_encode(bs: Seq<u8>) -> Seq<char>
    decreases bs.len(),
{
    if bs.len() == 0 {
        Seq::empty()
    } else {
        url_encode(bs.drop_last()) + encode_byte(bs.last())
    }
}

proof fn lemma_encode_byte_ascii(b: u8)
    ensures
        forall|j: int| 0 <= j < encode_byte(b).len() ==> ((#[trigger] encode_byte(b)[j]) as u32) < 128,
        encode_byte(b).len() >= 1,
        unreserved(b) <==> encode_byte(b).len() == 1,
{
    if !unreserved(b) {
        let e = encode_byte(b);
        assert(e[0] == '%');
        assert(e[1] == hex_upper(b as int / 16));
        assert(e[2] == hex_upper(b as int % 16));
    }
}

/// Law: percent-encoding gives ASCII text, no shorter than its input, that
/// is the input itself (each byte read as a character) exactly when every
/// byte is unreserved.
pub proof fn law_url_encode(bs: Seq<u8>)
    ensures
        forall|i: int| 0 <= i < url_encode(bs).len() ==> ((#[trigger] url_encode(bs)[i]) as u32) < 128,
        url_encode(bs).len() >= bs.len(),
        url_encode(bs) == bs.map_values(|b: u8| b as char) <==> forall|i: int|
            0 <= i < bs.len() ==> unreserved(#[trigger] bs[i]),
    decreases bs.len(),
{
    if bs.len() == 0 {
        assert(bs.map_values(|b: u8| b as char) =~= Seq::<char>::empty());
    } else {
        let d = bs.drop_last();
        let b = bs.last();
        law_url_encode(d);
        lemma_encode_byte_ascii(b);
        let p = url_encode(d);
        let e = encode_byte(b);
        assert(url_encode(bs) == p + e);
        assert forall|i: int| 0 <= i < url_encode(bs).len() implies ((#[trigger] url_encode(bs)[i]) as u32) < 128 by {
            if i < p.len() {
                assert(url_encode(bs)[i] == p[i]);
            } else {
                assert(url_encode(bs)[i] == e[i - p.len()]);
            }
        }
        let m = bs.map_values(|x: u8| x as char);
        let md = d.map_values(|x: u8| x as char);
        assert(m =~= md.push(b as char));
        if forall|i: int| 0 <= i < bs.len() ==> unreserved(#[trigger] bs[i]) {
            assert forall|i: int| 0 <= i < d.len() implies unreserved(#[trigger] d[i]) by {
                assert(d[i] == bs[i]);
            }
            assert(unreserved(bs[bs.len() - 1]));
            assert(url_encode(bs) =~= m);
        }
        if url_encode(bs) == m {
            assert(e.len() == 1);
            assert(p =~= url_encode(bs).subrange(0, p.len() as int));
            assert(md =~= m.subrange(0, md.len() as int));
            assert forall|i: int| 0 <= i < bs.len() implies unreserved(#[trigger] bs[i]) by {
                if i < d.len() {
                    assert(d[i] == bs[i]);
                }
            }
        }
    }
}

fn hex_digit(d: u8) -> (c: char)
    requires
        d < 16,
    ensures
        c == hex_upper(d as int),
{
    if d == 0 { '0' }
    else if d == 1 { '1' }
    else if d == 2 { '2' }
    else if d == 3 { '3' }
    else if d == 4 { '4' }
    else if d == 5 { '5' }
    else if d == 6 { '6' }
    else if d == 7 { '7' }
    else if d == 8 { '8' }
    else if d == 9 { '9' }
    else if d == 10 { 'A' }
    else if d == 11 { 'B' }
    else if d == 12 { 'C' }
    else if d == 13 { 'D' }
    else if d == 14 { 'E' }
    else { 'F' }
}

/// Percent-encodes the UTF-8 bytes of `s` for use in a query string.
pub fn encode_value(s: &str) -> (r: String)
    ensures
        r@ == url_encode(s.spec_bytes()),
{
    let bytes = s.as_bytes();
    let mut out: Vec<char> = Vec::new();
    let mut i: usize = 0;
    while i < bytes.len()
        invariant
            bytes@ == s.spec_bytes(),
            i <= bytes@.len(),
            out@ == url_encode(bytes@.take(i as int)),
        decreases bytes@.len() - i,
    {
        let b = bytes[i];
        assert(bytes@.take(i + 1).drop_last() =~= bytes@.take(i as int));
        assert(bytes@.take(i + 1).last() == b);
        let is_plain = (65 <= b && b <= 90) || (97 <= b && b <= 122) || (48 <= b && b <= 57) || b
            == 45 || b == 95 || b == 46 || b == 126;
        if is_plain {
            out.push(b as char);
            assert(out@ =~= url_encode(bytes@.take(i as int)) + seq![b as char]);
        } else {
            out.push('%');
            out.push(hex_digit(b / 16));
            out.push(hex_digit(b % 16));
            assert(out@ =~= url_encode(bytes@.take(i as int)) + seq![
                '%',
                hex_upper(b as int / 16),
                hex_upper(b as int % 16),
            ]);
        }
        i = i + 1;
    }
    assert(bytes@.take(bytes@.len() as int) =~= bytes@);
    crate::text::string_from_chars(out)
}

} // verus!
