//! Base64 encoding of resource bytes, for data URIs.
//!
//! The encoding is the standard alphabet with `=` padding. Encoding
//! is executable and verified against [`b64_encode`]; decoding exists
//! as a specification only, so that the crate can state and prove the
//! round trip law: decoding an encoded payload gives the payload back.

use crate::text::push_char;
use vstd::prelude::*;

verus! {

/// The alphabet character for one six bit group.
pub open spec fn b64_digit(v: u8) -> char {
    if v < 26 {
        ((v + ('A' as u8)) as u8) as char
    } else if v < 52 {
        ((v - 26 + ('a' as u8)) as u8) as char
    } else if v < 62 {
        ((v - 52 + ('0' as u8)) as u8) as char
    } else if v == 62 {
        '+'
    } else {
        '/'
    }
}

/// The six bit group a character stands for, if it is of the alphabet.
pub open spec fn b64_digit_val(c: char) -> Option<u8> {
    if 'A' <= c && c <= 'Z' {
        Some(((c as u8) - ('A' as u8)) as u8)
    } else if 'a' <= c && c <= 'z' {
        Some(((c as u8) - ('a' as u8) + 26) as u8)
    } else if '0' <= c && c <= '9' {
        Some(((c as u8) - ('0' as u8) + 52) as u8)
    } else if c == '+' {
        Some(62u8)
    } else if c == '/' {
        Some(63u8)
    } else {
        None
    }
}

/// The base64 text of a byte sequence, four characters for every
/// group of up to three bytes, the last group padded with `=`.
pub open spec fn b64_encode(bytes: Seq<u8>) -> Seq<char>
    decreases bytes.len(),
{
    if bytes.len() == 0 {
        Seq::empty()
    } else if bytes.len() == 1 {
        let b0 = bytes[0];
        seq![
            b64_digit(b0 >> 2),
            b64_digit((b0 & 3) << 4),
            '=',
            '=',
        ]
    } else if bytes.len() == 2 {
        let b0 = bytes[0];
        let b1 = bytes[1];
        seq![
            b64_digit(b0 >> 2),
            b64_digit(((b0 & 3) << 4) | (b1 >> 4)),
            b64_digit((b1 & 15) << 2),
            '=',
        ]
    } else {
        let b0 = bytes[0];
        let b1 = bytes[1];
        let b2 = bytes[2];
        seq![
            b64_digit(b0 >> 2),
            b64_digit(((b0 & 3) << 4) | (b1 >> 4)),
            b64_digit(((b1 & 15) << 2) | (b2 >> 6)),
            b64_digit(b2 & 63),
        ] + b64_encode(bytes.subrange(3, bytes.len() as int))
    }
}

/// The bytes a base64 text stands for, or nothing when the text is
/// not a canonical encoding.
pub open spec fn b64_decode(s: Seq<char>) -> Option<Seq<u8>>
    decreases s.len(),
{
    if s.len() == 0 {
        Some(Seq::empty())
    } else if s.len() < 4 {
        None
    } else {
        let d0 = b64_digit_val(s[0]);
        let d1 = b64_digit_val(s[1]);
        if d0 is Some && d1 is Some {
            let v0 = d0->0;
            let v1 = d1->0;
            if s[2] == '=' && s[3] == '=' {
                if s.len() == 4 && (v1 & 15) == 0 {
                    Some(seq![(v0 << 2) | (v1 >> 4)])
                } else {
                    None
                }
            } else if s[3] == '=' {
                let d2 = b64_digit_val(s[2]);
                if s.len() == 4 && d2 is Some && (d2->0 & 3) == 0 {
                    let v2 = d2->0;
                    Some(seq![(v0 << 2) | (v1 >> 4), ((v1 & 15) << 4) | (v2 >> 2)])
                } else {
                    None
                }
            } else {
                let d2 = b64_digit_val(s[2]);
                let d3 = b64_digit_val(s[3]);
                if d2 is Some && d3 is Some {
                    let v2 = d2->0;
                    let v3 = d3->0;
                    match b64_decode(s.subrange(4, s.len() as int)) {
                        Some(rest) => Some(
                            seq![
                                (v0 << 2) | (v1 >> 4),
                                ((v1 & 15) << 4) | (v2 >> 2),
                                ((v2 & 3) << 6) | v3,
                            ] + rest,
                        ),
                        None => None,
                    }
                } else {
                    None
                }
            }
        } else {
            None
        }
    }
}

/// The alphabet maps each six bit group to a character that maps back
/// to it, and never to the padding character.
proof fn lemma_digit_inverse(v: u8)
    requires
        v < 64,
    ensures
        b64_digit_val(b64_digit(v)) == Some(v),
        b64_digit(v) != '=',
{
}

/// Splitting three bytes into six bit groups and reassembling them
/// gives the bytes back.
proof fn lemma_regroup(b0: u8, b1: u8, b2: u8)
    ensures
        b0 >> 2 < 64,
        ((b0 & 3) << 4) | (b1 >> 4) < 64,
        ((b1 & 15) << 2) | (b2 >> 6) < 64,
        b2 & 63 < 64,
        (b0 & 3) << 4 == ((b0 & 3) << 4) | (0u8 >> 4),
        (b1 & 15) << 2 == ((b1 & 15) << 2) | (0u8 >> 6),
        ((b0 >> 2) << 2) | ((((b0 & 3) << 4) | (b1 >> 4)) >> 4) == b0,
        (((((b0 & 3) << 4) | (b1 >> 4)) & 15) << 4) | (((((b1 & 15) << 2) | (b2 >> 6))) >> 2)
            == b1,
        ((((((b1 & 15) << 2) | (b2 >> 6))) & 3) << 6) | (b2 & 63) == b2,
        ((((b0 & 3) << 4) | (b1 >> 4)) & 15) == ((b1 >> 4) & 15),
        b1 == 0 ==> ((((b0 & 3) << 4) | (b1 >> 4)) & 15) == 0,
        b2 == 0 ==> ((((b1 & 15) << 2) | (b2 >> 6)) & 3) == 0,
{
    assert(b0 >> 2 < 64 && ((b0 & 3) << 4) | (b1 >> 4) < 64 && ((b1 & 15) << 2) | (b2 >> 6)
        < 64 && b2 & 63 < 64) by (bit_vector);
    assert((b0 & 3) << 4 == ((b0 & 3) << 4) | (0u8 >> 4) && (b1 & 15) << 2 == ((b1 & 15) << 2)
        | (0u8 >> 6)) by (bit_vector);
    assert(((b0 >> 2) << 2) | ((((b0 & 3) << 4) | (b1 >> 4)) >> 4) == b0) by (bit_vector);
    assert(((((b0 & 3) << 4) | (b1 >> 4)) & 15) == ((b1 >> 4) & 15)) by (bit_vector);
    assert((((b1 >> 4) & 15) << 4) | (((((b1 & 15) << 2) | (b2 >> 6))) >> 2) == b1)
        by (bit_vector);
    assert(((((((b1 & 15) << 2) | (b2 >> 6))) & 3) << 6) | (b2 & 63) == b2) by (bit_vector);
    assert(b2 == 0 ==> ((((b1 & 15) << 2) | (b2 >> 6)) & 3) == 0) by (bit_vector);
    assert(b1 == 0 ==> ((((b0 & 3) << 4) | (b1 >> 4)) & 15) == ((b1 >> 4) & 15))
        by (bit_vector);
    assert(b1 == 0 ==> ((b1 >> 4) & 15) == 0) by (bit_vector);
}

/// The round trip law: decoding the encoding of any byte sequence
/// yields that byte sequence.
pub proof fn lemma_b64_round_trip(bytes: Seq<u8>)
    ensures
        b64_decode(b64_encode(bytes)) == Some(bytes),
    decreases bytes.len(),
{
    let s = b64_encode(bytes);
    if bytes.len() == 0 {
        assert(bytes =~= Seq::<u8>::empty());
    } else if bytes.len() == 1 {
        let b0 = bytes[0];
        lemma_regroup(b0, 0, 0);
        lemma_digit_inverse(b0 >> 2);
        lemma_digit_inverse((b0 & 3) << 4);
        assert(b64_decode(s) == Some(seq![((b0 >> 2) << 2) | ((((b0 & 3) << 4) | (0u8 >> 4))
            >> 4)]));
        assert(bytes =~= seq![b0]);
    } else if bytes.len() == 2 {
        let b0 = bytes[0];
        let b1 = bytes[1];
        lemma_regroup(b0, b1, 0);
        lemma_digit_inverse(b0 >> 2);
        lemma_digit_inverse(((b0 & 3) << 4) | (b1 >> 4));
        lemma_digit_inverse((b1 & 15) << 2);
        assert(bytes =~= seq![b0, b1]);
    } else {
        let b0 = bytes[0];
        let b1 = bytes[1];
        let b2 = bytes[2];
        let tail = bytes.subrange(3, bytes.len() as int);
        lemma_regroup(b0, b1, b2);
        lemma_digit_inverse(b0 >> 2);
        lemma_digit_inverse(((b0 & 3) << 4) | (b1 >> 4));
        lemma_digit_inverse(((b1 & 15) << 2) | (b2 >> 6));
        lemma_digit_inverse(b2 & 63);
        lemma_b64_round_trip(tail);
        lemma_encode_len(tail);
        assert(s.subrange(4, s.len() as int) =~= b64_encode(tail));
        if s.len() == 4 {
            assert(tail =~= Seq::<u8>::empty());
            assert(bytes =~= seq![b0, b1, b2]);
        } else {
            assert(s[2] != '=' && s[3] != '=');
            assert(bytes =~= seq![b0, b1, b2] + tail);
        }
    }
}

/// Encoding makes four characters from every started group of three
/// bytes.
pub proof fn lemma_encode_len(bytes: Seq<u8>)
    ensures
        b64_encode(bytes).len() == 4 * ((bytes.len() + 2) / 3),
    decreases bytes.len(),
{
    if bytes.len() > 2 {
        lemma_encode_len(bytes.subrange(3, bytes.len() as int));
    }
}

/// The alphabet character for one six bit group.
fn b64_digit_x(v: u8) -> (c: char)
    requires
        v < 64,
    ensures
        c == b64_digit(v),
{
    if v < 26 {
        (v + ('A' as u8)) as char
    } else if v < 52 {
        (v - 26 + ('a' as u8)) as char
    } else if v < 62 {
        (v - 52 + ('0' as u8)) as char
    } else if v == 62 {
        '+'
    } else {
        '/'
    }
}

/// Encodes a byte sequence as base64 text.
#[verifier::loop_isolation(false)]
pub fn base64_encode(data: &Vec<u8>) -> (r: String)
    ensures
        r@ == b64_encode(data@),
{
    let mut out = String::new();
    let len = data.len();
    let mut i: usize = 0;
    proof {
        assert(data@.subrange(0, data@.len() as int) =~= data@);
    }
    while len - i >= 3
        invariant
            i <= len,
            i % 3 == 0,
            out@ + b64_encode(data@.subrange(i as int, len as int)) == b64_encode(data@),
        decreases len - i,
    {
        let b0 = data[i];
        let b1 = data[i + 1];
        let b2 = data[i + 2];
        proof {
            lemma_regroup(b0, b1, b2);
            assert(data@.subrange(i as int, len as int).subrange(3, len - i) =~= data@
                .subrange(i + 3, len as int));
        }
        push_char(&mut out, b64_digit_x(b0 >> 2));
        push_char(&mut out, b64_digit_x(((b0 & 3) << 4) | (b1 >> 4)));
        push_char(&mut out, b64_digit_x(((b1 & 15) << 2) | (b2 >> 6)));
        push_char(&mut out, b64_digit_x(b2 & 63));
        proof {
            assert(out@ + b64_encode(data@.subrange(i + 3, len as int)) =~= b64_encode(
                data@,
            ));
        }
        i = i + 3;
    }
    if len - i == 1 {
        let b0 = data[i];
        proof {
            lemma_regroup(b0, 0, 0);
        }
        push_char(&mut out, b64_digit_x(b0 >> 2));
        push_char(&mut out, b64_digit_x((b0 & 3) << 4));
        push_char(&mut out, '=');
        push_char(&mut out, '=');
        proof {
            assert(out@ =~= b64_encode(data@));
        }
    } else if len - i == 2 {
        let b0 = data[i];
        let b1 = data[i + 1];
        proof {
            lemma_regroup(b0, b1, 0);
        }
        push_char(&mut out, b64_digit_x(b0 >> 2));
        push_char(&mut out, b64_digit_x(((b0 & 3) << 4) | (b1 >> 4)));
        push_char(&mut out, b64_digit_x((b1 & 15) << 2));
        push_char(&mut out, '=');
        proof {
            assert(out@ =~= b64_encode(data@));
        }
    } else {
        proof {
            assert(out@ =~= b64_encode(data@));
        }
    }
    out
}

} // verus!
