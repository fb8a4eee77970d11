//! Percent-encoding, as the pct-str crate performs it.
//!
//! Tokens, cookie key components and authorization-URL parameters are
//! percent-encoded. The library calls the pct-str crate for the encoding and
//! decoding themselves; this module states exactly what those calls return,
//! over the UTF-8 specification functions of vstd, and proves the round-trip
//! law that the token cache relies on.

use vstd::prelude::*;
use vstd::utf8::encode_scalar;
use vstd::utf8::encode_utf8;
use vstd::utf8::is_scalar;

verus! {

/// A character that the `UriReserved::Any` encoder leaves unchanged:
/// unreserved per RFC 3986.
pub open spec fn is_unreserved(c: char) -> bool {
    let d = c as u32;
    (0x41 <= d <= 0x5A) || (0x61 <= d <= 0x7A) || (0x30 <= d <= 0x39) || c == '-' || c == '.'
        || c == '_' || c == '~'
}

/// The uppercase hexadecimal digit for a value below 16.
pub open spec fn hex_upper(d: int) -> char {
    if d < 10 {
        (0x30 + d) as u8 as char
    } else {
        (0x37 + d) as u8 as char
    }
}

/// The percent-escape of one byte: `%XX` with uppercase digits.
pub open spec fn pct_byte(b: u8) -> Seq<char> {
    seq!['%', hex_upper(b as int / 16), hex_upper(b as int % 16)]
}

/// Every byte of `bs`, percent-escaped.
pub open spec fn pct_bytes_escaped(bs: Seq<u8>) -> Seq<char>
    decreases bs.len(),
{
    if bs.len() == 0 {
        Seq::empty()
    } else {
        pct_byte(bs[0]) + pct_bytes_escaped(bs.drop_first())
    }
}

/// What `PctString::encode` with the `UriReserved::Any` encoder returns:
/// unreserved characters pass through, every other character has each of its
/// UTF-8 bytes written as an uppercase percent-escape.
pub open spec fn pct_encoded(s: Seq<char>) -> Seq<char>
    decreases s.len(),
{
    if s.len() == 0 {
        Seq::empty()
    } else {
        (if is_unreserved(s[0]) {
            seq![s[0]]
        } else {
            pct_bytes_escaped(encode_scalar(s[0] as u32))
        }) + pct_encoded(s.drop_first())
    }
}

/// An ASCII hexadecimal digit, as a byte.
pub open spec fn is_hex_byte(b: u8) -> bool {
    (0x30 <= b <= 0x39) || (0x41 <= b <= 0x46) || (0x61 <= b <= 0x66)
}

/// The value of a hexadecimal digit byte.
pub open spec fn hex_byte_val(b: u8) -> int {
    if 0x30 <= b <= 0x39 {
        b - 0x30
    } else if 0x41 <= b <= 0x46 {
        b - 0x37
    } else {
        b - 0x57
    }
}

/// The bytes of a percent-encoded string with every `%XX` escape collapsed
/// to its byte; `None` where an escape is incomplete or not hexadecimal.
pub open spec fn pct_unescape(bs: Seq<u8>) -> Option<Seq<u8>>
    decreases bs.len(),
{
    if bs.len() == 0 {
        Some(Seq::empty())
    } else if bs[0] == 0x25 {
        if bs.len() >= 3 && is_hex_byte(bs[1]) && is_hex_byte(bs[2]) {
            match pct_unescape(bs.skip(3)) {
                Some(r) => Some(seq![(hex_byte_val(bs[1]) * 16 + hex_byte_val(bs[2])) as u8] + r),
                None => None,
            }
        } else {
            None
        }
    } else {
        match pct_unescape(bs.drop_first()) {
            Some(r) => Some(seq![bs[0]] + r),
            None => None,
        }
    }
}

/// A UTF-8 continuation byte.
pub open spec fn is_cont(b: u8) -> bool {
    b & 0xC0 == 0x80
}

/// The payload bits of a continuation byte.
pub open spec fn cont_val(b: u8) -> u32 {
    (b & 0x3F) as u32
}

/// Prepends the character with code `code` to `rest`; `None` where `code`
/// is not a Unicode scalar value or `rest` already failed.
pub open spec fn cons_scalar(code: u32, rest: Option<Seq<char>>) -> Option<Seq<char>> {
    if is_scalar(code) {
        match rest {
            Some(r) => Some(seq![code as char] + r),
            None => None,
        }
    } else {
        None
    }
}

/// UTF-8 decoding as the utf8-decode crate performs it during validation
/// and decoding: lead and continuation byte shapes are checked and the
/// codepoint must be a scalar value, but overlong encodings are accepted.
pub open spec fn lax_decode(bs: Seq<u8>) -> Option<Seq<char>>
    decreases bs.len(),
{
    if bs.len() == 0 {
        Some(Seq::empty())
    } else {
        let a = bs[0];
        if a & 0x80 == 0x00 {
            cons_scalar(a as u32, lax_decode(bs.drop_first()))
        } else if a & 0xE0 == 0xC0 {
            if bs.len() >= 2 && is_cont(bs[1]) {
                cons_scalar(((a & 0x1F) as u32) << 6 | cont_val(bs[1]), lax_decode(bs.skip(2)))
            } else {
                None
            }
        } else if a & 0xF0 == 0xE0 {
            if bs.len() >= 3 && is_cont(bs[1]) && is_cont(bs[2]) {
                cons_scalar(
                    ((a & 0x0F) as u32) << 12 | cont_val(bs[1]) << 6 | cont_val(bs[2]),
                    lax_decode(bs.skip(3)),
                )
            } else {
                None
            }
        } else if a & 0xF8 == 0xF0 {
            if bs.len() >= 4 && is_cont(bs[1]) && is_cont(bs[2]) && is_cont(bs[3]) {
                cons_scalar(
                    ((a & 0x07) as u32) << 18 | cont_val(bs[1]) << 12 | cont_val(bs[2]) << 6
                        | cont_val(bs[3]),
                    lax_decode(bs.skip(4)),
                )
            } else {
                None
            }
        } else {
            None
        }
    }
}

/// The unescaped bytes of `s`.
pub open spec fn pct_payload(s: Seq<char>) -> Option<Seq<u8>> {
    pct_unescape(encode_utf8(s))
}

/// Whether `PctStr::new` accepts `s`.
pub open spec fn pct_ok(s: Seq<char>) -> bool {
    match pct_payload(s) {
        Some(bs) => lax_decode(bs) is Some,
        None => false,
    }
}

/// What `PctStr::decode` returns on a string that `PctStr::new` accepts.
pub open spec fn pct_decoded(s: Seq<char>) -> Seq<char> {
    match pct_payload(s) {
        Some(bs) => match lax_decode(bs) {
            Some(cs) => cs,
            None => Seq::empty(),
        },
        None => Seq::empty(),
    }
}

/// Encoding distributes over concatenation.
proof fn lemma_encode_utf8_concat(a: Seq<char>, b: Seq<char>)
    ensures
        encode_utf8(a + b) == encode_utf8(a) + encode_utf8(b),
    decreases a.len(),
{
    if a.len() == 0 {
        assert(a + b =~= b);
        assert(encode_utf8(a) =~= Seq::<u8>::empty());
        assert(encode_utf8(a) + encode_utf8(b) =~= encode_utf8(b));
    } else {
        lemma_encode_utf8_concat(a.drop_first(), b);
        assert((a + b).drop_first() =~= a.drop_first() + b);
        assert((a + b)[0] == a[0]);
        assert(encode_utf8(a + b) == encode_scalar(a[0] as u32) + (encode_utf8(a.drop_first())
            + encode_utf8(b)));
        assert(encode_scalar(a[0] as u32) + (encode_utf8(a.drop_first()) + encode_utf8(b)) =~= (
        encode_scalar(a[0] as u32) + encode_utf8(a.drop_first())) + encode_utf8(b));
    }
}

/// The single byte of an ASCII character's encoding.
proof fn lemma_encode_ascii(c: char)
    requires
        c as u32 <= 0x7F,
    ensures
        encode_scalar(c as u32) == seq![(c as u32) as u8],
{
    let u = c as u32;
    assert(u <= 0x7F ==> (u & 0x7F) == u) by (bit_vector);
    assert(encode_scalar(u) =~= seq![u as u8]);
}

/// Decoding one properly encoded scalar peels one character.
proof fn lemma_lax_decode_scalar(c: char, rest: Seq<u8>)
    ensures
        match lax_decode(rest) {
            Some(r) => lax_decode(encode_scalar(c as u32) + rest) == Some(seq![c] + r),
            None => lax_decode(encode_scalar(c as u32) + rest) is None,
        },
{
    broadcast use vstd::utf8::char_is_scalar, vstd::utf8::char_u32_cast;

    let u = c as u32;
    assert(is_scalar(u));
    let bs = encode_scalar(u) + rest;
    if u <= 0x7F {
        let b0 = vstd::utf8::leading_byte_width_1(u);
        assert(encode_scalar(u) =~= seq![b0]);
        assert(bs[0] == b0);
        assert(u <= 0x7F ==> ((u & 0x7F) as u8) & 0x80 == 0x00 && ((u & 0x7F) as u8) as u32 == u)
            by (bit_vector);
        assert(bs.drop_first() =~= rest);
        assert(lax_decode(bs) == cons_scalar(u, lax_decode(rest)));
    } else if u <= 0x7FF {
        let b0 = vstd::utf8::leading_byte_width_2(u);
        let b1 = vstd::utf8::last_continuation_byte(u);
        assert(encode_scalar(u) =~= seq![b0, b1]);
        assert(bs[0] == b0 && bs[1] == b1 && bs.len() >= 2);
        assert((0x80 <= u && u <= 0x7FF) ==> {
            let l = 0xC0u8 | (((u >> 6) & 0x1F) as u8);
            let t = 0x80u8 | ((u & 0x3F) as u8);
            &&& l & 0x80 != 0x00
            &&& l & 0xE0 == 0xC0
            &&& t & 0xC0 == 0x80
            &&& (((l & 0x1F) as u32) << 6 | ((t & 0x3F) as u32)) == u
        }) by (bit_vector);
        assert(bs.skip(2) =~= rest);
        assert(lax_decode(bs) == cons_scalar(u, lax_decode(rest)));
    } else if u <= 0xFFFF {
        let b0 = vstd::utf8::leading_byte_width_3(u);
        let b1 = vstd::utf8::second_last_continuation_byte(u);
        let b2 = vstd::utf8::last_continuation_byte(u);
        assert(encode_scalar(u) =~= seq![b0, b1, b2]);
        assert(bs[0] == b0 && bs[1] == b1 && bs[2] == b2 && bs.len() >= 3);
        assert((0x800 <= u && u <= 0xFFFF) ==> {
            let l = 0xE0u8 | (((u >> 12) & 0x0F) as u8);
            let m = 0x80u8 | (((u >> 6) & 0x3F) as u8);
            let t = 0x80u8 | ((u & 0x3F) as u8);
            &&& l & 0x80 != 0x00
            &&& l & 0xE0 != 0xC0
            &&& l & 0xF0 == 0xE0
            &&& m & 0xC0 == 0x80
            &&& t & 0xC0 == 0x80
            &&& (((l & 0x0F) as u32) << 12 | ((m & 0x3F) as u32) << 6 | ((t & 0x3F) as u32)) == u
        }) by (bit_vector);
        assert(bs.skip(3) =~= rest);
        assert(lax_decode(bs) == cons_scalar(u, lax_decode(rest)));
    } else {
        let b0 = vstd::utf8::leading_byte_width_4(u);
        let b1 = vstd::utf8::third_last_continuation_byte(u);
        let b2 = vstd::utf8::second_last_continuation_byte(u);
        let b3 = vstd::utf8::last_continuation_byte(u);
        assert(encode_scalar(u) =~= seq![b0, b1, b2, b3]);
        assert(bs[0] == b0 && bs[1] == b1 && bs[2] == b2 && bs[3] == b3 && bs.len() >= 4);
        assert((0x10000 <= u && u <= 0x10FFFF) ==> {
            let l = 0xF0u8 | (((u >> 18) & 0x7) as u8);
            let n = 0x80u8 | (((u >> 12) & 0x3F) as u8);
            let m = 0x80u8 | (((u >> 6) & 0x3F) as u8);
            let t = 0x80u8 | ((u & 0x3F) as u8);
            &&& l & 0x80 != 0x00
            &&& l & 0xE0 != 0xC0
            &&& l & 0xF0 != 0xE0
            &&& l & 0xF8 == 0xF0
            &&& n & 0xC0 == 0x80
            &&& m & 0xC0 == 0x80
            &&& t & 0xC0 == 0x80
            &&& (((l & 0x07) as u32) << 18 | ((n & 0x3F) as u32) << 12 | ((m & 0x3F) as u32) << 6
                | ((t & 0x3F) as u32)) == u
        }) by (bit_vector);
        assert(bs.skip(4) =~= rest);
        assert(lax_decode(bs) == cons_scalar(u, lax_decode(rest)));
    }
    match lax_decode(rest) {
        Some(r) => {
            assert(cons_scalar(u, lax_decode(rest)) == Some(seq![u as char] + r));
            assert(u as char == c);
        }
        None => {}
    }
}

/// A proper encoding decodes back to the encoded characters.
proof fn lemma_lax_decode_encode(s: Seq<char>)
    ensures
        lax_decode(encode_utf8(s)) == Some(s),
    decreases s.len(),
{
    if s.len() == 0 {
        assert(encode_utf8(s) =~= Seq::<u8>::empty());
        assert(lax_decode(encode_utf8(s)) == Some(Seq::<char>::empty()));
        assert(Seq::<char>::empty() =~= s);
    } else {
        lemma_lax_decode_encode(s.drop_first());
        lemma_lax_decode_scalar(s[0], encode_utf8(s.drop_first()));
        assert(seq![s[0]] + s.drop_first() =~= s);
    }
}

/// Unescaping passes one plain byte through.
proof fn lemma_unescape_plain(b: u8, rest: Seq<u8>)
    requires
        b != 0x25,
    ensures
        match pct_unescape(rest) {
            Some(u) => pct_unescape(seq![b] + rest) == Some(seq![b] + u),
            None => pct_unescape(seq![b] + rest) is None,
        },
{
    let bs = seq![b] + rest;
    assert(bs[0] == b);
    assert(bs.drop_first() =~= rest);
}

/// Unescaping collapses one escape to its byte.
proof fn lemma_unescape_escape(h1: u8, h2: u8, rest: Seq<u8>)
    requires
        is_hex_byte(h1),
        is_hex_byte(h2),
    ensures
        match pct_unescape(rest) {
            Some(u) => pct_unescape(seq![0x25u8, h1, h2] + rest) == Some(
                seq![(hex_byte_val(h1) * 16 + hex_byte_val(h2)) as u8] + u,
            ),
            None => pct_unescape(seq![0x25u8, h1, h2] + rest) is None,
        },
{
    let bs = seq![0x25u8, h1, h2] + rest;
    assert(bs[0] == 0x25u8 && bs[1] == h1 && bs[2] == h2 && bs.len() >= 3);
    assert(bs.skip(3) =~= rest);
}

/// The code of an uppercase hexadecimal digit, read back.
proof fn lemma_hex_upper_code(d: int)
    requires
        0 <= d < 16,
    ensures
        hex_upper(d) as u32 <= 0x7F,
        is_hex_byte((hex_upper(d) as u32) as u8),
        hex_byte_val((hex_upper(d) as u32) as u8) == d,
        is_unreserved(hex_upper(d)),
{
    broadcast use vstd::utf8::char_u32_cast;

    if d < 10 {
        let v = (0x30 + d) as u8;
        assert(v as char as u32 == v as u32) by {
            assert((v as char) as u32 == v as u32);
        }
    } else {
        let v = (0x37 + d) as u8;
        assert((v as char) as u32 == v as u32);
    }
}

/// The bytes behind the escapes of `bsx`, unescaped in front of a tail.
proof fn lemma_unescape_escaped_bytes(bsx: Seq<u8>, t: Seq<char>)
    ensures
        match pct_unescape(encode_utf8(t)) {
            Some(ut) => pct_unescape(encode_utf8(pct_bytes_escaped(bsx) + t)) == Some(bsx + ut),
            None => pct_unescape(encode_utf8(pct_bytes_escaped(bsx) + t)) is None,
        },
    decreases bsx.len(),
{
    if bsx.len() == 0 {
        assert(pct_bytes_escaped(bsx) + t =~= t);
        match pct_unescape(encode_utf8(t)) {
            Some(ut) => {
                assert(bsx + ut =~= ut);
            }
            None => {}
        }
    } else {
        let b = bsx[0];
        let hi = b as int / 16;
        let lo = b as int % 16;
        lemma_hex_upper_code(hi);
        lemma_hex_upper_code(lo);
        lemma_unescape_escaped_bytes(bsx.drop_first(), t);
        let tail = pct_bytes_escaped(bsx.drop_first()) + t;
        assert(pct_bytes_escaped(bsx) + t =~= seq!['%', hex_upper(hi), hex_upper(lo)] + tail);
        // the three escape characters encode to their own codes
        lemma_encode_ascii('%');
        lemma_encode_ascii(hex_upper(hi));
        lemma_encode_ascii(hex_upper(lo));
        lemma_encode_utf8_concat(seq!['%'], seq![hex_upper(hi), hex_upper(lo)] + tail);
        assert(seq!['%'] + (seq![hex_upper(hi), hex_upper(lo)] + tail) =~= seq![
            '%',
            hex_upper(hi),
            hex_upper(lo),
        ] + tail);
        lemma_encode_utf8_concat(seq![hex_upper(hi)], seq![hex_upper(lo)] + tail);
        assert(seq![hex_upper(hi)] + (seq![hex_upper(lo)] + tail) =~= seq![
            hex_upper(hi),
            hex_upper(lo),
        ] + tail);
        lemma_encode_utf8_concat(seq![hex_upper(lo)], tail);
        assert(seq![hex_upper(lo)] + tail =~= seq![hex_upper(lo)] + tail);
        assert('%' as u32 == 0x25);
        assert(encode_utf8(seq!['%']) =~= seq![0x25u8]) by {
            lemma_encode_ascii('%');
            assert(seq!['%'][0] == '%');
            assert(seq!['%'].drop_first() =~= Seq::<char>::empty());
            assert(encode_utf8(Seq::<char>::empty()) =~= Seq::<u8>::empty());
            assert(encode_utf8(seq!['%']) == encode_scalar('%' as u32) + encode_utf8(
                seq!['%'].drop_first(),
            ));
        }
        let h1 = (hex_upper(hi) as u32) as u8;
        let h2 = (hex_upper(lo) as u32) as u8;
        assert(encode_utf8(seq![hex_upper(hi)]) =~= seq![h1]) by {
            assert(seq![hex_upper(hi)][0] == hex_upper(hi));
            assert(seq![hex_upper(hi)].drop_first() =~= Seq::<char>::empty());
            assert(encode_utf8(Seq::<char>::empty()) =~= Seq::<u8>::empty());
            assert(encode_scalar(hex_upper(hi) as u32) =~= seq![h1]);
        }
        assert(encode_utf8(seq![hex_upper(lo)]) =~= seq![h2]) by {
            assert(seq![hex_upper(lo)][0] == hex_upper(lo));
            assert(seq![hex_upper(lo)].drop_first() =~= Seq::<char>::empty());
            assert(encode_utf8(Seq::<char>::empty()) =~= Seq::<u8>::empty());
            assert(encode_scalar(hex_upper(lo) as u32) =~= seq![h2]);
        }
        assert(encode_utf8(seq!['%', hex_upper(hi), hex_upper(lo)] + tail) =~= seq![
            0x25u8,
            h1,
            h2,
        ] + encode_utf8(tail));
        lemma_unescape_escape(h1, h2, encode_utf8(tail));
        assert(hex_byte_val(h1) * 16 + hex_byte_val(h2) == b) by {
            assert(hex_byte_val(h1) == b as int / 16 && hex_byte_val(h2) == b as int % 16);
        }
        match pct_unescape(encode_utf8(t)) {
            Some(ut) => {
                assert(pct_unescape(encode_utf8(tail)) == Some(bsx.drop_first() + ut));
                assert(seq![b] + (bsx.drop_first() + ut) =~= bsx + ut);
            }
            None => {}
        }
    }
}

/// Unescaping the encoding of `s` gives back the UTF-8 bytes of `s`.
proof fn lemma_unescape_encoded(s: Seq<char>)
    ensures
        pct_unescape(encode_utf8(pct_encoded(s))) == Some(encode_utf8(s)),
    decreases s.len(),
{
    if s.len() == 0 {
        assert(pct_encoded(s) =~= Seq::<char>::empty());
        assert(encode_utf8(pct_encoded(s)) =~= Seq::<u8>::empty());
        assert(encode_utf8(s) =~= Seq::<u8>::empty());
    } else {
        let c = s[0];
        let u = c as u32;
        let rest = s.drop_first();
        lemma_unescape_encoded(rest);
        if is_unreserved(c) {
            assert(u <= 0x7F && u != 0x25);
            lemma_encode_ascii(c);
            assert(pct_encoded(s) == seq![c] + pct_encoded(rest));
            lemma_encode_utf8_concat(seq![c], pct_encoded(rest));
            assert(encode_utf8(seq![c]) =~= seq![u as u8]) by {
                assert(seq![c][0] == c);
                assert(seq![c].drop_first() =~= Seq::<char>::empty());
                assert(encode_utf8(Seq::<char>::empty()) =~= Seq::<u8>::empty());
            }
            assert(encode_utf8(pct_encoded(s)) =~= seq![u as u8] + encode_utf8(pct_encoded(rest)));
            assert(u as u8 != 0x25u8) by {
                assert(u != 0x25);
                assert(u <= 0x7F ==> (u as u8) as u32 == u) by (bit_vector);
            }
            lemma_unescape_plain(u as u8, encode_utf8(pct_encoded(rest)));
            assert(seq![u as u8] + encode_utf8(rest) =~= encode_scalar(u) + encode_utf8(rest));
            assert(encode_utf8(s) == encode_scalar(u) + encode_utf8(rest));
        } else {
            assert(pct_encoded(s) == pct_bytes_escaped(encode_scalar(u)) + pct_encoded(rest));
            lemma_unescape_escaped_bytes(encode_scalar(u), pct_encoded(rest));
            assert(encode_scalar(u) + encode_utf8(rest) =~= encode_utf8(s)) by {
                assert(encode_utf8(s) == encode_scalar(u) + encode_utf8(rest));
            }
        }
    }
}

/// Every character of an escape triple is unreserved or the `%` itself.
proof fn lemma_pct_bytes_escaped_charset(bs: Seq<u8>)
    ensures
        forall|i: int|
            0 <= i < pct_bytes_escaped(bs).len() ==> is_unreserved(
                #[trigger] pct_bytes_escaped(bs)[i],
            ) || pct_bytes_escaped(bs)[i] == '%',
    decreases bs.len(),
{
    if bs.len() > 0 {
        lemma_pct_bytes_escaped_charset(bs.drop_first());
        let b = bs[0];
        lemma_hex_upper_code(b as int / 16);
        lemma_hex_upper_code(b as int % 16);
        let whole = pct_bytes_escaped(bs);
        let tail = pct_bytes_escaped(bs.drop_first());
        assert(whole == pct_byte(b) + tail);
        assert forall|i: int| 0 <= i < whole.len() implies is_unreserved(#[trigger] whole[i])
            || whole[i] == '%' by {
            if i < 3 {
                assert(whole[i] == pct_byte(b)[i]);
            } else {
                assert(whole[i] == tail[i - 3]);
            }
        }
    }
}

/// Every character that encoding emits is unreserved or the escape `%`.
pub proof fn lemma_pct_encoded_charset(s: Seq<char>)
    ensures
        forall|i: int|
            0 <= i < pct_encoded(s).len() ==> is_unreserved(#[trigger] pct_encoded(s)[i])
                || pct_encoded(s)[i] == '%',
    decreases s.len(),
{
    if s.len() > 0 {
        lemma_pct_encoded_charset(s.drop_first());
        if !is_unreserved(s[0]) {
            lemma_pct_bytes_escaped_charset(encode_scalar(s[0] as u32));
        }
        let whole = pct_encoded(s);
        let tail = pct_encoded(s.drop_first());
        let piece = if is_unreserved(s[0]) {
            seq![s[0]]
        } else {
            pct_bytes_escaped(encode_scalar(s[0] as u32))
        };
        assert(whole == piece + tail);
        assert forall|i: int| 0 <= i < whole.len() implies is_unreserved(#[trigger] whole[i])
            || whole[i] == '%' by {
            if i < piece.len() {
                assert(whole[i] == piece[i]);
            } else {
                assert(whole[i] == tail[i - piece.len()]);
            }
        }
    }
}

/// The round trip: what was encoded is well formed and decodes back to the
/// very characters that were encoded. The token cache persists encoded
/// tokens and reads them back through this law.
pub proof fn lemma_pct_round_trip(s: Seq<char>)
    ensures
        pct_ok(pct_encoded(s)),
        pct_decoded(pct_encoded(s)) == s,
{
    lemma_unescape_encoded(s);
    lemma_lax_decode_encode(s);
}

/// Relies on `pct_str::PctString::encode` with the `UriReserved::Any`
/// encoder: unreserved characters pass through, every other character has
/// each of its UTF-8 bytes written as an uppercase percent-escape.
#[verifier::external_body]
pub(crate) fn pct_encode(s: &str) -> (r: String)
    ensures
        r@ == pct_encoded(s@),
{
    pct_str::PctString::encode(s.chars(), pct_str::UriReserved::Any).into_string()
}

/// Relies on `pct_str::PctStr::new` and `pct_str::PctStr::decode`: `new`
/// accepts exactly the strings whose percent-escapes are well formed and
/// whose unescaped bytes pass the lax UTF-8 decoding of the utf8-decode
/// crate; `decode` returns the decoded characters.
#[verifier::external_body]
pub(crate) fn pct_decode(s: &str) -> (r: Option<String>)
    ensures
        r is Some <==> pct_ok(s@),
        r matches Some(d) ==> d@ == pct_decoded(s@),
{
    match pct_str::PctStr::new(s) {
        Ok(p) => Some(p.decode()),
        Err(_) => None,
    }
}

} // verus!
