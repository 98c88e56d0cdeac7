//! Text encodings of bytes and numbers: Base64 (standard alphabet, padded),
//! lower-case hex and decimal.

use vstd::prelude::*;
use base64::Engine;

verus! {

/// The Base64 symbol for the 6-bit value `v` (standard alphabet).
pub open spec fn b64_digit(v: int) -> char {
    if v < 26 {
        (65 + v) as char
    } else if v < 52 {
        (71 + v) as char
    } else if v < 62 {
        (v - 4) as char
    } else if v == 62 {
        '+'
    } else {
        '/'
    }
}

/// The 6-bit value of a Base64 symbol, or -1 for any other character.
pub open spec fn b64_value(c: char) -> int {
    let u = c as u32;
    if 65 <= u && u <= 90 {
        u - 65
    } else if 97 <= u && u <= 122 {
        u - 71
    } else if 48 <= u && u <= 57 {
        u + 4
    } else if c == '+' {
        62
    } else if c == '/' {
        63
    } else {
        -1
    }
}

/// The standard, padded Base64 encoding of `b`: each group of three bytes
/// becomes four symbols; a last group of one or two bytes is padded with
/// `=`.
pub open spec fn b64_encode(b: Seq<u8>) -> Seq<char>
    decreases b.len(),
{
    if b.len() == 0 {
        Seq::empty()
    } else if b.len() == 1 {
        let x0 = b[0] as int;
        seq![b64_digit(x0 / 4), b64_digit((x0 % 4) * 16), '=', '=']
    } else if b.len() == 2 {
        let x0 = b[0] as int;
        let x1 = b[1] as int;
        seq![b64_digit(x0 / 4), b64_digit((x0 % 4) * 16 + x1 / 16), b64_digit((x1 % 16) * 4), '=']
    } else {
        let x0 = b[0] as int;
        let x1 = b[1] as int;
        let x2 = b[2] as int;
        seq![
            b64_digit(x0 / 4),
            b64_digit((x0 % 4) * 16 + x1 / 16),
            b64_digit((x1 % 16) * 4 + x2 / 64),
            b64_digit(x2 % 64),
        ] + b64_encode(b.skip(3))
    }
}

/// The bytes whose standard Base64 encoding is `s`, if there are any.
pub open spec fn b64_decode(s: Seq<char>) -> Option<Seq<u8>> {
    if exists|b: Seq<u8>| b64_encode(b) == s {
        Some(choose|b: Seq<u8>| b64_encode(b) == s)
    } else {
        None
    }
}

/// Base64 text has four symbols for each started group of three bytes.
pub proof fn lemma_b64_len(b: Seq<u8>)
    ensures
        b64_encode(b).len() == 4 * ((b.len() + 2) / 3),
    decreases b.len(),
{
    if b.len() >= 3 {
        lemma_b64_len(b.skip(3));
    }
}

proof fn lemma_b64_digit(v: int)
    requires
        0 <= v < 64,
    ensures
        b64_value(b64_digit(v)) == v,
        b64_digit(v) != '=',
{
}

proof fn lemma_group3(x0: u8, x1: u8, x2: u8, y0: u8, y1: u8, y2: u8)
    requires
        x0 / 4 == y0 / 4,
        (x0 % 4) * 16 + x1 / 16 == (y0 % 4) * 16 + y1 / 16,
        (x1 % 16) * 4 + x2 / 64 == (y1 % 16) * 4 + y2 / 64,
        x2 % 64 == y2 % 64,
    ensures
        x0 == y0 && x1 == y1 && x2 == y2,
{
    assert(x0 == y0 && x1 == y1 && x2 == y2) by (bit_vector)
        requires
            x0 / 4 == y0 / 4,
            (x0 % 4) * 16 + x1 / 16 == (y0 % 4) * 16 + y1 / 16,
            (x1 % 16) * 4 + x2 / 64 == (y1 % 16) * 4 + y2 / 64,
            x2 % 64 == y2 % 64,
    ;
}

proof fn lemma_group2(x0: u8, x1: u8, y0: u8, y1: u8)
    requires
        x0 / 4 == y0 / 4,
        (x0 % 4) * 16 + x1 / 16 == (y0 % 4) * 16 + y1 / 16,
        (x1 % 16) * 4 == (y1 % 16) * 4,
    ensures
        x0 == y0 && x1 == y1,
{
    assert(x0 == y0 && x1 == y1) by (bit_vector)
        requires
            x0 / 4 == y0 / 4,
            (x0 % 4) * 16 + x1 / 16 == (y0 % 4) * 16 + y1 / 16,
            (x1 % 16) * 4 == (y1 % 16) * 4,
    ;
}

proof fn lemma_group1(x0: u8, y0: u8)
    requires
        x0 / 4 == y0 / 4,
        (x0 % 4) * 16 == (y0 % 4) * 16,
    ensures
        x0 == y0,
{
    assert(x0 == y0) by (bit_vector)
        requires
            x0 / 4 == y0 / 4,
            (x0 % 4) * 16 == (y0 % 4) * 16,
    ;
}

/// Equal digits of in-range values mean equal values.
proof fn lemma_digit_eq(v: int, w: int)
    requires
        0 <= v < 64,
        0 <= w < 64,
        b64_digit(v) == b64_digit(w),
    ensures
        v == w,
{
    lemma_b64_digit(v);
    lemma_b64_digit(w);
}

/// Standard Base64 encoding is one to one.
pub proof fn lemma_b64_injective(b1: Seq<u8>, b2: Seq<u8>)
    requires
        b64_encode(b1) == b64_encode(b2),
    ensures
        b1 == b2,
    decreases b1.len(),
{
    let e1 = b64_encode(b1);
    let e2 = b64_encode(b2);
    if b1.len() == 0 || b2.len() == 0 {
        if b1.len() != 0 {
            assert(e1.len() > 0);
        }
        if b2.len() != 0 {
            assert(e2.len() > 0);
        }
        assert(b1 =~= b2);
    } else {
        let x0 = b1[0];
        let a0 = x0 as int;
        let y0 = b2[0];
        let c0 = y0 as int;
        assert(e1[0] == e2[0]);
        lemma_digit_eq(a0 / 4, c0 / 4);
        if b1.len() == 1 || b2.len() == 1 {
            if b1.len() == 1 && b2.len() == 1 {
                lemma_digit_eq((a0 % 4) * 16, (c0 % 4) * 16);
                lemma_group1(x0, y0);
                assert(b1 =~= b2);
            } else if b1.len() == 1 {
                assert(e1[2] == '=');
                if b2.len() == 2 {
                    lemma_b64_digit((b2[1] as int % 16) * 4);
                } else {
                    lemma_b64_digit((b2[1] as int % 16) * 4 + b2[2] as int / 64);
                }
            } else {
                assert(e2[2] == '=');
                if b1.len() == 2 {
                    lemma_b64_digit((b1[1] as int % 16) * 4);
                } else {
                    lemma_b64_digit((b1[1] as int % 16) * 4 + b1[2] as int / 64);
                }
            }
        } else {
            let x1 = b1[1];
            let a1 = x1 as int;
            let y1 = b2[1];
            let c1 = y1 as int;
            assert(e1[1] == e2[1]);
            lemma_digit_eq((a0 % 4) * 16 + a1 / 16, (c0 % 4) * 16 + c1 / 16);
            if b1.len() == 2 || b2.len() == 2 {
                if b1.len() == 2 && b2.len() == 2 {
                    lemma_digit_eq((a1 % 16) * 4, (c1 % 16) * 4);
                    lemma_group2(x0, x1, y0, y1);
                    assert(b1 =~= b2);
                } else if b1.len() == 2 {
                    assert(e1[3] == '=');
                    lemma_b64_digit(b2[2] as int % 64);
                } else {
                    assert(e2[3] == '=');
                    lemma_b64_digit(b1[2] as int % 64);
                }
            } else {
                let x2 = b1[2];
                let a2 = x2 as int;
                let y2 = b2[2];
                let c2 = y2 as int;
                assert(e1[2] == e2[2]);
                assert(e1[3] == e2[3]);
                lemma_digit_eq((a1 % 16) * 4 + a2 / 64, (c1 % 16) * 4 + c2 / 64);
                lemma_digit_eq(a2 % 64, c2 % 64);
                lemma_group3(x0, x1, x2, y0, y1, y2);
                assert(b64_encode(b1.skip(3)) =~= e1.skip(4));
                assert(b64_encode(b2.skip(3)) =~= e2.skip(4));
                lemma_b64_injective(b1.skip(3), b2.skip(3));
                assert(b1 =~= seq![x0, x1, x2] + b1.skip(3));
                assert(b2 =~= seq![y0, y1, y2] + b2.skip(3));
            }
        }
    }
}

/// Decoding the standard Base64 encoding of `b` gives `b` back.
pub proof fn lemma_b64_round_trip(b: Seq<u8>)
    ensures
        b64_decode(b64_encode(b)) == Some(b),
{
    let s = b64_encode(b);
    assert(exists|x: Seq<u8>| b64_encode(x) == s);
    let c = choose|x: Seq<u8>| b64_encode(x) == s;
    lemma_b64_injective(c, b);
}

/// `base64::engine::general_purpose::STANDARD.encode`: the padded
/// standard-alphabet encoding, as [`b64_encode`] states it.
#[verifier::external_body]
pub(crate) fn base64_encode(b: &[u8]) -> (r: String)
    ensures
        r@ == b64_encode(b@),
{
    base64::engine::general_purpose::STANDARD.encode(b)
}

/// `base64::engine::general_purpose::STANDARD.decode`: with canonical
/// padding required and non-zero trailing bits refused, it accepts exactly
/// the encodings [`b64_encode`] gives and returns the bytes encoded; any
/// error is reported as `None`.
#[verifier::external_body]
pub(crate) fn base64_decode(s: &str) -> (r: Option<Vec<u8>>)
    ensures
        match r {
            Some(b) => b64_decode(s@) == Some(b@),
            None => b64_decode(s@) is None,
        },
{
    base64::engine::general_purpose::STANDARD.decode(s).ok()
}

/// The lower-case hex digit for `v` in `0..16`.
pub open spec fn hex_digit(v: int) -> char {
    if v < 10 {
        (48 + v) as char
    } else {
        (87 + v) as char
    }
}

/// The lower-case hex encoding of `b`, two digits per byte.
pub open spec fn hex_lower(b: Seq<u8>) -> Seq<char>
    decreases b.len(),
{
    if b.len() == 0 {
        Seq::empty()
    } else {
        seq![hex_digit(b[0] as int / 16), hex_digit(b[0] as int % 16)] + hex_lower(b.skip(1))
    }
}

/// `hex::encode`: two lower-case hex digits per byte, as [`hex_lower`]
/// states it.
#[verifier::external_body]
pub(crate) fn hex_encode(b: &[u8]) -> (r: String)
    ensures
        r@ == hex_lower(b@),
{
    hex::encode(b)
}

/// The length of the hex encoding is twice that of the bytes.
pub proof fn lemma_hex_len(b: Seq<u8>)
    ensures
        hex_lower(b).len() == 2 * b.len(),
    decreases b.len(),
{
    if b.len() > 0 {
        lemma_hex_len(b.skip(1));
    }
}

/// The decimal digit for `d` in `0..10`.
pub open spec fn dec_digit(d: int) -> char {
    (48 + d) as char
}

/// The decimal text of `n`, as `usize::to_string` writes it.
pub open spec fn decimal(n: nat) -> Seq<char>
    decreases n,
{
    if n < 10 {
        seq![dec_digit(n as int)]
    } else {
        decimal(n / 10).push(dec_digit((n % 10) as int))
    }
}

fn digit_char(d: usize) -> (c: char)
    requires
        d < 10,
    ensures
        c == dec_digit(d as int),
{
    let b: u8 = 48 + (d as u8);
    b as char
}

fn decimal_chars(n: usize) -> (r: Vec<char>)
    ensures
        r@ == decimal(n as nat),
    decreases n,
{
    if n < 10 {
        let mut v: Vec<char> = Vec::new();
        v.push(digit_char(n));
        assert(v@ =~= seq![dec_digit(n as int)]);
        v
    } else {
        let mut v = decimal_chars(n / 10);
        v.push(digit_char(n % 10));
        v
    }
}

/// The decimal text of `n`.
pub fn decimal_text(n: usize) -> (r: String)
    ensures
        r@ == decimal(n as nat),
{
    crate::text::string_from_chars(&decimal_chars(n))
}


/// No symbol of a Base64 encoding is whitespace, so trimming leaves it as
/// it is.
pub proof fn lemma_b64_no_whitespace(b: Seq<u8>)
    ensures
        forall|i: int| 0 <= i < b64_encode(b).len() ==> !crate::text::is_ws(#[trigger] b64_encode(b)[i]),
        crate::text::trim(b64_encode(b)) == b64_encode(b),
    decreases b.len(),
{
    let e = b64_encode(b);
    if b.len() >= 3 {
        lemma_b64_no_whitespace(b.skip(3));
        assert forall|i: int| 0 <= i < e.len() implies !crate::text::is_ws(#[trigger] e[i]) by {
            if i >= 4 {
                assert(e[i] == b64_encode(b.skip(3))[i - 4]);
            }
        }
    }
    if e.len() > 0 {
        assert(!crate::text::is_ws(e[0]));
        assert(!crate::text::is_ws(e.last()));
    }
    crate::text::lemma_trim_start_keep(e);
    assert(crate::text::trim_end(e) == e);
}

} // verus!
