//! Decoding one UTF-8 scalar value at a time, by the well-formed byte sequences of the Unicode
//! Standard (table 3-7): no overlong forms, no encoded surrogates, nothing above U+10FFFF.

use vstd::arithmetic::div_mod::lemma_fundamental_div_mod_converse;
use vstd::prelude::*;

verus! {

pub open spec fn is_cont(b: u8) -> bool {
    0x80 <= b <= 0xBF
}

/// Length of the well-formed scalar encoding at the start of `s`, or 0 if none starts there.
pub open spec fn scalar_len(s: Seq<u8>) -> nat {
    if s.len() == 0 {
        0
    } else if s[0] <= 0x7F {
        1
    } else if 0xC2 <= s[0] <= 0xDF {
        if s.len() >= 2 && is_cont(s[1]) { 2 } else { 0 }
    } else if 0xE0 <= s[0] <= 0xEF {
        let lo: u8 = if s[0] == 0xE0 { 0xA0 } else { 0x80 };
        let hi: u8 = if s[0] == 0xED { 0x9F } else { 0xBF };
        if s.len() >= 3 && lo <= s[1] <= hi && is_cont(s[2]) { 3 } else { 0 }
    } else if 0xF0 <= s[0] <= 0xF4 {
        let lo: u8 = if s[0] == 0xF0 { 0x90 } else { 0x80 };
        let hi: u8 = if s[0] == 0xF4 { 0x8F } else { 0xBF };
        if s.len() >= 4 && lo <= s[1] <= hi && is_cont(s[2]) && is_cont(s[3]) { 4 } else { 0 }
    } else {
        0
    }
}

/// The code point encoded by the first `n` bytes of `s`.
pub open spec fn scalar_value(s: Seq<u8>, n: nat) -> int {
    if n == 1 {
        s[0] as int
    } else if n == 2 {
        (s[0] - 0xC0) * 64 + (s[1] - 0x80)
    } else if n == 3 {
        (s[0] - 0xE0) * 4096 + (s[1] - 0x80) * 64 + (s[2] - 0x80)
    } else {
        (s[0] - 0xF0) * 262144 + (s[1] - 0x80) * 4096 + (s[2] - 0x80) * 64 + (s[3] - 0x80)
    }
}

pub open spec fn is_scalar(v: int) -> bool {
    0 <= v <= 0x10FFFF && !(0xD800 <= v <= 0xDFFF)
}

/// The scalar value at the start of `s` and its encoded length, if one is well formed there.
pub open spec fn decode_first(s: Seq<u8>) -> Option<(char, nat)> {
    let n = scalar_len(s);
    if n == 0 {
        None
    } else {
        Some((scalar_value(s, n) as char, n))
    }
}

pub proof fn lemma_scalar_in_range(s: Seq<u8>)
    requires
        scalar_len(s) > 0,
    ensures
        is_scalar(scalar_value(s, scalar_len(s))),
        scalar_len(s) <= s.len(),
{
}

/// std's `char::from_u32`: the character of a scalar value, and `None` for a surrogate or a value
/// above U+10FFFF.
#[verifier::external_body]
fn char_from_u32(v: u32) -> (c: Option<char>)
    ensures
        c == (if is_scalar(v as int) { Some(v as char) } else { None }),
{
    char::from_u32(v)
}

/// Decode the scalar value starting at `s[i]`.
pub fn decode_at(s: &[u8], i: usize) -> (r: Option<(char, usize)>)
    requires
        i <= s@.len(),
    ensures
        r == (match decode_first(s@.skip(i as int)) {
            Some((c, n)) => Some((c, n as usize)),
            None => None,
        }),
        r matches Some((_, n)) ==> 1 <= n <= 4 && i + n <= s@.len(),
{
    let ghost t = s@.skip(i as int);
    if i >= s.len() {
        return None;
    }
    let b0 = s[i];
    let rest = s.len() - i;
    let (n, v): (usize, u32) = if b0 <= 0x7F {
        (1, b0 as u32)
    } else if 0xC2 <= b0 && b0 <= 0xDF {
        if rest >= 2 && 0x80 <= s[i + 1] && s[i + 1] <= 0xBF {
            (2, ((b0 - 0xC0) as u32) * 64 + ((s[i + 1] - 0x80) as u32))
        } else {
            return None;
        }
    } else if 0xE0 <= b0 && b0 <= 0xEF {
        let lo: u8 = if b0 == 0xE0 { 0xA0 } else { 0x80 };
        let hi: u8 = if b0 == 0xED { 0x9F } else { 0xBF };
        if rest >= 3 && lo <= s[i + 1] && s[i + 1] <= hi && 0x80 <= s[i + 2] && s[i + 2] <= 0xBF {
            (3, ((b0 - 0xE0) as u32) * 4096 + ((s[i + 1] - 0x80) as u32) * 64 + ((s[i + 2]
                - 0x80) as u32))
        } else {
            return None;
        }
    } else if 0xF0 <= b0 && b0 <= 0xF4 {
        let lo: u8 = if b0 == 0xF0 { 0x90 } else { 0x80 };
        let hi: u8 = if b0 == 0xF4 { 0x8F } else { 0xBF };
        if rest >= 4 && lo <= s[i + 1] && s[i + 1] <= hi && 0x80 <= s[i + 2] && s[i + 2] <= 0xBF
            && 0x80 <= s[i + 3] && s[i + 3] <= 0xBF {
            (4, ((b0 - 0xF0) as u32) * 262144 + ((s[i + 1] - 0x80) as u32) * 4096 + ((s[i + 2]
                - 0x80) as u32) * 64 + ((s[i + 3] - 0x80) as u32))
        } else {
            return None;
        }
    } else {
        return None;
    };
    assert(scalar_len(t) == n);
    assert(scalar_value(t, n as nat) == v);
    proof {
        lemma_scalar_in_range(t);
    }
    match char_from_u32(v) {
        Some(c) => Some((c, n)),
        None => None,
    }
}

/// The range of values each encoded length can hold: the forms are not overlong.
pub(crate) proof fn lemma_scalar_range(s: Seq<u8>)
    requires
        scalar_len(s) > 0,
    ensures
        scalar_len(s) == 1 ==> 0 <= scalar_value(s, 1) < 0x80,
        scalar_len(s) == 2 ==> 0x80 <= scalar_value(s, 2) < 0x800,
        scalar_len(s) == 3 ==> 0x800 <= scalar_value(s, 3) < 0x10000,
        scalar_len(s) == 4 ==> 0x10000 <= scalar_value(s, 4) < 0x110000,
{
}

/// The well-formed UTF-8 encoding of the scalar value `v`.
pub open spec fn utf8_encode(v: int) -> Seq<u8> {
    if v < 0x80 {
        seq![v as u8]
    } else if v < 0x800 {
        seq![(0xC0 + v / 64) as u8, (0x80 + v % 64) as u8]
    } else if v < 0x10000 {
        seq![(0xE0 + v / 4096) as u8, (0x80 + (v / 64) % 64) as u8, (0x80 + v % 64) as u8]
    } else {
        seq![
            (0xF0 + v / 262144) as u8,
            (0x80 + (v / 4096) % 64) as u8,
            (0x80 + (v / 64) % 64) as u8,
            (0x80 + v % 64) as u8,
        ]
    }
}

/// Encoding the scalar value decoded at the start of `s` gives back the bytes it was decoded from.
pub proof fn lemma_encode_decoded(s: Seq<u8>)
    requires
        scalar_len(s) > 0,
    ensures
        utf8_encode(scalar_value(s, scalar_len(s))) == s.take(scalar_len(s) as int),
{
    lemma_scalar_range(s);
    let n = scalar_len(s);
    let v = scalar_value(s, n);
    if n == 1 {
    } else if n == 2 {
        let a = s[0] - 0xC0;
        let b = s[1] - 0x80;
        lemma_fundamental_div_mod_converse(v, 64, a, b);
    } else if n == 3 {
        let a = s[0] - 0xE0;
        let b = s[1] - 0x80;
        let c = s[2] - 0x80;
        lemma_fundamental_div_mod_converse(v, 64, a * 64 + b, c);
        lemma_fundamental_div_mod_converse(v / 64, 64, a, b);
        assert(v == a * 4096 + (b * 64 + c));
        lemma_fundamental_div_mod_converse(v, 4096, a, b * 64 + c);
    } else {
        let a = s[0] - 0xF0;
        let b = s[1] - 0x80;
        let c = s[2] - 0x80;
        let d = s[3] - 0x80;
        lemma_fundamental_div_mod_converse(v, 64, (a * 64 + b) * 64 + c, d);
        lemma_fundamental_div_mod_converse(v / 64, 64, a * 64 + b, c);
        assert(v == (a * 64 + b) * 4096 + (c * 64 + d));
        lemma_fundamental_div_mod_converse(v, 4096, a * 64 + b, c * 64 + d);
        lemma_fundamental_div_mod_converse(v / 4096, 64, a, b);
        assert(v == a * 262144 + (b * 4096 + c * 64 + d));
        lemma_fundamental_div_mod_converse(v, 262144, a, b * 4096 + c * 64 + d);
    }
    assert(utf8_encode(v) =~= s.take(n as int));
}

} // verus!
