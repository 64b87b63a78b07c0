//! Text building blocks: digits, numbers rendered in decimal and hexadecimal, and `String`s built
//! from characters.

use vstd::prelude::*;
use vstd::string::*;

use crate::utf8::{decode_first, is_cont};

verus! {

/// The character of a digit in base 16 (lowercase), which for values below ten is the decimal one.
pub open spec fn digit_char(d: nat) -> char {
    if d < 10 {
        (d + 48) as char
    } else {
        (d + 87) as char
    }
}

pub fn digit(d: u64) -> (c: char)
    requires
        d < 16,
    ensures
        c == digit_char(d as nat),
{
    if d < 10 {
        ((d as u8) + 48) as char
    } else {
        ((d as u8) + 87) as char
    }
}

/// `n` in decimal, without leading zeros.
pub open spec fn decimal(n: nat) -> Seq<char>
    decreases n,
{
    if n < 10 {
        seq![digit_char(n)]
    } else {
        decimal(n / 10).push(digit_char(n % 10))
    }
}

/// `n` in lowercase hexadecimal, zero-padded to at least `width` digits.
pub open spec fn hex(n: nat, width: nat) -> Seq<char>
    decreases n, width,
{
    if n < 16 && width <= 1 {
        seq![digit_char(n)]
    } else {
        hex(n / 16, if width > 0 { (width - 1) as nat } else { 0 }).push(digit_char(n % 16))
    }
}

/// Appends `n` in decimal.
pub fn push_decimal(out: &mut Vec<char>, n: u64)
    ensures
        final(out)@ == old(out)@ + decimal(n as nat),
    decreases n,
{
    if n < 10 {
        out.push(digit(n));
    } else {
        push_decimal(out, n / 10);
        out.push(digit(n % 10));
    }
}

/// Appends `n` in hexadecimal, zero-padded to `width` digits.
pub fn push_hex(out: &mut Vec<char>, n: u32, width: u32)
    ensures
        final(out)@ == old(out)@ + hex(n as nat, width as nat),
    decreases n, width,
{
    if n < 16 && width <= 1 {
        out.push(digit(n as u64));
    } else {
        let w: u32 = if width > 0 { width - 1 } else { 0 };
        push_hex(out, n / 16, w);
        out.push(digit((n % 16) as u64));
    }
}

/// The characters of `n` in decimal.
pub fn decimal_chars(n: u64) -> (r: Vec<char>)
    ensures
        r@ == decimal(n as nat),
{
    let mut v: Vec<char> = Vec::new();
    push_decimal(&mut v, n);
    assert(v@ =~= decimal(n as nat));
    v
}

/// The ASCII bytes of `n` in decimal.
pub fn decimal_bytes(n: u64) -> (r: Vec<u8>)
    ensures
        r@ == crate::bytes::ascii_of(decimal(n as nat)),
{
    let cs = decimal_chars(n);
    let mut out: Vec<u8> = Vec::new();
    let len = cs.len();
    for i in 0..len
        invariant
            len == cs@.len(),
            cs@ == decimal(n as nat),
            out@ =~= crate::bytes::ascii_of(cs@).take(i as int),
    {
        out.push(cs[i] as u8);
    }
    assert(out@ =~= crate::bytes::ascii_of(cs@));
    out
}

/// A `String` holding exactly the given characters (std's `String::from_iter`).
#[verifier::external_body]
pub(crate) fn string_of(chars: &Vec<char>) -> (s: String)
    ensures
        s@ == chars@,
{
    String::from_iter(chars.iter())
}

/// How many bytes at the start of `s`, where no well-formed scalar starts, one U+FFFD replaces:
/// the longest prefix that could still begin a well-formed sequence, and at least one byte.
pub open spec fn invalid_len(s: Seq<u8>) -> nat {
    let b = s[0];
    if 0xE0 <= b <= 0xEF || 0xF0 <= b <= 0xF4 {
        let lo: u8 = if b == 0xE0 { 0xA0 } else if b == 0xF0 { 0x90 } else { 0x80 };
        let hi: u8 = if b == 0xED { 0x9F } else if b == 0xF4 { 0x8F } else { 0xBF };
        if s.len() >= 2 && lo <= s[1] <= hi {
            if b >= 0xF0 && s.len() >= 3 && is_cont(s[2]) { 3 } else { 2 }
        } else {
            1
        }
    } else {
        1
    }
}

/// What std's `String::from_utf8_lossy` makes of a byte string: the UTF-8 decoding, with each
/// maximal subpart of an ill-formed sequence replaced by one U+FFFD.
pub open spec fn utf8_lossy(bytes: Seq<u8>) -> Seq<char>
    decreases bytes.len(),
{
    if bytes.len() == 0 {
        seq![]
    } else {
        match decode_first(bytes) {
            Some((c, n)) => if 1 <= n <= bytes.len() {
                seq![c] + utf8_lossy(bytes.skip(n as int))
            } else {
                seq![]
            },
            None => {
                let k = invalid_len(bytes);
                if k <= bytes.len() {
                    seq!['\u{FFFD}'] + utf8_lossy(bytes.skip(k as int))
                } else {
                    seq!['\u{FFFD}']
                }
            },
        }
    }
}

/// std's `String::from_utf8_lossy`, owned. Its documentation replaces each ill-formed sequence by
/// U+FFFD, and `Utf8Chunks`, which it is built on, documents the substitution of maximal subparts
/// that [`utf8_lossy`] states.
#[verifier::external_body]
pub(crate) fn lossy(bytes: &[u8]) -> (s: String)
    ensures
        s@ == utf8_lossy(bytes@),
{
    String::from_utf8_lossy(bytes).into_owned()
}

/// A `String` holding a literal followed by more text.
pub fn join2(a: &str, b: &str) -> (s: String)
    ensures
        s@ == a@ + b@,
{
    let mut s = String::from_str(a);
    s.append(b);
    s
}

/// A `String` holding three pieces of text in order.
pub fn join3(a: &str, b: &str, c: &str) -> (s: String)
    ensures
        s@ == a@ + b@ + c@,
{
    let mut s = String::from_str(a);
    s.append(b);
    s.append(c);
    s
}

/// `n` in decimal, as a `String`.
pub fn decimal_string(n: u64) -> (s: String)
    ensures
        s@ == decimal(n as nat),
{
    string_of(&decimal_chars(n))
}

/// A signed number in decimal, with a leading `-` when it is negative.
pub open spec fn signed_decimal(n: int) -> Seq<char> {
    if n < 0 {
        seq!['-'] + decimal((-n) as nat)
    } else {
        decimal(n as nat)
    }
}

/// `n` in decimal, as a `String`, with a leading `-` when it is negative.
pub fn signed_string(n: i32) -> (s: String)
    ensures
        s@ == signed_decimal(n as int),
{
    if n < 0 {
        let magnitude: u64 = (0i64 - (n as i64)) as u64;
        let mut cs: Vec<char> = Vec::new();
        cs.push('-');
        push_decimal(&mut cs, magnitude);
        assert(cs@ =~= seq!['-'] + decimal((-n) as nat));
        string_of(&cs)
    } else {
        decimal_string(n as u64)
    }
}

/// Appends `t` to `s`.
pub fn append(s: &mut String, t: &str)
    ensures
        final(s)@ == old(s)@ + t@,
{
    s.append(t);
}

} // verus!
