//! Escaping loses nothing: an escaped text that was not cut short reads back, escape by escape,
//! to the bytes it came from, so distinct requests never render identically.

use vstd::prelude::*;

use crate::text::{digit_char, hex};
use crate::untrusted::{
    byte_piece, char_piece, escape_view, lemma_pieces_step, lemma_render_step, pieces, render,
    Piece,
};
use crate::utf8::{
    decode_first, lemma_encode_decoded, lemma_scalar_in_range,
    lemma_scalar_range, scalar_len, scalar_value, utf8_encode,
};

verus! {

pub open spec fn is_hex_digit(c: char) -> bool {
    ('0' <= c <= '9') || ('a' <= c <= 'f')
}

proof fn lemma_digit(d: nat)
    requires
        d < 16,
    ensures
        is_hex_digit(digit_char(d)),
{
    let x: int = if d < 10 { d + 48int } else { d + 87int };
    assert(digit_char(d) == x as char);
    assert((x as char) as int == x);
}

/// Hexadecimal renderings hold hex digits only, and at least as many as the width asks.
proof fn lemma_hex_digits(n: nat, w: nat)
    ensures
        hex(n, w).len() >= 1,
        hex(n, w).len() >= w,
        forall|i: int| 0 <= i < hex(n, w).len() ==> is_hex_digit(#[trigger] hex(n, w)[i]),
    decreases n, w,
{
    if n < 16 && w <= 1 {
        lemma_digit(n);
    } else {
        let w2: nat = if w > 0 { (w - 1) as nat } else { 0 };
        lemma_hex_digits(n / 16, w2);
        lemma_digit(n % 16);
    }
}

proof fn lemma_hex_two(n: nat)
    requires
        n < 256,
    ensures
        hex(n, 2).len() == 2,
{
    assert(hex(n / 16, 1).len() == 1);
}

/// The first piece of a non-empty byte string, and how many bytes it stands for.
pub open spec fn first_piece(x: Seq<u8>) -> (Piece, nat) {
    match decode_first(x) {
        Some((c, n)) => (char_piece(c), n),
        None => (byte_piece(x[0]), 1),
    }
}

/// What a first piece's text tells of the bytes behind it: a plain character stands for itself,
/// `\\` for a backslash, `\x` and two digits for one byte of that value, and `\u{...}` for the
/// character whose code point the digits give.
proof fn lemma_shape(x: Seq<u8>)
    requires
        x.len() > 0,
    ensures
        ({
            let t = first_piece(x).0.0;
            let n = first_piece(x).1;
            &&& t.len() >= 1
            &&& 1 <= n <= x.len()
            &&& t[0] != '\\' ==> t.len() == 1 && decode_first(x) == Some((t[0], n))
            &&& t[0] == '\\' ==> t.len() >= 2 && (t[1] == '\\' || t[1] == 'x' || t[1] == 'u')
            &&& t[0] == '\\' && t[1] == '\\' ==> t.len() == 2 && decode_first(x) == Some(('\\', n))
            &&& t[0] == '\\' && t[1] == 'x' ==> t.len() == 4 && n == 1 && t.subrange(2, 4) == hex(
                x[0] as nat,
                2,
            )
            &&& t[0] == '\\' && t[1] == 'u' ==> {
                &&& t.len() >= 5
                &&& t[2] == '{'
                &&& t[t.len() - 1] == '}'
                &&& forall|i: int| 3 <= i < t.len() - 1 ==> is_hex_digit(#[trigger] t[i])
                &&& decode_first(x) is Some
                &&& decode_first(x).unwrap().1 == n
                &&& t.subrange(3, t.len() - 1) == hex(decode_first(x).unwrap().0 as nat, 4)
            }
        }),
{
    let t = first_piece(x).0.0;
    match decode_first(x) {
        None => {
            lemma_hex_two(x[0] as nat);
            assert(t == seq!['\\', 'x'] + hex(x[0] as nat, 2));
            assert(t.subrange(2, 4) =~= hex(x[0] as nat, 2));
        },
        Some((c, n)) => {
            lemma_scalar_in_range(x);
            lemma_scalar_range(x);
            let v = scalar_value(x, n);
            assert(c == v as char);
            assert(c as int == v);
            if c == '\\' {
            } else if ' ' <= c <= '~' {
            } else if (c as u32) < 0x20 || c as u32 == 0x7f {
                assert(n == 1);
                assert(v == x[0]);
                lemma_hex_two(c as nat);
                assert(t == seq!['\\', 'x'] + hex(c as nat, 2));
                assert(t.subrange(2, 4) =~= hex(x[0] as nat, 2));
            } else if crate::untrusted::category_escaped(crate::category::unicode_category(c)) {
                let h = hex(c as nat, 4);
                lemma_hex_digits(c as nat, 4);
                assert(t == seq!['\\', 'u', '{'] + h + seq!['}']);
                assert(t.subrange(3, t.len() - 1) =~= h);
                assert forall|i: int| 3 <= i < t.len() - 1 implies is_hex_digit(#[trigger] t[i]) by {
                    assert(t[i] == h[i - 3]);
                }
            } else {
            }
        },
    }
}

/// The value of a hex digit.
pub open spec fn digit_value(c: char) -> nat {
    if '0' <= c <= '9' {
        (c as nat - 48) as nat
    } else {
        (c as nat - 87) as nat
    }
}

/// The number that a string of hex digits spells.
pub open spec fn hex_value(t: Seq<char>) -> nat
    decreases t.len(),
{
    if t.len() == 0 {
        0
    } else {
        hex_value(t.drop_last()) * 16 + digit_value(t.last())
    }
}

/// The first index at or after `i` that holds `}`, or the length of `t` if none does.
pub open spec fn closing(t: Seq<char>, i: int) -> int
    decreases t.len() - i,
{
    if i < 0 || i >= t.len() {
        t.len() as int
    } else if t[i] == '}' {
        i
    } else {
        closing(t, i + 1)
    }
}

/// Reads escaped text back into bytes: `\\` is a backslash, `\xNN` the byte `0xNN`, `\u{H}` the
/// UTF-8 of U+H, and any other character its own UTF-8.
pub open spec fn unescape(t: Seq<char>) -> Seq<u8>
    decreases t.len(),
{
    if t.len() == 0 {
        seq![]
    } else if t[0] != '\\' {
        utf8_encode(t[0] as int) + unescape(t.skip(1))
    } else if t.len() >= 2 && t[1] == '\\' {
        seq![0x5Cu8] + unescape(t.skip(2))
    } else if t.len() >= 4 && t[1] == 'x' {
        seq![hex_value(t.subrange(2, 4)) as u8] + unescape(t.skip(4))
    } else if t.len() >= 3 && t[1] == 'u' && t[2] == '{' && closing(t, 3) < t.len() {
        proof {
            lemma_closing_bounds(t, 3);
        }
        utf8_encode(hex_value(t.subrange(3, closing(t, 3))) as int) + unescape(
            t.skip(closing(t, 3) + 1),
        )
    } else {
        seq![]
    }
}

/// The closing index found from `i` is `i` or later, unless none was found.
pub proof fn lemma_closing_bounds(t: Seq<char>, i: int)
    requires
        0 <= i,
    ensures
        i <= closing(t, i) || closing(t, i) == t.len(),
        closing(t, i) <= t.len(),
    decreases t.len() - i,
{
    if i < t.len() && t[i] != '}' {
        lemma_closing_bounds(t, i + 1);
    }
}

proof fn lemma_digit_value(d: nat)
    requires
        d < 16,
    ensures
        digit_value(digit_char(d)) == d,
{
    let x: int = if d < 10 { d + 48int } else { d + 87int };
    assert(digit_char(d) == x as char);
    assert((x as char) as int == x);
}

/// Reading a number's hex digits gives the number back.
proof fn lemma_hex_value(n: nat, w: nat)
    ensures
        hex_value(hex(n, w)) == n,
    decreases n, w,
{
    if n < 16 && w <= 1 {
        lemma_digit_value(n);
        let t = hex(n, w);
        assert(t.drop_last() =~= Seq::<char>::empty());
        assert(t.last() == digit_char(n));
        assert(hex_value(t) == hex_value(t.drop_last()) * 16 + digit_value(t.last()));
        assert(hex_value(Seq::<char>::empty()) == 0);
    } else {
        let w2: nat = if w > 0 { (w - 1) as nat } else { 0 };
        lemma_hex_value(n / 16, w2);
        lemma_digit_value(n % 16);
        let t = hex(n, w);
        assert(t.drop_last() =~= hex(n / 16, w2));
        assert(t.last() == digit_char(n % 16));
        assert(hex_value(t) == hex_value(t.drop_last()) * 16 + digit_value(t.last()));
        assert(n == 16 * (n / 16) + n % 16) by (nonlinear_arith);
    }
}

/// In `\u{` followed by hex digits, the first `}` is the one that closes them.
proof fn lemma_closing_after_digits(t: Seq<char>, i: int, k: int)
    requires
        3 <= i <= k < t.len(),
        t[k] == '}',
        forall|j: int| 3 <= j < k ==> is_hex_digit(#[trigger] t[j]),
    ensures
        closing(t, i) == k,
    decreases k - i,
{
    if i < k {
        assert(is_hex_digit(t[i]));
        lemma_closing_after_digits(t, i + 1, k);
    }
}

/// Unescaping a first piece's text, followed by anything, gives back the bytes the piece stands
/// for, followed by the unescaping of what follows.
proof fn lemma_unescape_first(x: Seq<u8>, rest: Seq<char>)
    requires
        x.len() > 0,
    ensures
        unescape(first_piece(x).0.0 + rest) == x.take(first_piece(x).1 as int) + unescape(rest),
{
    lemma_shape(x);
    let t = first_piece(x).0.0;
    let n = first_piece(x).1;
    let u = t + rest;
    assert(u.skip(t.len() as int) =~= rest);
    if t[0] != '\\' || t[1] == '\\' || t[1] == 'u' {
        // A character decoded at the start of x.
        lemma_scalar_in_range(x);
        lemma_scalar_range(x);
        lemma_encode_decoded(x);
        let v = scalar_value(x, scalar_len(x));
        let c = decode_first(x).unwrap().0;
        assert(c == v as char);
        assert(c as int == v);
        if t[0] != '\\' {
            assert(u[0] == c);
        } else if t[1] == '\\' {
            assert(u[1] == '\\');
            assert(v == 0x5C);
            assert(x.take(n as int) =~= seq![0x5Cu8]);
        } else {
            let k = t.len() - 1;
            assert forall|j: int| 3 <= j < k implies is_hex_digit(#[trigger] u[j]) by {
                assert(u[j] == t[j]);
            }
            lemma_closing_after_digits(u, 3, k);
            assert(u.subrange(3, k) =~= t.subrange(3, k));
            lemma_hex_value(c as nat, 4);
            assert(u.skip(k + 1) =~= rest);
        }
    } else {
        assert(t[1] == 'x');
        assert(u.subrange(2, 4) =~= t.subrange(2, 4));
        lemma_hex_value(x[0] as nat, 2);
        assert(x.take(1) =~= seq![x[0]]);
    }
}

/// Unescaping a rendering that was not cut short gives back the bytes.
proof fn lemma_render_round_trip(bytes: Seq<u8>, room: int)
    requires
        !render(pieces(bytes), room).2,
    ensures
        unescape(render(pieces(bytes), room).0) == bytes,
    decreases bytes.len(),
{
    if bytes.len() == 0 {
        assert(bytes =~= Seq::<u8>::empty());
    } else {
        lemma_pieces_step(bytes, 0);
        assert(bytes.skip(0) =~= bytes);
        lemma_shape(bytes);
        let (p, n) = first_piece(bytes);
        let rest = pieces(bytes.skip(n as int));
        assert(pieces(bytes) == seq![p] + rest);
        lemma_render_step(p, rest, room);
        let r = render(rest, room - p.0.len());
        lemma_render_round_trip(bytes.skip(n as int), room - p.0.len());
        lemma_unescape_first(bytes, r.0);
        assert(bytes =~= bytes.take(n as int) + bytes.skip(n as int));
    }
}

/// Escaping round-trips: reading an escaped text that was not cut short back with [`unescape`]
/// gives the original bytes.
pub proof fn escaping_round_trips(bytes: Seq<u8>, limit: int)
    requires
        !escape_view(bytes, limit).2,
    ensures
        unescape(escape_view(bytes, limit).0) == bytes,
{
    lemma_render_round_trip(bytes, limit);
}

/// Escaping is unambiguous: two byte strings whose escaped texts are the same, neither of them cut
/// short by the limit, are the same bytes.
pub proof fn escaping_is_unambiguous(a: Seq<u8>, b: Seq<u8>, limit: int)
    requires
        escape_view(a, limit).0 == escape_view(b, limit).0,
        !escape_view(a, limit).2,
        !escape_view(b, limit).2,
    ensures
        a == b,
{
    escaping_round_trips(a, limit);
    escaping_round_trips(b, limit);
}

/// A code point takes at most six hex digits at width four.
pub proof fn lemma_hex_short(n: nat)
    requires
        n < 0x1000000,
    ensures
        hex(n, 4).len() <= 6,
{
    assert(hex(n / 0x10000, 0).len() <= 2) by {
        if n / 0x10000 >= 16 {
            assert(hex(n / 0x100000, 0).len() == 1);
        }
    }
    assert(hex(n / 0x1000, 1).len() <= 3);
    assert(hex(n / 0x100, 2).len() <= 4);
    assert(hex(n / 16, 3).len() <= 5);
}

} // verus!
