//! Caller-controlled bytes, and the only path that turns them into displayable text.
//!
//! [`Untrusted`] deliberately implements neither `Display` nor `Deref<Target = str>`, so it cannot
//! be interpolated into a format string, concatenated with trusted prose, or handed to anything
//! expecting a `&str`. The single way to get it on screen is to escape it into an [`Escaped`].

use vstd::prelude::*;
use vstd::string::*;

use crate::category::{category, unicode_category};
use crate::text::{decimal, decimal_chars, hex, push_hex, string_of};
use crate::utf8::{decode_at, decode_first};

verus! {

/// Cap on the rendered length of a single token, in characters. Far above any realistic argument.
pub const MAX_TOKEN_CHARS: usize = 4096;

/// Bytes that came from outside the trust boundary: argv, cwd, environment values.
#[derive(Clone, Debug, PartialEq, Eq)]
pub struct Untrusted(Vec<u8>);

impl View for Untrusted {
    type V = Seq<u8>;

    closed spec fn view(&self) -> Seq<u8> {
        self.0@
    }
}

impl Untrusted {
    pub fn from_bytes(bytes: Vec<u8>) -> (u: Self)
        ensures
            u@ == bytes@,
    {
        Untrusted(bytes)
    }

    pub fn as_bytes(&self) -> (b: &[u8])
        ensures
            b@ == self@,
    {
        self.0.as_slice()
    }

    pub fn byte_len(&self) -> (n: usize)
        ensures
            n == self@.len(),
    {
        self.0.len()
    }

    pub fn is_empty(&self) -> (r: bool)
        ensures
            r == (self@.len() == 0),
    {
        self.0.len() == 0
    }
}

/// One rendered unit: its characters, and whether it neutralised unsafe content.
pub type Piece = (Seq<char>, bool);

/// Whether a general category abbreviation is `a` followed by `b`.
pub open spec fn is_code(code: Seq<char>, a: char, b: char) -> bool {
    code.len() == 2 && code[0] == a && code[1] == b
}

/// Categories whose characters are shown as `\u{...}`: controls (`Cc`, the C1 controls by the
/// time this is asked), format characters such as bidi controls and zero-width joiners (`Cf`),
/// surrogates (`Cs`), private use (`Co`), unassigned code points (`Cn`), and the separators
/// (`Zs`, `Zl`, `Zp`), since U+2028 and U+2029 are mandatory line breaks and non-ASCII spaces fake
/// alignment. Every other category is shown as it is.
pub open spec fn category_escaped(code: Seq<char>) -> bool {
    ||| is_code(code, 'C', 'c')
    ||| is_code(code, 'C', 'f')
    ||| is_code(code, 'C', 's')
    ||| is_code(code, 'C', 'o')
    ||| is_code(code, 'C', 'n')
    ||| is_code(code, 'Z', 's')
    ||| is_code(code, 'Z', 'l')
    ||| is_code(code, 'Z', 'p')
}

/// How one decoded character is rendered.
pub open spec fn char_piece(c: char) -> Piece {
    if c == '\\' {
        (seq!['\\', '\\'], false)
    } else if ' ' <= c <= '~' {
        (seq![c], false)
    } else if (c as u32) < 0x20 || c as u32 == 0x7f {
        (seq!['\\', 'x'] + hex(c as nat, 2), true)
    } else if category_escaped(unicode_category(c)) {
        (seq!['\\', 'u', '{'] + hex(c as nat, 4) + seq!['}'], true)
    } else {
        (seq![c], false)
    }
}

/// How one byte that is not part of a well-formed UTF-8 sequence is rendered.
pub open spec fn byte_piece(b: u8) -> Piece {
    (seq!['\\', 'x'] + hex(b as nat, 2), true)
}

/// The rendering of a byte string, piece by piece, before any length limit: well-formed UTF-8
/// scalars one by one, and every other byte on its own.
pub open spec fn pieces(bytes: Seq<u8>) -> Seq<Piece>
    decreases bytes.len(),
{
    if bytes.len() == 0 {
        seq![]
    } else {
        match decode_first(bytes) {
            Some((c, n)) => if 1 <= n <= bytes.len() {
                seq![char_piece(c)] + pieces(bytes.skip(n as int))
            } else {
                seq![]
            },
            None => seq![byte_piece(bytes[0])] + pieces(bytes.skip(1)),
        }
    }
}

/// Lays pieces out into at most `room` characters, stopping at the first piece that does not
/// fit. The flags say whether any piece laid out, or the one that did not fit, neutralised
/// something, and whether a piece was left out.
pub open spec fn render(ps: Seq<Piece>, room: int) -> (Seq<char>, bool, bool)
    decreases ps.len(),
{
    if ps.len() == 0 {
        (seq![], false, false)
    } else if ps[0].0.len() > room {
        (seq![], ps[0].1, true)
    } else {
        let r = render(ps.drop_first(), room - ps[0].0.len());
        (ps[0].0 + r.0, ps[0].1 || r.1, r.2)
    }
}

/// What escaping `bytes` with a limit of `limit` characters yields.
pub open spec fn escape_view(bytes: Seq<u8>, limit: int) -> (Seq<char>, bool, bool) {
    render(pieces(bytes), limit)
}

/// Bytes that need no shell quoting to be read back as one token.
pub open spec fn unquoted_ok(b: u8) -> bool {
    (0x41 <= b <= 0x5A) || (0x61 <= b <= 0x7A) || (0x30 <= b <= 0x39) || b == 0x5F || b == 0x40
        || b == 0x25 || b == 0x2B || b == 0x3D || b == 0x3A || b == 0x2C || b == 0x2E || b == 0x2F
        || b == 0x2D
}

/// Whether `bytes` must be single-quoted; `~` is tolerated when `tilde` is set.
pub open spec fn needs_quotes(bytes: Seq<u8>, tilde: bool) -> bool {
    bytes.len() == 0 || exists|i: int|
        0 <= i < bytes.len() && !(unquoted_ok(bytes[i]) || (tilde && bytes[i] == 0x7E))
}

/// `t` with each `'` replaced by `'\''`.
pub open spec fn requote(t: Seq<char>) -> Seq<char>
    decreases t.len(),
{
    if t.len() == 0 {
        seq![]
    } else {
        (if t[0] == '\'' { seq!['\'', '\\', '\'', '\''] } else { seq![t[0]] }) + requote(
            t.drop_first(),
        )
    }
}

/// Escaped and, where [`needs_quotes`] says so, single-quoted.
pub open spec fn quoted_view(bytes: Seq<u8>, tilde: bool) -> (Seq<char>, bool, bool) {
    let e = escape_view(bytes, MAX_TOKEN_CHARS as int);
    if needs_quotes(bytes, tilde) {
        (seq!['\''] + requote(e.0) + seq!['\''], e.1, e.2)
    } else {
        e
    }
}

/// The concatenation of several escaped texts; a flag is set if any part has it set.
pub open spec fn concat_views(vs: Seq<(Seq<char>, bool, bool)>) -> (Seq<char>, bool, bool)
    decreases vs.len(),
{
    if vs.len() == 0 {
        (seq![], false, false)
    } else {
        let r = concat_views(vs.drop_last());
        (r.0 + vs.last().0, r.1 || vs.last().1, r.2 || vs.last().2)
    }
}

/// Text that is safe to put on screen: escaped caller data, compiled-in prose, or numbers.
#[derive(Debug, PartialEq, Eq)]
pub struct Escaped {
    text: String,
    escaped: bool,
    truncated: bool,
}

impl View for Escaped {
    /// The text, whether unsafe content was neutralised, and whether anything was cut.
    type V = (Seq<char>, bool, bool);

    closed spec fn view(&self) -> (Seq<char>, bool, bool) {
        (self.text@, self.escaped, self.truncated)
    }
}

impl Clone for Escaped {
    fn clone(&self) -> (r: Self)
        ensures
            r@ == self@,
    {
        Escaped { text: self.text.clone(), escaped: self.escaped, truncated: self.truncated }
    }
}

/// The views of a list of escaped texts.
pub open spec fn views(es: Seq<Escaped>) -> Seq<(Seq<char>, bool, bool)> {
    es.map_values(|e: Escaped| e@)
}

impl Escaped {
    /// Compiled-in prose. `&'static str` is the type-level evidence that it is not caller data.
    pub fn literal(s: &'static str) -> (e: Self)
        ensures
            e@ == (s@, false, false),
    {
        Escaped { text: String::from_str(s), escaped: false, truncated: false }
    }

    /// A number sudo-prompt computed itself.
    pub fn number(n: u64) -> (e: Self)
        ensures
            e@ == (decimal(n as nat), false, false),
    {
        let digits = decimal_chars(n);
        Escaped { text: string_of(&digits), escaped: false, truncated: false }
    }

    pub fn concat(parts: Vec<Escaped>) -> (e: Self)
        ensures
            e@ == concat_views(views(parts@)),
    {
        let mut text = String::new();
        let mut escaped = false;
        let mut truncated = false;
        let n = parts.len();
        for i in 0..n
            invariant
                n == parts@.len(),
                (text@, escaped, truncated) == concat_views(views(parts@).take(i as int)),
        {
            let p = &parts[i];
            text.append(p.text.as_str());
            escaped = escaped || p.escaped;
            truncated = truncated || p.truncated;
            assert(views(parts@).take(i + 1).drop_last() =~= views(parts@).take(i as int));
        }
        assert(views(parts@).take(n as int) =~= views(parts@));
        Escaped { text, escaped, truncated }
    }

    /// Escape untrusted bytes for display.
    pub fn of(u: &Untrusted) -> (e: Self)
        ensures
            e@ == escape_view(u@, MAX_TOKEN_CHARS as int),
    {
        let (chars, escaped, truncated) = escape_chars(u.as_bytes(), MAX_TOKEN_CHARS);
        Escaped { text: string_of(&chars), escaped, truncated }
    }

    /// Escape untrusted bytes and shell-quote them, for rendering one argv token.
    pub fn shell_token(u: &Untrusted) -> (e: Self)
        ensures
            e@ == quoted_view(u@, false),
    {
        quoted(u, false)
    }

    /// A path for display. Quoted like a token, except that a `~` — which sudo-prompt substitutes for
    /// the requester's home directory — is not on its own a reason to quote.
    pub fn path(u: &Untrusted) -> (e: Self)
        ensures
            e@ == quoted_view(u@, true),
    {
        quoted(u, true)
    }

    /// `NAME=value`, both halves escaped.
    pub fn assignment(name: &Untrusted, value: &Untrusted) -> (e: Self)
        ensures
            e@ == ({
                let n = escape_view(name@, MAX_TOKEN_CHARS as int);
                let v = escape_view(value@, MAX_TOKEN_CHARS as int);
                (n.0 + "="@ + v.0, n.1 || v.1, n.2 || v.2)
            }),
    {
        let parts = vec![Escaped::of(name), Escaped::literal("="), Escaped::of(value)];
        let e = Escaped::concat(parts);
        proof {
            let vs = views(parts@);
            let v0 = vs.drop_last().drop_last();
            let v1 = vs.drop_last();
            assert(v0.drop_last() =~= Seq::<(Seq<char>, bool, bool)>::empty());
            assert(v0.last() == parts@[0]@);
            assert(v1.last() == parts@[1]@);
            assert(vs.last() == parts@[2]@);
            let c0 = concat_views(v0.drop_last());
            assert(c0 == (Seq::<char>::empty(), false, false));
            let c1 = concat_views(v0);
            assert(c1.0 =~= parts@[0]@.0);
            let c2 = concat_views(v1);
            assert(c2.0 =~= parts@[0]@.0 + "="@);
            let c3 = concat_views(vs);
            assert(c3.0 =~= parts@[0]@.0 + "="@ + parts@[2]@.0);
        }
        e
    }

    /// True if any byte had to be neutralised. A literal backslash is doubled for
    /// unambiguity but does not count: the flag means "unsafe content was escaped".
    pub fn was_escaped(&self) -> (r: bool)
        ensures
            r == self@.1,
    {
        self.escaped
    }

    pub fn was_truncated(&self) -> (r: bool)
        ensures
            r == self@.2,
    {
        self.truncated
    }

    pub fn as_str(&self) -> (s: &str)
        ensures
            s@ == self@.0,
    {
        self.text.as_str()
    }
}

/// Lines joined with newlines; a flag is set if any line has it set.
pub open spec fn join_views(vs: Seq<(Seq<char>, bool, bool)>) -> (Seq<char>, bool, bool)
    decreases vs.len(),
{
    if vs.len() == 0 {
        (seq![], false, false)
    } else if vs.len() == 1 {
        vs[0]
    } else {
        let r = join_views(vs.drop_last());
        (r.0.push('\n') + vs.last().0, r.1 || vs.last().1, r.2 || vs.last().2)
    }
}

/// Join rendered lines into one label's text. Safe because escaping leaves no newline in an
/// `Escaped` built from caller data, so the joins are the only line breaks in the result.
pub fn join(lines: &Vec<Escaped>) -> (e: Escaped)
    ensures
        e@ == join_views(views(lines@)),
{
    let mut text = String::new();
    let mut escaped = false;
    let mut truncated = false;
    let n = lines.len();
    for i in 0..n
        invariant
            n == lines@.len(),
            (text@, escaped, truncated) == join_views(views(lines@).take(i as int)),
    {
        let l = &lines[i];
        if i > 0 {
            text.append("\n");
            proof {
                reveal_strlit("\n");
            }
        }
        text.append(l.text.as_str());
        escaped = escaped || l.escaped;
        truncated = truncated || l.truncated;
        proof {
            let t = views(lines@).take(i + 1);
            assert(t.drop_last() =~= views(lines@).take(i as int));
            if i == 0 {
                assert(text@ =~= l.text@);
            } else {
                assert(text@ =~= join_views(views(lines@).take(i as int)).0.push('\n') + l.text@);
            }
        }
    }
    assert(views(lines@).take(n as int) =~= views(lines@));
    Escaped { text, escaped, truncated }
}

impl Escaped {
    /// The first `n` characters, marked as truncated.
    pub fn clipped(self, n: usize) -> (e: Escaped)
        ensures
            e@ == (if n < self@.0.len() { self@.0.take(n as int) } else { self@.0 }, self@.1, true),
    {
        let len = self.text.as_str().unicode_len();
        let keep = if n < len { n } else { len };
        let part = self.text.as_str().substring_char(0, keep);
        let text = String::from_str(part);
        assert(n >= len ==> self@.0.subrange(0, keep as int) =~= self@.0);
        Escaped { text, escaped: self.escaped, truncated: true }
    }

    /// Number of characters in the text.
    pub fn char_len(&self) -> (n: usize)
        ensures
            n == self@.0.len(),
    {
        self.text.as_str().unicode_len()
    }
}

/// Escape, then single-quote unless every byte is unquoted-safe (or a tolerated `~`). Empty is
/// always quoted: nothing on screen is worse than nothing on screen that looks like a missing
/// value.
fn quoted(u: &Untrusted, tilde: bool) -> (e: Escaped)
    ensures
        e@ == quoted_view(u@, tilde),
{
    let bytes = u.as_bytes();
    let (chars, escaped, truncated) = escape_chars(bytes, MAX_TOKEN_CHARS);
    let mut quote = bytes.len() == 0;
    let n = bytes.len();
    let mut i: usize = 0;
    while i < n && !quote
        invariant
            n == bytes@.len(),
            i <= n,
            quote == (bytes@.len() == 0 || exists|j: int|
                0 <= j < i && !(unquoted_ok(bytes@[j]) || (tilde && bytes@[j] == 0x7E))),
        decreases n - i + (if quote { 0int } else { 1 }),
    {
        let b = bytes[i];
        let ok = (0x41 <= b && b <= 0x5A) || (0x61 <= b && b <= 0x7A) || (0x30 <= b && b <= 0x39)
            || b == 0x5F || b == 0x40 || b == 0x25 || b == 0x2B || b == 0x3D || b == 0x3A
            || b == 0x2C || b == 0x2E || b == 0x2F || b == 0x2D || (tilde && b == 0x7E);
        if !ok {
            quote = true;
        }
        i = i + 1;
    }
    assert(quote == needs_quotes(bytes@, tilde));
    if quote {
        let mut out: Vec<char> = Vec::new();
        out.push('\'');
        let m = chars.len();
        for k in 0..m
            invariant
                m == chars@.len(),
                out@ == seq!['\''] + requote(chars@.take(k as int)),
        {
            let c = chars[k];
            proof {
                lemma_requote_push(chars@.take(k as int), c);
                assert(chars@.take(k + 1) =~= chars@.take(k as int).push(c));
            }
            if c == '\'' {
                out.push('\'');
                out.push('\\');
                out.push('\'');
                out.push('\'');
            } else {
                out.push(c);
            }
            assert(out@ =~= seq!['\''] + requote(chars@.take(k + 1)));
        }
        out.push('\'');
        assert(chars@.take(m as int) =~= chars@);
        Escaped { text: string_of(&out), escaped, truncated }
    } else {
        Escaped { text: string_of(&chars), escaped, truncated }
    }
}

proof fn lemma_requote_push(t: Seq<char>, c: char)
    ensures
        requote(t.push(c)) == requote(t) + (if c == '\'' { seq!['\'', '\\', '\'', '\''] } else { seq![c] }),
    decreases t.len(),
{
    if t.len() == 0 {
        assert(t.push(c).drop_first() =~= Seq::<char>::empty());
        assert(requote(Seq::<char>::empty()) =~= Seq::<char>::empty());
    } else {
        assert(t.push(c).drop_first() =~= t.drop_first().push(c));
        lemma_requote_push(t.drop_first(), c);
    }
}

/// The rendering of one decoded character.
fn char_piece_exec(c: char) -> (r: (Vec<char>, bool))
    ensures
        (r.0@, r.1) == char_piece(c),
{
    let mut out: Vec<char> = Vec::new();
    if c == '\\' {
        out.push('\\');
        out.push('\\');
        return (out, false);
    }
    if ' ' <= c && c <= '~' {
        out.push(c);
        return (out, false);
    }
    let v = c as u32;
    if v < 0x20 || v == 0x7f {
        out.push('\\');
        out.push('x');
        push_hex(&mut out, v, 2);
        return (out, true);
    }
    let code = category(c);
    let major = code.get_char(0);
    let minor = code.get_char(1);
    // Controls, format, surrogate, private-use and unassigned code points, and the separators.
    let escaped = (major == 'C' && (minor == 'c' || minor == 'f' || minor == 's' || minor == 'o'
        || minor == 'n')) || (major == 'Z' && (minor == 's' || minor == 'l' || minor == 'p'));
    if escaped {
        out.push('\\');
        out.push('u');
        out.push('{');
        push_hex(&mut out, v, 4);
        out.push('}');
        return (out, true);
    }
    out.push(c);
    (out, false)
}

fn byte_piece_exec(b: u8) -> (r: (Vec<char>, bool))
    ensures
        (r.0@, r.1) == byte_piece(b),
{
    let mut out: Vec<char> = Vec::new();
    out.push('\\');
    out.push('x');
    push_hex(&mut out, b as u32, 2);
    (out, true)
}

pub(crate) proof fn lemma_pieces_step(bytes: Seq<u8>, i: int)
    requires
        0 <= i < bytes.len(),
    ensures
        ({
            let s = bytes.skip(i);
            match decode_first(s) {
                Some((c, n)) => 1 <= n <= s.len() && pieces(s) == seq![char_piece(c)] + pieces(
                    bytes.skip(i + n),
                ),
                None => pieces(s) == seq![byte_piece(s[0])] + pieces(bytes.skip(i + 1)),
            }
        }),
{
    let s = bytes.skip(i);
    match decode_first(s) {
        Some((c, n)) => {
            crate::utf8::lemma_scalar_in_range(s);
            assert(s.skip(n as int) =~= bytes.skip(i + n));
        },
        None => {
            assert(s.skip(1) =~= bytes.skip(i + 1));
        },
    }
}

pub(crate) proof fn lemma_render_step(p: Piece, rest: Seq<Piece>, room: int)
    ensures
        render(seq![p] + rest, room) == (if p.0.len() > room {
            (Seq::<char>::empty(), p.1, true)
        } else {
            let r = render(rest, room - p.0.len());
            (p.0 + r.0, p.1 || r.1, r.2)
        }),
{
    let ps = seq![p] + rest;
    assert(ps[0] == p);
    assert(ps.drop_first() =~= rest);
}

/// Escape `bytes` into at most `limit` characters.
fn escape_chars(bytes: &[u8], limit: usize) -> (r: (Vec<char>, bool, bool))
    ensures
        (r.0@, r.1, r.2) == escape_view(bytes@, limit as int),
{
    let mut out: Vec<char> = Vec::new();
    let mut escaped = false;
    let mut i: usize = 0;
    let n = bytes.len();
    assert(bytes@.skip(0) =~= bytes@);
    while i < n
        invariant
            n == bytes@.len(),
            i <= n,
            out@.len() <= limit,
            escape_view(bytes@, limit as int) == ({
                let r = render(pieces(bytes@.skip(i as int)), limit - out@.len());
                (out@ + r.0, escaped || r.1, r.2)
            }),
        decreases n - i,
    {
        proof {
            lemma_pieces_step(bytes@, i as int);
        }
        let (piece, flag, step) = match decode_at(bytes, i) {
            Some((c, k)) => {
                let (p, f) = char_piece_exec(c);
                (p, f, k)
            },
            None => {
                let (p, f) = byte_piece_exec(bytes[i]);
                (p, f, 1)
            },
        };
        let ghost rest = pieces(bytes@.skip(i + step));
        assert(pieces(bytes@.skip(i as int)) == seq![(piece@, flag)] + rest);
        proof {
            lemma_render_step((piece@, flag), rest, limit - out@.len());
        }
        if piece.len() > limit - out.len() {
            assert(out@ + Seq::<char>::empty() =~= out@);
            return (out, escaped || flag, true);
        }
        let ghost before = out@;
        let m = piece.len();
        for k in 0..m
            invariant
                m == piece@.len(),
                out@ =~= before + piece@.take(k as int),
        {
            out.push(piece[k]);
        }
        assert(piece@.take(m as int) =~= piece@);
        escaped = escaped || flag;
        i = i + step;
        proof {
            let r = render(rest, limit - out@.len());
            assert(before + (piece@ + r.0) =~= out@ + r.0);
        }
    }
    assert(bytes@.skip(n as int) =~= Seq::<u8>::empty());
    assert(out@ + Seq::<char>::empty() =~= out@);
    (out, escaped, false)
}

/// A character escaped text may hold: printable ASCII, or a character at or above 0x80 whose
/// category the escaper lets through (never a control, format character, surrogate, private-use
/// or unassigned code point, or a separator).
pub open spec fn displayable(c: char) -> bool {
    (' ' <= c <= '~') || ((c as u32) >= 0x80 && !category_escaped(unicode_category(c)))
}

pub open spec fn all_displayable(t: Seq<char>) -> bool {
    forall|i: int| 0 <= i < t.len() ==> displayable(#[trigger] t[i])
}

proof fn lemma_hex_displayable(n: nat, width: nat)
    ensures
        all_displayable(hex(n, width)),
    decreases n, width,
{
    if n < 16 && width <= 1 {
    } else {
        lemma_hex_displayable(n / 16, if width > 0 { (width - 1) as nat } else { 0 });
        let h = hex(n, width);
        let prev = hex(n / 16, if width > 0 { (width - 1) as nat } else { 0 });
        assert(h == prev.push(crate::text::digit_char(n % 16)));
        assert forall|i: int| 0 <= i < h.len() implies displayable(#[trigger] h[i]) by {
            if i < prev.len() {
                assert(h[i] == prev[i]);
            }
        }
    }
}

proof fn lemma_concat_displayable(a: Seq<char>, b: Seq<char>)
    requires
        all_displayable(a),
        all_displayable(b),
    ensures
        all_displayable(a + b),
{
    assert forall|i: int| 0 <= i < (a + b).len() implies displayable(#[trigger] (a + b)[i]) by {
        if i < a.len() {
            assert((a + b)[i] == a[i]);
        } else {
            assert((a + b)[i] == b[i - a.len()]);
        }
    }
}

proof fn lemma_char_piece_displayable(c: char)
    ensures
        all_displayable(char_piece(c).0),
{
    let v = c as u32;
    if c == '\\' {
    } else if ' ' <= c <= '~' {
    } else if v < 0x20 || v == 0x7f {
        lemma_hex_displayable(c as nat, 2);
        lemma_concat_displayable(seq!['\\', 'x'], hex(c as nat, 2));
    } else if category_escaped(unicode_category(c)) {
        lemma_hex_displayable(c as nat, 4);
        lemma_concat_displayable(seq!['\\', 'u', '{'], hex(c as nat, 4));
        lemma_concat_displayable(seq!['\\', 'u', '{'] + hex(c as nat, 4), seq!['}']);
    } else {
        assert(v >= 0x80);
    }
}

proof fn lemma_pieces_displayable(bytes: Seq<u8>)
    ensures
        forall|k: int| 0 <= k < pieces(bytes).len() ==> all_displayable(#[trigger] pieces(bytes)[k].0),
    decreases bytes.len(),
{
    if bytes.len() == 0 {
    } else {
        let ps = pieces(bytes);
        match decode_first(bytes) {
            Some((c, n)) => {
                if 1 <= n <= bytes.len() {
                    lemma_char_piece_displayable(c);
                    lemma_pieces_displayable(bytes.skip(n as int));
                    let rest = pieces(bytes.skip(n as int));
                    assert forall|k: int| 0 <= k < ps.len() implies all_displayable(#[trigger] ps[k].0) by {
                        if k > 0 {
                            assert(ps[k] == rest[k - 1]);
                        }
                    }
                }
            },
            None => {
                lemma_hex_displayable(bytes[0] as nat, 2);
                lemma_concat_displayable(seq!['\\', 'x'], hex(bytes[0] as nat, 2));
                lemma_pieces_displayable(bytes.skip(1));
                let rest = pieces(bytes.skip(1));
                assert forall|k: int| 0 <= k < ps.len() implies all_displayable(#[trigger] ps[k].0) by {
                    if k > 0 {
                        assert(ps[k] == rest[k - 1]);
                    }
                }
            },
        }
    }
}

proof fn lemma_render_displayable(ps: Seq<Piece>, room: int)
    requires
        forall|k: int| 0 <= k < ps.len() ==> all_displayable(#[trigger] ps[k].0),
    ensures
        all_displayable(render(ps, room).0),
    decreases ps.len(),
{
    if ps.len() == 0 {
    } else if ps[0].0.len() > room {
    } else {
        let rest = ps.drop_first();
        assert forall|k: int| 0 <= k < rest.len() implies all_displayable(#[trigger] rest[k].0) by {
            assert(rest[k] == ps[k + 1]);
        }
        lemma_render_displayable(rest, room - ps[0].0.len());
        assert(all_displayable(ps[0].0));
        lemma_concat_displayable(ps[0].0, render(rest, room - ps[0].0.len()).0);
    }
}

/// Whatever bytes come in, escaped text holds only displayable characters: no control
/// character (so no newline: one line in is one line out), no bidi or other format control, no
/// separator but the ASCII space, and nothing private-use, surrogate or unassigned.
pub proof fn escaped_text_is_displayable(bytes: Seq<u8>, limit: int)
    ensures
        all_displayable(escape_view(bytes, limit).0),
{
    lemma_pieces_displayable(bytes);
    lemma_render_displayable(pieces(bytes), limit);
}

proof fn lemma_requote_displayable(t: Seq<char>)
    requires
        all_displayable(t),
    ensures
        all_displayable(requote(t)),
    decreases t.len(),
{
    if t.len() > 0 {
        let rest = t.drop_first();
        assert forall|i: int| 0 <= i < rest.len() implies displayable(#[trigger] rest[i]) by {
            assert(rest[i] == t[i + 1]);
        }
        lemma_requote_displayable(rest);
        let head = if t[0] == '\'' { seq!['\'', '\\', '\'', '\''] } else { seq![t[0]] };
        assert(all_displayable(head)) by {
            if t[0] != '\'' {
                assert(head[0] == t[0]);
            }
        }
        lemma_concat_displayable(head, requote(rest));
    }
}

/// The same holds of a shell-quoted token or path: the quotes added are displayable too.
pub proof fn quoted_text_is_displayable(bytes: Seq<u8>, tilde: bool)
    ensures
        all_displayable(quoted_view(bytes, tilde).0),
{
    let e = escape_view(bytes, MAX_TOKEN_CHARS as int);
    escaped_text_is_displayable(bytes, MAX_TOKEN_CHARS as int);
    if needs_quotes(bytes, tilde) {
        lemma_requote_displayable(e.0);
        lemma_concat_displayable(seq!['\''], requote(e.0));
        lemma_concat_displayable(seq!['\''] + requote(e.0), seq!['\'']);
    }
}

proof fn lemma_render_fits(ps: Seq<Piece>, room: int)
    requires
        room >= 0,
    ensures
        render(ps, room).0.len() <= room,
    decreases ps.len(),
{
    if ps.len() > 0 && ps[0].0.len() <= room {
        lemma_render_fits(ps.drop_first(), room - ps[0].0.len());
    }
}

/// Escaped text never exceeds its limit: a token is cut rather than laid out whole.
pub proof fn escaped_text_fits(bytes: Seq<u8>, limit: int)
    requires
        limit >= 0,
    ensures
        escape_view(bytes, limit).0.len() <= limit,
{
    lemma_render_fits(pieces(bytes), limit);
}

/// Printable ASCII other than the backslash: bytes that need no escaping at all.
pub open spec fn plain_ascii(bytes: Seq<u8>) -> bool {
    forall|i: int| 0 <= i < bytes.len() ==> 0x20 <= #[trigger] bytes[i] <= 0x7E && bytes[i] != 0x5C
}

pub open spec fn ascii_chars(bytes: Seq<u8>) -> Seq<char> {
    bytes.map_values(|b: u8| b as char)
}

proof fn lemma_plain_pieces(bytes: Seq<u8>)
    requires
        plain_ascii(bytes),
    ensures
        pieces(bytes).len() == bytes.len(),
        forall|k: int| 0 <= k < bytes.len() ==> #[trigger] pieces(bytes)[k] == (seq![bytes[k] as char], false),
    decreases bytes.len(),
{
    if bytes.len() > 0 {
        let rest = bytes.skip(1);
        assert(plain_ascii(rest)) by {
            assert forall|i: int| 0 <= i < rest.len() implies 0x20 <= #[trigger] rest[i] <= 0x7E && rest[i] != 0x5C by {
                assert(rest[i] == bytes[i + 1]);
            }
        }
        lemma_plain_pieces(rest);
        assert(bytes[0] <= 0x7F);
        assert(decode_first(bytes) == Some((bytes[0] as char, 1nat)));
        let c = bytes[0] as char;
        assert(' ' <= c <= '~' && c != '\\');
        let ps = pieces(bytes);
        assert forall|k: int| 0 <= k < bytes.len() implies #[trigger] ps[k] == (seq![bytes[k] as char], false) by {
            if k > 0 {
                assert(ps[k] == pieces(rest)[k - 1]);
                assert(rest[k - 1] == bytes[k]);
            }
        }
    }
}

proof fn lemma_plain_render(ps: Seq<Piece>, cs: Seq<char>, room: int)
    requires
        ps.len() == cs.len(),
        cs.len() <= room,
        forall|k: int| 0 <= k < ps.len() ==> #[trigger] ps[k] == (seq![cs[k]], false),
    ensures
        render(ps, room) == (cs, false, false),
    decreases ps.len(),
{
    if ps.len() > 0 {
        let rest = ps.drop_first();
        assert forall|k: int| 0 <= k < rest.len() implies #[trigger] rest[k] == (seq![cs.drop_first()[k]], false) by {
            assert(rest[k] == ps[k + 1]);
        }
        lemma_plain_render(rest, cs.drop_first(), room - 1);
        assert(ps[0] == (seq![cs[0]], false));
        assert(seq![cs[0]] + cs.drop_first() =~= cs);
    } else {
        assert(cs =~= Seq::<char>::empty());
    }
}

/// Printable ASCII without a backslash is shown exactly as it is, and nothing is flagged, as long
/// as it fits.
pub proof fn plain_text_is_shown_as_it_is(bytes: Seq<u8>, limit: int)
    requires
        plain_ascii(bytes),
        bytes.len() <= limit,
    ensures
        escape_view(bytes, limit) == (ascii_chars(bytes), false, false),
{
    lemma_plain_pieces(bytes);
    let cs = ascii_chars(bytes);
    assert forall|k: int| 0 <= k < bytes.len() implies #[trigger] pieces(bytes)[k] == (seq![cs[k]], false) by {}
    lemma_plain_render(pieces(bytes), cs, limit);
}

/// Whether a decoded character is shown in an escaped form that flags the text: anything but the
/// backslash and printable ASCII that is a C0 control, DEL, or of an escaped category.
pub open spec fn char_neutralised(c: char) -> bool {
    &&& c != '\\'
    &&& !(' ' <= c <= '~')
    &&& ((c as u32) < 0x20 || c as u32 == 0x7f || category_escaped(unicode_category(c)))
}

/// Whether a byte string holds something escaping neutralises: a byte that is not part of
/// well-formed UTF-8, or a character that [`char_neutralised`] picks out.
pub open spec fn holds_neutralised(bytes: Seq<u8>) -> bool
    decreases bytes.len(),
{
    if bytes.len() == 0 {
        false
    } else {
        match decode_first(bytes) {
            Some((c, n)) => if 1 <= n <= bytes.len() {
                char_neutralised(c) || holds_neutralised(bytes.skip(n as int))
            } else {
                false
            },
            None => true,
        }
    }
}

proof fn lemma_flag(bytes: Seq<u8>, room: int)
    requires
        !render(pieces(bytes), room).2,
    ensures
        render(pieces(bytes), room).1 == holds_neutralised(bytes),
    decreases bytes.len(),
{
    if bytes.len() > 0 {
        lemma_pieces_step(bytes, 0);
        assert(bytes.skip(0) =~= bytes);
        match decode_first(bytes) {
            Some((c, n)) => {
                let rest = pieces(bytes.skip(n as int));
                lemma_render_step(char_piece(c), rest, room);
                lemma_flag(bytes.skip(n as int), room - char_piece(c).0.len());
            },
            None => {
                let rest = pieces(bytes.skip(1));
                lemma_render_step(byte_piece(bytes[0]), rest, room);
                lemma_flag(bytes.skip(1), room - byte_piece(bytes[0]).0.len());
            },
        }
    }
}

/// The escaped flag of a text that was not cut short is set exactly when the bytes held something
/// neutralised: a byte outside well-formed UTF-8, a control character or DEL, or a non-ASCII
/// character of an escaped category. A doubled backslash does not set it.
pub proof fn escaped_flag_marks_neutralised_input(bytes: Seq<u8>, limit: int)
    requires
        !escape_view(bytes, limit).2,
    ensures
        escape_view(bytes, limit).1 == holds_neutralised(bytes),
{
    lemma_flag(bytes, limit);
}

/// A general category, by its abbreviation, whose characters are ordinary printable text: a
/// letter (`L*`), mark (`M*`), number (`N*`), punctuation (`P*`) or symbol (`S*`).
pub open spec fn ordinary_category(k: Seq<char>) -> bool {
    k.len() == 2 && (k[0] == 'L' || k[0] == 'M' || k[0] == 'N' || k[0] == 'P' || k[0] == 'S')
}

/// A general category, by its abbreviation, whose characters are hidden behind an escape: a
/// control, format, surrogate, private-use or unassigned code point (`Cc Cf Cs Co Cn`) or a
/// separator (`Zs Zl Zp`).
pub open spec fn hidden_category(k: Seq<char>) -> bool {
    k.len() == 2 && ((k[0] == 'C' && (k[1] == 'c' || k[1] == 'f' || k[1] == 's' || k[1] == 'o'
        || k[1] == 'n')) || (k[0] == 'Z' && (k[1] == 's' || k[1] == 'l' || k[1] == 'p')))
}

/// Escaping bytes that are exactly one well-formed character: its rendering, laid out alone.
proof fn lemma_one_char(bytes: Seq<u8>, limit: int)
    requires
        bytes.len() > 0,
        crate::utf8::scalar_len(bytes) == bytes.len(),
    ensures
        ({
            let c = crate::utf8::scalar_value(bytes, bytes.len()) as char;
            &&& c as int == crate::utf8::scalar_value(bytes, bytes.len())
            &&& escape_view(bytes, limit) == if char_piece(c).0.len() > limit {
                (Seq::<char>::empty(), char_piece(c).1, true)
            } else {
                (char_piece(c).0, char_piece(c).1, false)
            }
        }),
{
    crate::utf8::lemma_scalar_in_range(bytes);
    let n = bytes.len();
    let c = crate::utf8::scalar_value(bytes, n) as char;
    assert(decode_first(bytes) == Some((c, n)));
    assert(bytes.skip(n as int) =~= Seq::<u8>::empty());
    assert(pieces(bytes.skip(n as int)) == Seq::<Piece>::empty());
    assert(pieces(bytes) =~= seq![char_piece(c)]);
    lemma_render_step(char_piece(c), Seq::<Piece>::empty(), limit);
    assert(seq![char_piece(c)] + Seq::<Piece>::empty() =~= seq![char_piece(c)]);
    assert(char_piece(c).0 + Seq::<char>::empty() =~= char_piece(c).0);
}

/// Ordinary printable non-ASCII is shown as it is: bytes that are exactly one well-formed character
/// at or above U+0080 whose general category is a letter, mark, number, punctuation or symbol
/// escape to that character alone, with the escaped flag clear (`café.txt`, `文件.txt`).
pub proof fn ordinary_non_ascii_is_shown_as_it_is(bytes: Seq<u8>, limit: int)
    requires
        bytes.len() > 0,
        crate::utf8::scalar_len(bytes) == bytes.len(),
        crate::utf8::scalar_value(bytes, bytes.len()) >= 0x80,
        ordinary_category(unicode_category(crate::utf8::scalar_value(bytes, bytes.len()) as char)),
        limit >= 1,
    ensures
        escape_view(bytes, limit) == (seq![crate::utf8::scalar_value(bytes, bytes.len()) as char], false, false),
{
    lemma_one_char(bytes, limit);
}

/// A non-ASCII character of a hidden category never shows as itself: bytes that are exactly one
/// such character escape to `\u{...}` with its code point in hex, flagged.
pub proof fn hidden_non_ascii_is_escaped(bytes: Seq<u8>, limit: int)
    requires
        bytes.len() > 0,
        crate::utf8::scalar_len(bytes) == bytes.len(),
        crate::utf8::scalar_value(bytes, bytes.len()) >= 0x80,
        hidden_category(unicode_category(crate::utf8::scalar_value(bytes, bytes.len()) as char)),
        limit >= 16,
    ensures
        escape_view(bytes, limit) == (
            seq!['\\', 'u', '{'] + hex(crate::utf8::scalar_value(bytes, bytes.len()) as nat, 4) + seq!['}'],
            true,
            false,
        ),
{
    lemma_one_char(bytes, limit);
    crate::unambiguous::lemma_hex_short(crate::utf8::scalar_value(bytes, bytes.len()) as nat);
}

} // verus!
