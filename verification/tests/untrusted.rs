use sudo_prompt::untrusted::{Escaped, Untrusted, MAX_TOKEN_CHARS};

fn esc(bytes: &[u8]) -> Escaped {
    Escaped::of(&Untrusted::from_bytes(bytes.to_vec()))
}

#[test]
fn printable_ascii_survives() {
    let e = esc(b"/usr/bin/ls -l");
    assert_eq!(e.as_str(), "/usr/bin/ls -l");
    assert!(!e.was_escaped());
}

#[test]
fn printable_non_ascii_survives() {
    let e = esc("café.txt".as_bytes());
    assert_eq!(e.as_str(), "café.txt");
    assert!(!e.was_escaped());
}

#[test]
fn controls_escaped() {
    let e = esc(b"a\nb\tc\x1b[0m\x7f");
    assert_eq!(e.as_str(), "a\\x0ab\\x09c\\x1b[0m\\x7f");
    assert!(e.was_escaped());
}

#[test]
fn c1_controls_escaped() {
    let e = esc("\u{85}".as_bytes());
    assert_eq!(e.as_str(), "\\u{0085}");
    assert!(e.was_escaped());
}

#[test]
fn backslash_doubled_but_not_flagged() {
    let e = esc(b"a\\x41");
    assert_eq!(e.as_str(), "a\\\\x41");
    assert!(!e.was_escaped());
}

#[test]
fn invalid_utf8_escaped_per_byte() {
    let e = esc(b"a\xffb\xc3");
    assert_eq!(e.as_str(), "a\\xffb\\xc3");
    assert!(e.was_escaped());
}

#[test]
fn overlong_encoding_escaped_per_byte() {
    // Overlong encoding of '/'.
    let e = esc(&[0xc0, 0xaf]);
    assert_eq!(e.as_str(), "\\xc0\\xaf");
}

#[test]
fn encoded_surrogate_escaped_per_byte() {
    // CESU-8 style encoding of U+D800.
    let e = esc(&[0xed, 0xa0, 0x80]);
    assert_eq!(e.as_str(), "\\xed\\xa0\\x80");
}

#[test]
fn distinct_invalid_sequences_render_differently() {
    assert_ne!(esc(&[0xff]).as_str(), esc(&[0xfe]).as_str());
    // A stray 0x85 byte and the C1 control U+0085 must not collide.
    assert_ne!(esc(&[0x85]).as_str(), esc("\u{85}".as_bytes()).as_str());
}

#[test]
fn separators_and_odd_spaces_escaped() {
    assert_eq!(esc("a\u{2028}b".as_bytes()).as_str(), "a\\u{2028}b");
    assert_eq!(esc("a\u{2029}b".as_bytes()).as_str(), "a\\u{2029}b");
    assert_eq!(esc("a\u{00a0}b".as_bytes()).as_str(), "a\\u{00a0}b");
    assert_eq!(esc("a\u{3000}b".as_bytes()).as_str(), "a\\u{3000}b");
}

#[test]
fn format_and_unassigned_escaped() {
    assert_eq!(esc("a\u{200b}b".as_bytes()).as_str(), "a\\u{200b}b");
    assert_eq!(esc("a\u{202e}b".as_bytes()).as_str(), "a\\u{202e}b");
    assert_eq!(esc("a\u{200d}b".as_bytes()).as_str(), "a\\u{200d}b");
    assert_eq!(esc("a\u{0378}b".as_bytes()).as_str(), "a\\u{0378}b");
}

#[test]
fn ascii_space_is_kept() {
    assert_eq!(esc(b"a b").as_str(), "a b");
}

#[test]
fn truncation_is_flagged() {
    let big = vec![b'x'; MAX_TOKEN_CHARS + 10];
    let e = esc(&big);
    assert!(e.was_truncated());
    assert_eq!(e.as_str().chars().count(), MAX_TOKEN_CHARS);
}

#[test]
fn shell_quoting() {
    let q = |b: &[u8]| Escaped::shell_token(&Untrusted::from_bytes(b.to_vec())).as_str().to_string();
    assert_eq!(q(b"/usr/bin/ls"), "/usr/bin/ls");
    assert_eq!(q(b"a b"), "'a b'");
    assert_eq!(q(b""), "''");
    assert_eq!(q(b"it's"), "'it'\\''s'");
    assert_eq!(q(b"-l"), "-l");
    assert_eq!(q(b"$(x)"), "'$(x)'");
    // `~` is a shell metacharacter, so an argv token containing one is still quoted.
    assert_eq!(q(b"~/x"), "'~/x'");
}

#[test]
fn path_quoting_tolerates_the_substituted_tilde() {
    let p = |b: &[u8]| Escaped::path(&Untrusted::from_bytes(b.to_vec())).as_str().to_string();
    assert_eq!(p(b"~/desktop-bits"), "~/desktop-bits");
    assert_eq!(p(b"/etc"), "/etc");
    assert_eq!(p(b"~/my dir"), "'~/my dir'");
    assert_eq!(p(b""), "''");
}

#[test]
fn markup_is_literal_text_after_escaping() {
    // No escaping needed: the dialog renders with markup off, so these stay literal.
    let e = esc(b"<span foreground='#101014'>hidden</span>");
    assert_eq!(e.as_str(), "<span foreground='#101014'>hidden</span>");
}

#[test]
fn concat_propagates_flags() {
    let e = Escaped::concat(vec![Escaped::literal("uid "), Escaped::number(1006), esc(b"\x01")]);
    assert_eq!(e.as_str(), "uid 1006\\x01");
    assert!(e.was_escaped());
}

#[test]
fn escaped_output_never_holds_a_control_character() {
    let mut all: Vec<u8> = (0u8..=255).collect();
    all.extend_from_slice("\u{202e}\u{2028}\u{feff}\u{e000}".as_bytes());
    let e = esc(&all);
    assert!(e.as_str().chars().all(|c| !c.is_control()));
    assert!(!e.as_str().contains('\n'));
    assert!(e.was_escaped());
}

#[test]
fn untrusted_reports_its_length() {
    let u = Untrusted::from_bytes(b"abc".to_vec());
    assert_eq!(u.byte_len(), 3);
    assert!(!u.is_empty());
    assert_eq!(u.as_bytes(), b"abc");
    assert!(Untrusted::from_bytes(Vec::new()).is_empty());
}

#[test]
fn assignment_escapes_both_halves() {
    let e = Escaped::assignment(
        &Untrusted::from_bytes(b"LD_PRELOAD".to_vec()),
        &Untrusted::from_bytes(b"/tmp/x\ny".to_vec()),
    );
    assert_eq!(e.as_str(), "LD_PRELOAD=/tmp/x\\x0ay");
    assert!(e.was_escaped());
}

#[test]
fn a_truncated_part_marks_the_whole() {
    let big = vec![b'y'; MAX_TOKEN_CHARS + 1];
    let e = Escaped::concat(vec![Escaped::literal("a"), esc(&big)]);
    assert!(e.was_truncated());
    assert!(!e.was_escaped());
}

#[test]
fn lookalike_inputs_escape_apart() {
    // Text that spells an escape, and the byte that escape stands for, render differently.
    let spelled = esc(b"\\x1b");
    let raw = esc(&[0x1b]);
    assert_eq!(spelled.as_str(), "\\\\x1b");
    assert_eq!(raw.as_str(), "\\x1b");
    assert_ne!(spelled.as_str(), raw.as_str());
    // The same goes for a spelled-out code point and the character itself.
    assert_ne!(esc(b"\\u{0085}").as_str(), esc("\u{85}".as_bytes()).as_str());
    // A control character and the invalid byte 0x80 above it stay apart as well.
    assert_ne!(esc(&[0x00]).as_str(), esc(&[0x80]).as_str());
}

/// Reads escaped text back: `\\`, `\xNN`, `\u{H}`, and any other character as its own UTF-8.
fn read_back(text: &str) -> Vec<u8> {
    let cs: Vec<char> = text.chars().collect();
    let mut out = Vec::new();
    let mut i = 0;
    while i < cs.len() {
        if cs[i] != '\\' {
            let mut buf = [0u8; 4];
            out.extend_from_slice(cs[i].encode_utf8(&mut buf).as_bytes());
            i += 1;
        } else if cs[i + 1] == '\\' {
            out.push(b'\\');
            i += 2;
        } else if cs[i + 1] == 'x' {
            let h: String = cs[i + 2..i + 4].iter().collect();
            out.push(u8::from_str_radix(&h, 16).unwrap());
            i += 4;
        } else {
            let close = (i + 3..cs.len()).find(|&k| cs[k] == '}').unwrap();
            let h: String = cs[i + 3..close].iter().collect();
            let c = char::from_u32(u32::from_str_radix(&h, 16).unwrap()).unwrap();
            let mut buf = [0u8; 4];
            out.extend_from_slice(c.encode_utf8(&mut buf).as_bytes());
            i = close + 1;
        }
    }
    out
}

#[test]
fn escaped_text_reads_back_to_the_bytes() {
    let inputs: Vec<Vec<u8>> = vec![
        b"plain /usr/bin/ls".to_vec(),
        b"a\\x41\\\\".to_vec(),
        b"\x00\x1b[31m\x7f".to_vec(),
        vec![0xff, 0xfe, 0xc3, 0x28, 0xed, 0xa0, 0x80],
        "caf\u{e9} \u{85}\u{202e}\u{200b}\u{2028}\u{a0}\u{10ffff}\u{1f600}".as_bytes().to_vec(),
    ];
    for bytes in inputs {
        let e = esc(&bytes);
        assert!(!e.was_truncated());
        assert_eq!(read_back(e.as_str()), bytes);
    }
}

#[test]
fn escaped_flag_follows_what_was_neutralised() {
    assert!(!esc(b"a\\b ~").was_escaped());
    assert!(!esc("caf\u{e9}".as_bytes()).was_escaped());
    assert!(esc(b"a\x7f").was_escaped());
    assert!(esc(&[b'a', 0xc3]).was_escaped());
    assert!(esc("\u{200b}".as_bytes()).was_escaped());
    assert!(esc("\u{3000}".as_bytes()).was_escaped());
}

#[test]
fn letters_marks_numbers_and_symbols_are_kept() {
    // Ll, Mn (a combining acute), Nd (Arabic-Indic digit), So (an emoji), Sm and Pd.
    for s in ["\u{e9}", "e\u{301}", "\u{663}", "\u{1f600}", "\u{2211}", "\u{2014}"] {
        let e = esc(s.as_bytes());
        assert_eq!(e.as_str(), s);
        assert!(!e.was_escaped(), "{s:?}");
    }
    // Co (private use) and Zp (paragraph separator) are escaped.
    assert_eq!(esc("\u{e000}".as_bytes()).as_str(), "\\u{e000}");
    assert_eq!(esc("\u{2029}".as_bytes()).as_str(), "\\u{2029}");
}
