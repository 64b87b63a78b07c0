use sudo_prompt::dialog::{
    cap, layout, Field, FieldKind, MAX_EXPANDED_HEIGHT, MAX_FIELD_CHARS, MAX_FIELD_LINES, MAX_VIEWPORT_HEIGHT,
};
use sudo_prompt::untrusted::{join, Escaped, Untrusted};

fn esc(s: &[u8]) -> Escaped {
    Escaped::of(&Untrusted::from_bytes(s.to_vec()))
}

#[test]
fn builders_set_one_thing_each() {
    let f = Field::untrusted("env", vec![Escaped::literal("A=1")]).expanding().prominent().flat();
    assert_eq!(f.label, "env");
    assert_eq!(f.kind, FieldKind::Untrusted);
    assert!(f.expand && f.prominent && f.flat);
    let f = Field::trusted("why", Vec::new()).with_note(Escaped::literal("n"));
    assert_eq!(f.kind, FieldKind::Trusted);
    assert_eq!(f.notes.len(), 1);
    assert!(!f.expand && !f.prominent && !f.flat);
    assert_eq!(Field::warning(Vec::new()).kind, FieldKind::Warning);
}

#[test]
fn too_many_lines_are_cut_and_marked() {
    let lines: Vec<Escaped> = (0..MAX_FIELD_LINES + 5).map(|_| Escaped::literal("x")).collect();
    let (kept, dropped) = cap(&lines);
    assert_eq!(kept.len(), MAX_FIELD_LINES);
    assert!(dropped);
    let (kept, dropped) = cap(&lines[..3].to_vec());
    assert_eq!(kept.len(), 3);
    assert!(!dropped);
}

#[test]
fn too_many_characters_clip_within_a_line() {
    let big = vec![b'y'; 4000];
    let lines: Vec<Escaped> = (0..20).map(|_| esc(&big)).collect();
    let (kept, dropped) = cap(&lines);
    assert!(dropped);
    let total: usize = kept.iter().map(|l| l.as_str().chars().count()).sum();
    assert_eq!(total, MAX_FIELD_CHARS);
    assert!(kept.last().unwrap().was_truncated());
    assert_eq!(MAX_FIELD_CHARS, 64 * 1024);
}

#[test]
fn layout_of_an_untrusted_field() {
    let f = Field::untrusted("", vec![esc(b"a\x01"), esc(b"b")]).expanding();
    let l = layout(&f);
    assert!(!l.empty && l.mono && l.scrolls);
    assert_eq!(l.max_height, MAX_EXPANDED_HEIGHT);
    assert_eq!(l.text.as_str(), "a\\x01\nb");
    assert_eq!(l.classes, vec!["pp-untrusted-value"]);
    assert_eq!(l.notes.len(), 1);
    assert_eq!(l.notes[0].as_str(), "unsafe characters shown as \\xNN or \\uNNNN");
}

#[test]
fn layout_of_an_empty_or_flat_field() {
    let l = layout(&Field::untrusted("env", Vec::new()));
    assert!(l.empty && !l.mono);
    assert_eq!(l.text.as_str(), "(none)");
    assert_eq!(l.max_height, MAX_VIEWPORT_HEIGHT);
    let l = layout(&Field::untrusted("", vec![Escaped::literal("ai | ~")]).flat().prominent());
    assert!(!l.scrolls && !l.mono);
    assert_eq!(l.classes, vec!["pp-untrusted-value", "pp-prominent", "pp-flat"]);
    let l = layout(&Field::warning(vec![Escaped::literal("w")]));
    assert_eq!(l.classes, vec!["pp-warning-value"]);
    assert!(!l.scrolls);
}

#[test]
fn a_truncated_field_says_so() {
    let lines: Vec<Escaped> = (0..MAX_FIELD_LINES + 1).map(|_| Escaped::literal("x")).collect();
    let l = layout(&Field::untrusted("", lines));
    assert_eq!(l.notes.len(), 1);
    assert!(l.notes[0].as_str().starts_with("TRUNCATED"));
}

#[test]
fn joined_lines_keep_their_flags() {
    let j = join(&vec![Escaped::literal("a"), esc(b"\x07")]);
    assert_eq!(j.as_str(), "a\n\\x07");
    assert!(j.was_escaped());
}
