//! What a dialog shows, as data: its fields, their kinds and ceilings, and how each field's value
//! and notes are laid out. Trusted fields and buttons keep their natural size; caller-controlled
//! fields live in bounded scrolling viewports and are what shrinks. The widgets themselves are
//! built by the binary from this description.

use vstd::prelude::*;
use vstd::string::*;

use crate::untrusted::{join, join_views, views, Escaped};

verus! {

/// Tallest a caller-controlled viewport gets before it scrolls, and the taller allowance for the
/// one field marked [`Field::expand`].
pub const MAX_VIEWPORT_HEIGHT: i32 = 120;
pub const MAX_EXPANDED_HEIGHT: i32 = 360;

/// Hard ceiling on rendered lines in one caller-controlled field.
pub const MAX_FIELD_LINES: usize = 512;
/// Hard ceiling on rendered characters in one caller-controlled field.
pub const MAX_FIELD_CHARS: usize = 65536;

#[derive(Clone, Copy, Debug, PartialEq, Eq)]
pub enum Style {
    /// The sudo gate: fixed security presentation.
    Gate,
    /// The generic presenter. Deliberately distinct, and not claiming to be a root prompt.
    Generic,
}

#[derive(Clone, Copy, Debug, PartialEq, Eq)]
pub enum FieldKind {
    /// Compiled-in prose or gate-computed values. Never scrolls, never moves.
    Trusted,
    /// Trusted prose that changes what the request means. Same guarantees, louder.
    Warning,
    /// Caller data. Bounded scrolling viewport, monospace, overflow marked.
    Untrusted,
}

pub type EView = (Seq<char>, bool, bool);

/// A field, as plain values.
#[verifier::ext_equal]
pub struct FieldView {
    pub label: Seq<char>,
    pub lines: Seq<EView>,
    pub kind: FieldKind,
    pub notes: Seq<EView>,
    pub expand: bool,
    pub prominent: bool,
    pub flat: bool,
}

pub open spec fn field_view(f: Field) -> FieldView {
    FieldView {
        label: f.label@,
        lines: views(f.lines@),
        kind: f.kind,
        notes: views(f.notes@),
        expand: f.expand,
        prominent: f.prominent,
        flat: f.flat,
    }
}

pub open spec fn field_views(fs: Seq<Field>) -> Seq<FieldView> {
    fs.map_values(|f: Field| field_view(f))
}

pub struct Field {
    /// Short gutter label, lowercase. Empty for a field whose meaning is obvious from its place.
    pub label: &'static str,
    pub lines: Vec<Escaped>,
    pub kind: FieldKind,
    /// Extra trusted notes rendered under the field.
    pub notes: Vec<Escaped>,
    /// This field may grow much taller than the others before it scrolls.
    pub expand: bool,
    /// Render this field larger and in the dialog's accent colour. At most one field per dialog.
    pub prominent: bool,
    /// Drop the viewport chrome and set this field as plain running text.
    pub flat: bool,
}

impl Field {
    pub fn trusted(label: &'static str, lines: Vec<Escaped>) -> (f: Self)
        ensures
            f.label == label,
            f.lines@ == lines@,
            f.kind == FieldKind::Trusted,
            f.notes@.len() == 0,
            !f.expand && !f.prominent && !f.flat,
    {
        Field::new(label, lines, FieldKind::Trusted)
    }

    pub fn warning(lines: Vec<Escaped>) -> (f: Self)
        ensures
            f.label@ == ""@,
            f.lines@ == lines@,
            f.kind == FieldKind::Warning,
            f.notes@.len() == 0,
            !f.expand && !f.prominent && !f.flat,
    {
        Field::new("", lines, FieldKind::Warning)
    }

    pub fn untrusted(label: &'static str, lines: Vec<Escaped>) -> (f: Self)
        ensures
            f.label == label,
            f.lines@ == lines@,
            f.kind == FieldKind::Untrusted,
            f.notes@.len() == 0,
            !f.expand && !f.prominent && !f.flat,
    {
        Field::new(label, lines, FieldKind::Untrusted)
    }

    fn new(label: &'static str, lines: Vec<Escaped>, kind: FieldKind) -> (f: Self)
        ensures
            f.label == label,
            f.lines@ == lines@,
            f.kind == kind,
            f.notes@.len() == 0,
            !f.expand && !f.prominent && !f.flat,
    {
        Field { label, lines, kind, notes: Vec::new(), expand: false, prominent: false, flat: false }
    }

    /// Give this field the leftover vertical space.
    pub fn expanding(self) -> (f: Self)
        ensures
            f == (Field { expand: true, ..self }),
    {
        let mut f = self;
        f.expand = true;
        f
    }

    /// Make this the field the eye lands on first.
    pub fn prominent(self) -> (f: Self)
        ensures
            f == (Field { prominent: true, ..self }),
    {
        let mut f = self;
        f.prominent = true;
        f
    }

    /// Render as plain running text rather than in a viewport. Still escaped, still capped.
    pub fn flat(self) -> (f: Self)
        ensures
            f == (Field { flat: true, ..self }),
    {
        let mut f = self;
        f.flat = true;
        f
    }

    pub fn with_note(self, note: Escaped) -> (f: Self)
        ensures
            f.notes@ == self.notes@.push(note),
            f.label == self.label,
            f.lines == self.lines,
            f.kind == self.kind,
            f.expand == self.expand,
            f.prominent == self.prominent,
            f.flat == self.flat,
    {
        let mut f = self;
        f.notes.push(note);
        f
    }
}

/// What the chip shows while the prompt is minimized: the command on one line, and who asked.
pub struct ChipSpec {
    pub command: Escaped,
    pub user: Escaped,
}

pub struct DialogSpec {
    pub style: Style,
    /// Window title, and the heading when there is one. Never caller data.
    pub title: &'static str,
    /// Heading above the fields. `None` when the first field says it better than a heading could.
    pub heading: Option<&'static str>,
    /// Trusted lines under the heading: what this prompt is not.
    pub subtitle: Vec<Escaped>,
    pub fields: Vec<Field>,
    pub approve: &'static str,
    /// The deny button's accessible label. The button itself is an X.
    pub deny: &'static str,
    /// Show a one-line box above the buttons for the human's own words.
    pub response: bool,
    /// What the chip shows while the prompt is minimized. `Some` is what enables minimizing.
    pub chip: Option<ChipSpec>,
}

/// A line clipped to its first `n` characters and marked as truncated.
pub open spec fn clip_view(v: (Seq<char>, bool, bool), n: int) -> (Seq<char>, bool, bool) {
    (if n < v.0.len() { v.0.take(n) } else { v.0 }, v.1, true)
}

/// The per-field ceilings over the remaining lines: at most `slots` more lines and `room` more
/// characters. A line that would overflow the characters is clipped rather than dropped.
pub open spec fn cap_rec(lines: Seq<(Seq<char>, bool, bool)>, room: int, slots: int) -> (Seq<(Seq<char>, bool, bool)>, bool)
    decreases lines.len(),
{
    if lines.len() == 0 {
        (seq![], false)
    } else if slots <= 0 {
        (seq![], true)
    } else if lines[0].0.len() > room {
        (seq![clip_view(lines[0], room)], true)
    } else {
        let r = cap_rec(lines.drop_first(), room - lines[0].0.len(), slots - 1);
        (seq![lines[0]] + r.0, r.1)
    }
}

/// The lines a field renders, and whether anything was dropped.
pub open spec fn cap_view(lines: Seq<(Seq<char>, bool, bool)>) -> (Seq<(Seq<char>, bool, bool)>, bool) {
    cap_rec(lines, MAX_FIELD_CHARS as int, MAX_FIELD_LINES as int)
}

proof fn lemma_cap_step(lines: Seq<(Seq<char>, bool, bool)>, i: int, room: int, slots: int)
    requires
        0 <= i < lines.len(),
        slots > 0,
        lines[i].0.len() <= room,
    ensures
        cap_rec(lines.skip(i), room, slots) == ({
            let r = cap_rec(lines.skip(i + 1), room - lines[i].0.len(), slots - 1);
            (seq![lines[i]] + r.0, r.1)
        }),
{
    assert(lines.skip(i).drop_first() =~= lines.skip(i + 1));
}

/// The characters of a run of lines, all told.
pub open spec fn total_chars(lines: Seq<(Seq<char>, bool, bool)>) -> int
    decreases lines.len(),
{
    if lines.len() == 0 {
        0
    } else {
        lines[0].0.len() + total_chars(lines.drop_first())
    }
}

proof fn lemma_cap_rec(lines: Seq<(Seq<char>, bool, bool)>, room: int, slots: int)
    requires
        room >= 0,
        slots >= 0,
    ensures
        cap_rec(lines, room, slots).0.len() <= slots,
        total_chars(cap_rec(lines, room, slots).0) <= room,
        !cap_rec(lines, room, slots).1 ==> cap_rec(lines, room, slots).0 == lines,
    decreases lines.len(),
{
    let r = cap_rec(lines, room, slots);
    if lines.len() == 0 {
    } else if slots <= 0 {
    } else if lines[0].0.len() > room {
        let c = seq![clip_view(lines[0], room)];
        assert(c.drop_first() =~= Seq::<(Seq<char>, bool, bool)>::empty());
        assert(total_chars(c.drop_first()) == 0);
        assert(total_chars(c) == c[0].0.len());
    } else {
        let rest = cap_rec(lines.drop_first(), room - lines[0].0.len(), slots - 1);
        lemma_cap_rec(lines.drop_first(), room - lines[0].0.len(), slots - 1);
        let c = seq![lines[0]] + rest.0;
        assert(c.drop_first() =~= rest.0);
        assert(c[0] == lines[0]);
        if !rest.1 {
            assert(c =~= lines);
        }
    }
}

/// What a caller-controlled field shows stays within its ceilings, at most [`MAX_FIELD_LINES`]
/// lines and [`MAX_FIELD_CHARS`] characters, and nothing is left out without the field saying so.
pub proof fn capped_fields_stay_within_ceilings(lines: Seq<(Seq<char>, bool, bool)>)
    ensures
        cap_view(lines).0.len() <= MAX_FIELD_LINES,
        total_chars(cap_view(lines).0) <= MAX_FIELD_CHARS,
        !cap_view(lines).1 ==> cap_view(lines).0 == lines,
{
    lemma_cap_rec(lines, MAX_FIELD_CHARS as int, MAX_FIELD_LINES as int);
}

/// Apply the per-field ceilings. Returns the lines to render and whether anything was dropped.
///
/// The character ceiling clips *within* a line rather than dropping it: sudo-prompt's command is one
/// line however many arguments it has, and dropping it would leave the field empty.
pub fn cap(lines: &Vec<Escaped>) -> (r: (Vec<Escaped>, bool))
    ensures
        (views(r.0@), r.1) == cap_view(views(lines@)),
{
    let ghost all = views(lines@);
    let mut out: Vec<Escaped> = Vec::new();
    let mut chars: usize = 0;
    let n = lines.len();
    assert(all.skip(0) =~= all);
    let mut i: usize = 0;
    while i < n
        invariant
            n == lines@.len(),
            all == views(lines@),
            i <= n,
            out@.len() == i,
            chars <= MAX_FIELD_CHARS,
            cap_view(all) == ({
                let r = cap_rec(all.skip(i as int), MAX_FIELD_CHARS - chars, MAX_FIELD_LINES - i);
                (views(out@) + r.0, r.1)
            }),
        decreases n - i,
    {
        if out.len() >= MAX_FIELD_LINES {
            assert(views(out@) + Seq::<(Seq<char>, bool, bool)>::empty() =~= views(out@));
            return (out, true);
        }
        let len = lines[i].char_len();
        assert(all[i as int] == lines@[i as int]@);
        if len > MAX_FIELD_CHARS - chars {
            let ghost o = views(out@);
            let clipped = lines[i].clone().clipped(MAX_FIELD_CHARS - chars);
            out.push(clipped);
            assert(all.skip(i as int)[0] == all[i as int]);
            assert(views(out@) =~= o + seq![clip_view(all[i as int], MAX_FIELD_CHARS - chars)]);
            return (out, true);
        }
        proof {
            lemma_cap_step(all, i as int, MAX_FIELD_CHARS - chars, MAX_FIELD_LINES - i);
        }
        let ghost o = views(out@);
        chars = chars + len;
        out.push(lines[i].clone());
        assert(views(out@) =~= o.push(all[i as int]));
        i = i + 1;
        proof {
            let r = cap_rec(all.skip(i as int), MAX_FIELD_CHARS - chars, MAX_FIELD_LINES - i);
            assert(o + (seq![all[i - 1]] + r.0) =~= views(out@) + r.0);
        }
    }
    assert(all.skip(n as int) =~= Seq::<(Seq<char>, bool, bool)>::empty());
    assert(views(out@) + Seq::<(Seq<char>, bool, bool)>::empty() =~= views(out@));
    (out, false)
}

/// Whether any line has a flag set: `which` picks the escaped (1) or truncated (2) flag.
pub open spec fn any_escaped(vs: Seq<(Seq<char>, bool, bool)>) -> bool {
    exists|i: int| 0 <= i < vs.len() && vs[i].1
}

pub open spec fn any_truncated(vs: Seq<(Seq<char>, bool, bool)>) -> bool {
    exists|i: int| 0 <= i < vs.len() && vs[i].2
}

/// How one field's value is laid out.
pub struct FieldLayout {
    /// The value's text: the capped lines joined, or `(none)` when there are none.
    pub text: Escaped,
    /// The field had no lines; `text` is the placeholder.
    pub empty: bool,
    /// Monospace, wrapping at the column: caller data in a viewport.
    pub mono: bool,
    /// In a bounded scrolling viewport with an overflow marker.
    pub scrolls: bool,
    /// The viewport's natural height ceiling.
    pub max_height: i32,
    /// Style classes of the value.
    pub classes: Vec<&'static str>,
    /// The notes under the value, in order.
    pub notes: Vec<Escaped>,
}

/// Style classes of a field's value.
pub open spec fn spec_value_classes(kind: FieldKind, prominent: bool, flat: bool) -> Seq<Seq<char>> {
    seq![
        match kind {
            FieldKind::Trusted => "pp-trusted-value"@,
            FieldKind::Warning => "pp-warning-value"@,
            FieldKind::Untrusted => "pp-untrusted-value"@,
        },
    ] + (if prominent { seq!["pp-prominent"@] } else { seq![] }) + (if flat {
        seq!["pp-flat"@]
    } else {
        seq![]
    })
}

/// The warnings a field's value earns, then the field's own notes.
pub open spec fn spec_notes(capped: Seq<(Seq<char>, bool, bool)>, dropped: bool, own: Seq<(Seq<char>, bool, bool)>) -> Seq<(Seq<char>, bool, bool)> {
    (if any_escaped(capped) {
        seq![("unsafe characters shown as \\xNN or \\uNNNN"@, false, false)]
    } else {
        seq![]
    }) + (if dropped || any_truncated(capped) {
        seq![("TRUNCATED — not everything is shown here; see the log"@, false, false)]
    } else {
        seq![]
    }) + own
}

/// Lay one field out: the capped value, its notes, and how it is framed.
pub fn layout(field: &Field) -> (l: FieldLayout)
    ensures
        ({
            let c = cap_view(views(field.lines@));
            &&& l.empty == (c.0.len() == 0)
            &&& l.empty ==> l.text@ == ("(none)"@, false, false)
            &&& !l.empty ==> l.text@ == join_views(c.0)
            &&& l.scrolls == (field.kind == FieldKind::Untrusted && !field.flat)
            &&& l.mono == (!l.empty && l.scrolls)
            &&& l.max_height == if field.expand { MAX_EXPANDED_HEIGHT } else { MAX_VIEWPORT_HEIGHT }
            &&& crate::interp::strs(l.classes@) == spec_value_classes(field.kind, field.prominent, field.flat)
            &&& views(l.notes@) == spec_notes(c.0, c.1, views(field.notes@))
        }),
{
    let (lines, capped) = cap(&field.lines);
    let mut escaped_any = false;
    let mut truncated_any = capped;
    let n = lines.len();
    for i in 0..n
        invariant
            n == lines@.len(),
            escaped_any == any_escaped(views(lines@).take(i as int)),
            truncated_any == (capped || any_truncated(views(lines@).take(i as int))),
    {
        let ghost t = views(lines@).take(i + 1);
        assert(t[i as int] == lines@[i as int]@);
        assert(forall|j: int| 0 <= j < i ==> t[j] == views(lines@).take(i as int)[j]);
        escaped_any = escaped_any || lines[i].was_escaped();
        truncated_any = truncated_any || lines[i].was_truncated();
    }
    assert(views(lines@).take(n as int) =~= views(lines@));
    let mut classes: Vec<&'static str> = Vec::new();
    classes.push(match field.kind {
        FieldKind::Trusted => "pp-trusted-value",
        FieldKind::Warning => "pp-warning-value",
        FieldKind::Untrusted => "pp-untrusted-value",
    });
    if field.prominent {
        classes.push("pp-prominent");
    }
    if field.flat {
        classes.push("pp-flat");
    }
    assert(crate::interp::strs(classes@) =~= spec_value_classes(field.kind, field.prominent, field.flat));
    let empty = lines.len() == 0;
    let text = if empty { Escaped::literal("(none)") } else { join(&lines) };
    let scrolls = match field.kind {
        FieldKind::Untrusted => !field.flat,
        _ => false,
    };
    let mut notes: Vec<Escaped> = Vec::new();
    if escaped_any {
        notes.push(Escaped::literal("unsafe characters shown as \\xNN or \\uNNNN"));
    }
    if truncated_any {
        notes.push(Escaped::literal("TRUNCATED — not everything is shown here; see the log"));
    }
    let ghost n0 = views(notes@);
    let m = field.notes.len();
    for k in 0..m
        invariant
            m == field.notes@.len(),
            views(notes@) == n0 + views(field.notes@).take(k as int),
    {
        let ghost before = views(notes@);
        notes.push(field.notes[k].clone());
        assert(views(notes@) =~= before.push(field.notes@[k as int]@));
        assert(views(field.notes@).take(k + 1) =~= views(field.notes@).take(k as int).push(field.notes@[k as int]@));
    }
    assert(views(field.notes@).take(m as int) =~= views(field.notes@));
    assert(views(notes@) =~= spec_notes(views(lines@), capped, views(field.notes@)));
    FieldLayout {
        text,
        empty,
        mono: !empty && scrolls,
        scrolls,
        max_height: if field.expand { MAX_EXPANDED_HEIGHT } else { MAX_VIEWPORT_HEIGHT },
        classes,
        notes,
    }
}

} // verus!
