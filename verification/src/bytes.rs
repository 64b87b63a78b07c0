//! Byte-string helpers shared by the parsers: comparison, search, and ASCII literals.

use vstd::prelude::*;
use vstd::string::*;

verus! {

/// The bytes of an ASCII character sequence.
pub open spec fn ascii_of(cs: Seq<char>) -> Seq<u8> {
    cs.map_values(|c: char| c as u8)
}

/// The bytes of an ASCII string literal.
pub fn ascii(s: &str) -> (b: Vec<u8>)
    requires
        is_ascii(s),
    ensures
        b@ == ascii_of(s@),
{
    proof {
        is_ascii_spec_bytes(s);
    }
    let bs = s.as_bytes();
    let mut out: Vec<u8> = Vec::new();
    let n = bs.len();
    for i in 0..n
        invariant
            n == bs@.len(),
            bs@ == s.spec_bytes(),
            bs@ =~= Seq::new(s@.len(), |j: int| s@[j] as u8),
            out@ =~= ascii_of(s@).take(i as int),
    {
        out.push(bs[i]);
    }
    assert(out@ =~= ascii_of(s@));
    out
}

pub fn bytes_eq(a: &[u8], b: &[u8]) -> (r: bool)
    ensures
        r == (a@ == b@),
{
    if a.len() != b.len() {
        return false;
    }
    let n = a.len();
    for i in 0..n
        invariant
            n == a@.len(),
            n == b@.len(),
            forall|j: int| 0 <= j < i ==> a@[j] == b@[j],
    {
        if a[i] != b[i] {
            return false;
        }
    }
    assert(a@ =~= b@);
    true
}

/// `a` begins with `prefix`.
pub open spec fn has_prefix(a: Seq<u8>, prefix: Seq<u8>) -> bool {
    prefix.len() <= a.len() && a.take(prefix.len() as int) == prefix
}

pub fn starts_with(a: &[u8], prefix: &[u8]) -> (r: bool)
    ensures
        r == has_prefix(a@, prefix@),
{
    if prefix.len() > a.len() {
        return false;
    }
    let n = prefix.len();
    for i in 0..n
        invariant
            n == prefix@.len(),
            n <= a@.len(),
            forall|j: int| 0 <= j < i ==> a@[j] == prefix@[j],
    {
        if a[i] != prefix[i] {
            assert(a@.take(n as int)[i as int] != prefix@[i as int]);
            return false;
        }
    }
    assert(a@.take(n as int) =~= prefix@);
    true
}

/// Index of the first occurrence of `x` in `s`, if any.
pub open spec fn first_index(s: Seq<u8>, x: u8) -> Option<int> {
    if exists|i: int| 0 <= i < s.len() && s[i] == x {
        Some(choose|i: int| 0 <= i < s.len() && s[i] == x && forall|j: int| 0 <= j < i ==> s[j] != x)
    } else {
        None
    }
}

proof fn lemma_first_witness(s: Seq<u8>, x: u8, k: int)
    requires
        0 <= k < s.len(),
        s[k] == x,
    ensures
        exists|i: int| 0 <= i < s.len() && s[i] == x && forall|j: int| 0 <= j < i ==> s[j] != x,
    decreases k,
{
    if exists|j: int| 0 <= j < k && s[j] == x {
        let j = choose|j: int| 0 <= j < k && s[j] == x;
        lemma_first_witness(s, x, j);
    } else {
        assert(0 <= k < s.len() && s[k] == x && forall|j: int| 0 <= j < k ==> s[j] != x);
    }
}

/// `first_index` is the index of the first occurrence, and `None` exactly when there is none.
pub proof fn lemma_first_index(s: Seq<u8>, x: u8)
    ensures
        first_index(s, x) matches Some(i) ==> 0 <= i < s.len() && s[i] == x && forall|j: int|
            0 <= j < i ==> s[j] != x,
        first_index(s, x) is None <==> forall|j: int| 0 <= j < s.len() ==> s[j] != x,
{
    if exists|k: int| 0 <= k < s.len() && s[k] == x {
        let k = choose|k: int| 0 <= k < s.len() && s[k] == x;
        lemma_first_witness(s, x, k);
    }
}

pub fn position(s: &[u8], x: u8) -> (r: Option<usize>)
    ensures
        match r {
            Some(i) => i < s@.len() && s@[i as int] == x && forall|j: int| 0 <= j < i ==> s@[j] != x,
            None => forall|j: int| 0 <= j < s@.len() ==> s@[j] != x,
        },
        r matches Some(i) ==> first_index(s@, x) == Some(i as int),
        r is None <==> first_index(s@, x) is None,
{
    let n = s.len();
    for i in 0..n
        invariant
            n == s@.len(),
            forall|j: int| 0 <= j < i ==> s@[j] != x,
    {
        if s[i] == x {
            proof {
                let w = choose|k: int| 0 <= k < s@.len() && s@[k] == x && forall|j: int| 0 <= j < k ==> s@[j] != x;
                assert(0 <= i < s@.len() && s@[i as int] == x && forall|j: int| 0 <= j < i ==> s@[j] != x);
                if w < i {
                } else if w > i {
                    assert(s@[i as int] != x);
                }
            }
            return Some(i);
        }
    }
    None
}

/// Index of the last occurrence of `x` in `s`, if any.
pub fn rposition(s: &[u8], x: u8) -> (r: Option<usize>)
    ensures
        match r {
            Some(i) => i < s@.len() && s@[i as int] == x && forall|j: int| i < j < s@.len() ==> s@[j] != x,
            None => forall|j: int| 0 <= j < s@.len() ==> s@[j] != x,
        },
{
    let mut i = s.len();
    while i > 0
        invariant
            i <= s@.len(),
            forall|j: int| i <= j < s@.len() ==> s@[j] != x,
        decreases i,
    {
        i = i - 1;
        if s[i] == x {
            return Some(i);
        }
    }
    None
}

/// Copy of `s[from..to]`.
pub fn slice_to_vec(s: &[u8], from: usize, to: usize) -> (r: Vec<u8>)
    requires
        from <= to <= s@.len(),
    ensures
        r@ == s@.subrange(from as int, to as int),
{
    let mut out: Vec<u8> = Vec::new();
    let mut i = from;
    while i < to
        invariant
            from <= i <= to <= s@.len(),
            out@ =~= s@.subrange(from as int, i as int),
        decreases to - i,
    {
        out.push(s[i]);
        i = i + 1;
    }
    out
}

/// Appends `s` to `out`.
pub fn extend(out: &mut Vec<u8>, s: &[u8])
    ensures
        final(out)@ == old(out)@ + s@,
{
    let n = s.len();
    for i in 0..n
        invariant
            n == s@.len(),
            out@ =~= old(out)@ + s@.take(i as int),
    {
        out.push(s[i]);
    }
    assert(s@.take(n as int) =~= s@);
}

/// The pieces of `s` between occurrences of `sep`, as `[u8]::split` gives them: one more piece
/// than there are separators, empty pieces included.
#[verifier::opaque]
pub open spec fn split_on(s: Seq<u8>, sep: u8) -> Seq<Seq<u8>>
    decreases s.len(),
{
    match first_index(s, sep) {
        None => seq![s],
        Some(i) => if 0 <= i < s.len() {
            seq![s.take(i)] + split_on(s.skip(i + 1), sep)
        } else {
            seq![]
        },
    }
}

proof fn lemma_split_on_first(s: Seq<u8>, sep: u8, i: int)
    requires
        first_index(s, sep) == Some(i),
        0 <= i < s.len(),
    ensures
        split_on(s, sep) == seq![s.take(i)] + split_on(s.skip(i + 1), sep),
{
    reveal(split_on);
}

proof fn lemma_split_on_last(s: Seq<u8>, sep: u8)
    requires
        first_index(s, sep) is None,
    ensures
        split_on(s, sep) == seq![s],
{
    reveal(split_on);
}

pub open spec fn byte_views(v: Seq<Vec<u8>>) -> Seq<Seq<u8>> {
    v.map_values(|x: Vec<u8>| x@)
}

/// `s` split at every `sep`.
pub fn split(s: &[u8], sep: u8) -> (r: Vec<Vec<u8>>)
    ensures
        byte_views(r@) == split_on(s@, sep),
{
    let mut out: Vec<Vec<u8>> = Vec::new();
    let mut pos: usize = 0;
    assert(s@.skip(0) =~= s@);
    assert(byte_views(out@) =~= Seq::<Seq<u8>>::empty());
    loop
        invariant
            pos <= s@.len(),
            byte_views(out@) + split_on(s@.skip(pos as int), sep) == split_on(s@, sep),
        decreases s@.len() - pos,
    {
        let rest = vstd::slice::slice_subrange(s, pos, s.len());
        assert(rest@ =~= s@.skip(pos as int));
        let ghost before = byte_views(out@);
        match position(rest, sep) {
            None => {
                proof {
                    lemma_split_on_last(rest@, sep);
                }
                out.push(vstd::slice::slice_to_vec(rest));
                assert(byte_views(out@) =~= before + seq![rest@]);
                return out;
            },
            Some(i) => {
                let piece = vstd::slice::slice_subrange(rest, 0, i);
                assert(piece@ =~= rest@.take(i as int));
                proof {
                    lemma_split_on_first(rest@, sep, i as int);
                }
                out.push(vstd::slice::slice_to_vec(piece));
                assert(rest@.skip(i + 1) =~= s@.skip(pos + i + 1));
                let ghost tail = split_on(s@.skip(pos + i + 1), sep);
                assert(byte_views(out@) =~= before + seq![piece@]);
                assert(before + (seq![piece@] + tail) =~= (before + seq![piece@]) + tail);
                pos = pos + i + 1;
            },
        }
    }
}

} // verus!
