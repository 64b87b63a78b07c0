//! The decision record in the systemd journal's native datagram form. Sending it is best-effort
//! and done by the caller; this is the framing.

use vstd::prelude::*;
use vstd::string::*;
use vstd::utf8::encode_utf8;

use crate::bytes::extend;

verus! {

/// The journal's own limit is generous but not unlimited; anything larger is dropped rather than
/// silently mangled. The full text is in the stderr record either way.
pub const MAX_DATAGRAM: usize = 98304;

/// `n` as eight little-endian bytes.
pub open spec fn le_bytes(n: nat, count: nat) -> Seq<u8>
    decreases count,
{
    if count == 0 {
        seq![]
    } else {
        seq![(n % 256) as u8] + le_bytes(n / 256, (count - 1) as nat)
    }
}

/// One field: the name, a newline, the value's length as a little-endian `u64`, the value, and a
/// newline. The binary form handles every value, newlines included, with no quoting rules.
pub open spec fn field_bytes(name: Seq<char>, value: Seq<char>) -> Seq<u8> {
    let v = encode_utf8(value);
    encode_utf8(name) + seq![0x0Au8] + le_bytes(v.len(), 8) + v + seq![0x0Au8]
}

pub open spec fn spec_datagram(fields: Seq<(Seq<char>, Seq<char>)>) -> Seq<u8>
    decreases fields.len(),
{
    if fields.len() == 0 {
        seq![]
    } else {
        spec_datagram(fields.drop_last()) + field_bytes(fields.last().0, fields.last().1)
    }
}

pub open spec fn field_views(fields: Seq<(String, String)>) -> Seq<(Seq<char>, Seq<char>)> {
    fields.map_values(|f: (String, String)| (f.0@, f.1@))
}

fn push_le64(out: &mut Vec<u8>, n: u64)
    ensures
        final(out)@ == old(out)@ + le_bytes(n as nat, 8),
{
    let mut v: u64 = n;
    let mut k: u64 = 0;
    while k < 8
        invariant
            k <= 8,
            out@ + le_bytes(v as nat, (8 - k) as nat) == old(out)@ + le_bytes(n as nat, 8),
        decreases 8 - k,
    {
        let ghost before = out@;
        out.push((v % 256) as u8);
        assert(le_bytes(v as nat, (8 - k) as nat) =~= seq![(v % 256) as u8] + le_bytes((v / 256) as nat, (8 - k - 1) as nat));
        assert(out@ + le_bytes((v / 256) as nat, (8 - k - 1) as nat) =~= before + le_bytes(v as nat, (8 - k) as nat));
        v = v / 256;
        k += 1;
    }
    assert(le_bytes(v as nat, 0) =~= Seq::<u8>::empty());
    assert(out@ =~= old(out)@ + le_bytes(n as nat, 8));
}

/// The datagram for `fields`, or `None` when it is over [`MAX_DATAGRAM`].
pub fn datagram(fields: &Vec<(String, String)>) -> (r: Option<Vec<u8>>)
    ensures
        match r {
            Some(b) => b@ == spec_datagram(field_views(fields@)) && b@.len() <= MAX_DATAGRAM,
            None => spec_datagram(field_views(fields@)).len() > MAX_DATAGRAM,
        },
{
    let mut buf: Vec<u8> = Vec::new();
    let n = fields.len();
    for i in 0..n
        invariant
            n == fields@.len(),
            buf@ == spec_datagram(field_views(fields@).take(i as int)),
    {
        let name = fields[i].0.as_str().as_bytes();
        let value = fields[i].1.as_str().as_bytes();
        extend(&mut buf, name);
        buf.push(0x0A);
        push_le64(&mut buf, value.len() as u64);
        extend(&mut buf, value);
        buf.push(0x0A);
        proof {
            let fv = field_views(fields@);
            assert(fv.take(i + 1).drop_last() =~= fv.take(i as int));
            assert(fv.take(i + 1).last() == (fields@[i as int].0@, fields@[i as int].1@));
            assert(buf@ =~= spec_datagram(fv.take(i as int)) + field_bytes(fields@[i as int].0@, fields@[i as int].1@));
        }
    }
    assert(field_views(fields@).take(n as int) =~= field_views(fields@));
    if buf.len() > MAX_DATAGRAM {
        None
    } else {
        Some(buf)
    }
}

/// The number a byte string spells little-endian: the first byte counts ones, the next 256s, and
/// so on.
pub open spec fn le_value(bs: Seq<u8>) -> nat
    decreases bs.len(),
{
    if bs.len() == 0 {
        0
    } else {
        bs[0] as nat + 256 * le_value(bs.drop_first())
    }
}

/// 256 to the power `c`.
pub open spec fn pow256(c: nat) -> nat
    decreases c,
{
    if c == 0 {
        1
    } else {
        256 * pow256((c - 1) as nat)
    }
}

proof fn lemma_le_read_back(n: nat, c: nat)
    requires
        n < pow256(c),
    ensures
        le_bytes(n, c).len() == c,
        le_value(le_bytes(n, c)) == n,
    decreases c,
{
    if c > 0 {
        let p = pow256((c - 1) as nat);
        assert(n / 256 < p) by (nonlinear_arith)
            requires
                n < 256 * p,
        ;
        lemma_le_read_back(n / 256, (c - 1) as nat);
        let bs = le_bytes(n, c);
        assert(bs[0] == (n % 256) as u8);
        assert(bs.drop_first() =~= le_bytes(n / 256, (c - 1) as nat));
        assert(n == n % 256 + 256 * (n / 256)) by (nonlinear_arith);
    }
}

/// A value's length is written as the eight little-endian bytes of a `u64`, as journald reads
/// it: read back, they give the length.
pub proof fn length_bytes_read_back(n: u64)
    ensures
        le_bytes(n as nat, 8).len() == 8,
        le_value(le_bytes(n as nat, 8)) == n,
{
    reveal_with_fuel(pow256, 9);
    assert(pow256(8) == 0x1_0000_0000_0000_0000nat);
    lemma_le_read_back(n as nat, 8);
}

/// Each field of the datagram, appended after those before it, is its name, a newline, eight
/// bytes that read back little-endian to the byte length of its value, the value, and a newline.
pub proof fn each_field_carries_its_length(fields: Seq<(Seq<char>, Seq<char>)>, name: Seq<char>, value: Seq<char>)
    requires
        encode_utf8(value).len() < 0x1_0000_0000_0000_0000,
    ensures
        ({
            let before = spec_datagram(fields);
            let all = spec_datagram(fields.push((name, value)));
            let k = encode_utf8(name).len() as int;
            let v = encode_utf8(value);
            let f = all.skip(before.len() as int);
            &&& all.take(before.len() as int) == before
            &&& f.len() == k + 10 + v.len()
            &&& f.take(k) == encode_utf8(name)
            &&& f[k] == 0x0Au8
            &&& le_value(f.subrange(k + 1, k + 9)) == v.len()
            &&& f.subrange(k + 9, k + 9 + v.len()) == v
            &&& f[k + 9 + v.len()] == 0x0Au8
        }),
{
    let fs = fields.push((name, value));
    assert(fs.drop_last() =~= fields);
    let before = spec_datagram(fields);
    let all = spec_datagram(fs);
    let v = encode_utf8(value);
    let k = encode_utf8(name).len() as int;
    length_bytes_read_back(v.len() as u64);
    let lb = le_bytes(v.len(), 8);
    let f = field_bytes(name, value);
    assert(all == before + f);
    assert(all.take(before.len() as int) =~= before);
    assert(all.skip(before.len() as int) =~= f);
    assert(f.take(k) =~= encode_utf8(name));
    assert(f.subrange(k + 1, k + 9) =~= lb);
    assert(f.subrange(k + 9, k + 9 + v.len()) =~= v);
}

} // verus!
