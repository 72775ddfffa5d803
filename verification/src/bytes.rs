//! Small helpers on byte strings: names and paths are kept as bytes.

use vstd::prelude::*;

verus! {

/// ASCII `/`.
pub const SLASH: u8 = 47;

/// Byte-for-byte equality of two byte strings.
pub fn bytes_eq(a: &[u8], b: &[u8]) -> (r: bool)
    ensures
        r == (a@ == b@),
{
    if a.len() != b.len() {
        assert(a@ != b@) by {
            assert(a@.len() != b@.len());
        }
        return false;
    }
    let n = a.len();
    let mut i: usize = 0;
    while i < n
        invariant
            n == a@.len() == b@.len(),
            i <= n,
            forall|j: int| 0 <= j < i ==> a@[j] == b@[j],
        decreases n - i,
    {
        if a[i] != b[i] {
            return false;
        }
        i = i + 1;
    }
    assert(a@ =~= b@);
    true
}

/// The position just after the last `/` of `p`, or `0` when `p` has none.
pub open spec fn after_last_slash(p: Seq<u8>) -> int
    decreases p.len(),
{
    if p.len() == 0 {
        0
    } else if p[p.len() - 1] == SLASH {
        p.len() as int
    } else {
        after_last_slash(p.drop_last())
    }
}

/// The final path component of `p`: everything after its last `/`.
pub open spec fn basename_of(p: Seq<u8>) -> Seq<u8> {
    p.skip(after_last_slash(p))
}

pub proof fn lemma_after_last_slash_bounds(p: Seq<u8>)
    ensures
        0 <= after_last_slash(p) <= p.len(),
        forall|j: int| after_last_slash(p) <= j < p.len() ==> p[j] != SLASH,
        after_last_slash(p) > 0 ==> p[after_last_slash(p) - 1] == SLASH,
    decreases p.len(),
{
    if p.len() == 0 {
    } else if p[p.len() - 1] == SLASH {
    } else {
        lemma_after_last_slash_bounds(p.drop_last());
        assert(forall|j: int| after_last_slash(p) <= j < p.len() - 1 ==> p.drop_last()[j] == p[j]);
    }
}

/// The final path component of `p`, as `basename_of` gives it.
pub fn basename(p: &[u8]) -> (r: Vec<u8>)
    ensures
        r@ == basename_of(p@),
{
    proof {
        lemma_after_last_slash_bounds(p@);
    }
    let n = p.len();
    let mut cut: usize = 0;
    let mut i: usize = 0;
    while i < n
        invariant
            i <= n,
            n == p@.len(),
            cut == after_last_slash(p@.take(i as int)),
            cut <= i,
        decreases n - i,
    {
        assert(p@.take(i + 1).drop_last() =~= p@.take(i as int));
        if p[i] == SLASH {
            cut = i + 1;
        }
        i = i + 1;
    }
    assert(p@.take(n as int) =~= p@);
    let mut out: Vec<u8> = Vec::new();
    let mut j: usize = cut;
    while j < n
        invariant
            cut <= j <= n,
            n == p@.len(),
            out@ =~= p@.subrange(cut as int, j as int),
        decreases n - j,
    {
        out.push(p[j]);
        j = j + 1;
    }
    assert(out@ =~= p@.skip(cut as int));
    out
}

/// Joining a directory and a relative component, inserting `/` unless the
/// directory is empty or already ends with one.
pub open spec fn join_path(dir: Seq<u8>, rel: Seq<u8>) -> Seq<u8> {
    if dir.len() == 0 {
        rel
    } else if dir[dir.len() - 1] == SLASH {
        dir + rel
    } else {
        dir + seq![SLASH] + rel
    }
}

/// Joins a directory and a relative component, as `join_path` gives it.
pub fn join(dir: &[u8], rel: &[u8]) -> (r: Vec<u8>)
    ensures
        r@ == join_path(dir@, rel@),
{
    let mut out: Vec<u8> = Vec::new();
    out.extend_from_slice(dir);
    if dir.len() > 0 && dir[dir.len() - 1] != SLASH {
        out.push(SLASH);
    }
    out.extend_from_slice(rel);
    assert(out@ =~= join_path(dir@, rel@));
    out
}

/// The bytes of `s` from `a` (inclusive) to `b` (exclusive).
pub fn sub_bytes(s: &[u8], a: usize, b: usize) -> (r: Vec<u8>)
    requires
        a <= b <= s@.len(),
    ensures
        r@ == s@.subrange(a as int, b as int),
{
    let mut out: Vec<u8> = Vec::new();
    let mut i: usize = a;
    while i < b
        invariant
            a <= i <= b <= s@.len(),
            out@ =~= s@.subrange(a as int, i as int),
        decreases b - i,
    {
        out.push(s[i]);
        i = i + 1;
    }
    assert(out@ =~= s@.subrange(a as int, b as int));
    out
}

/// The bytes of `s` from `k` on.
pub fn tail_from(s: &[u8], k: usize) -> (r: Vec<u8>)
    requires
        k <= s@.len(),
    ensures
        r@ == s@.skip(k as int),
{
    let r = sub_bytes(s, k, s.len());
    assert(r@ =~= s@.skip(k as int));
    r
}

/// The byte of one lower-case hexadecimal digit.
pub open spec fn hex_digit_byte(d: int) -> u8 {
    if d < 10 {
        (48 + d) as u8
    } else {
        (87 + d) as u8
    }
}

/// The lower-case hexadecimal digits of `v`, most significant first,
/// without leading zeroes (a single `0` for zero).
pub open spec fn hex_bytes(v: nat) -> Seq<u8>
    decreases v,
{
    if v < 16 {
        seq![hex_digit_byte(v as int)]
    } else {
        hex_bytes(v / 16).push(hex_digit_byte((v % 16) as int))
    }
}

/// The hexadecimal rendering of `v`, as `hex_bytes` says.
pub fn hex_bytes_of(v: u64) -> (r: Vec<u8>)
    ensures
        r@ == hex_bytes(v as nat),
    decreases v,
{
    if v < 16 {
        let d: u8 = if v < 10 {
            48 + (v as u8)
        } else {
            87 + (v as u8)
        };
        let mut r: Vec<u8> = Vec::new();
        r.push(d);
        assert(r@ =~= hex_bytes(v as nat));
        r
    } else {
        let mut r = hex_bytes_of(v / 16);
        let m = v % 16;
        let d: u8 = if m < 10 {
            48 + (m as u8)
        } else {
            87 + (m as u8)
        };
        r.push(d);
        r
    }
}

} // verus!
