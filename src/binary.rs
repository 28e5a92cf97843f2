use vstd::prelude::*;

verus! {

/// The little-endian `u32` at `at`.
pub open spec fn u32_le(s: Seq<u8>, at: int) -> nat {
    s[at] as nat + 256 * (s[at + 1] as nat) + 65536 * (s[at + 2] as nat) + 16777216 * (s[at + 3] as nat)
}

/// The little-endian `u64` at `at`.
pub open spec fn u64_le(s: Seq<u8>, at: int) -> nat {
    u32_le(s, at) + 4294967296 * u32_le(s, at + 4)
}

pub fn read_u32(s: &[u8], at: usize) -> (r: u32)
    requires
        at + 4 <= s@.len(),
    ensures
        r == u32_le(s@, at as int),
{
    let b0 = s[at] as u32;
    let b1 = s[at + 1] as u32;
    let b2 = s[at + 2] as u32;
    let b3 = s[at + 3] as u32;
    b0 + 256 * b1 + 65536 * b2 + 16777216 * b3
}

pub fn read_u64(s: &[u8], at: usize) -> (r: u64)
    requires
        at + 8 <= s@.len(),
    ensures
        r == u64_le(s@, at as int),
{
    let len = s.len();
    assert(at + 8 <= len);
    let lo = read_u32(s, at) as u64;
    let hi = read_u32(s, at + 4) as u64;
    lo + 4294967296 * hi
}

/// A copy of `s[lo..hi]`.
pub fn copy_range(s: &[u8], lo: usize, hi: usize) -> (r: Vec<u8>)
    requires
        lo <= hi <= s@.len(),
    ensures
        r@ == s@.subrange(lo as int, hi as int),
{
    let mut r: Vec<u8> = Vec::new();
    let mut i: usize = lo;
    while i < hi
        invariant
            lo <= i <= hi <= s@.len(),
            r@ == s@.subrange(lo as int, i as int),
        decreases hi - i,
    {
        r.push(s[i]);
        proof {
            assert(s@.subrange(lo as int, i + 1) =~= s@.subrange(lo as int, i as int).push(s@[i as int]));
        }
        i += 1;
    }
    r
}

pub open spec fn all_width(v: Seq<Vec<u8>>, w: int) -> bool {
    forall|i: int| 0 <= i < v.len() ==> (#[trigger] v[i])@.len() == w
}

/// `v`'s items stand back to back in `s` from `start`, `w` bytes each.
pub open spec fn chunks_at(s: Seq<u8>, start: int, w: int, v: Seq<Vec<u8>>) -> bool {
    forall|i: int| 0 <= i < v.len() ==> s.subrange(start + i * w, start + (i + 1) * w) == (#[trigger] v[i])@
}

/// Reads `k` items of `w` bytes each, back to back from `start`.
pub fn read_chunks(s: &[u8], start: usize, w: usize, k: usize) -> (r: Vec<Vec<u8>>)
    requires
        start + k * w <= s@.len(),
    ensures
        r@.len() == k,
        all_width(r@, w as int),
        chunks_at(s@, start as int, w as int, r@),
{
    let mut r: Vec<Vec<u8>> = Vec::new();
    let mut i: usize = 0;
    let mut pos = start;
    let len = s.len();
    assert(start + k * w <= len);
    while i < k
        invariant
            s@.len() <= usize::MAX,
            start + k * w <= s@.len(),
            i <= k,
            pos == start + i * w,
            r@.len() == i,
            all_width(r@, w as int),
            chunks_at(s@, start as int, w as int, r@),
        decreases k - i,
    {
        assert((i + 1) * w <= k * w) by (nonlinear_arith)
            requires
                i + 1 <= k,
        ;
        assert((i + 1) * w == i * w + w) by (nonlinear_arith);
        let c = copy_range(s, pos, pos + w);
        r.push(c);
        pos = pos + w;
        i += 1;
    }
    r
}

/// The big-endian `u32` at `at`.
pub open spec fn u32_be(s: Seq<u8>, at: int) -> nat {
    16777216 * (s[at] as nat) + 65536 * (s[at + 1] as nat) + 256 * (s[at + 2] as nat) + s[at + 3] as nat
}

/// The big-endian `u64` at `at`.
pub open spec fn u64_be(s: Seq<u8>, at: int) -> nat {
    4294967296 * u32_be(s, at) + u32_be(s, at + 4)
}

pub fn read_u32_be(s: &[u8], at: usize) -> (r: u32)
    requires
        at + 4 <= s@.len(),
    ensures
        r == u32_be(s@, at as int),
{
    let b0 = s[at] as u32;
    let b1 = s[at + 1] as u32;
    let b2 = s[at + 2] as u32;
    let b3 = s[at + 3] as u32;
    16777216 * b0 + 65536 * b1 + 256 * b2 + b3
}

pub fn read_u64_be(s: &[u8], at: usize) -> (r: u64)
    requires
        at + 8 <= s@.len(),
    ensures
        r == u64_be(s@, at as int),
{
    let len = s.len();
    assert(at + 8 <= len);
    let hi = read_u32_be(s, at) as u64;
    let lo = read_u32_be(s, at + 4) as u64;
    4294967296 * hi + lo
}

/// Appends `x` as a big-endian `u64`.
pub fn push_u64_be(out: &mut Vec<u8>, x: u64)
    ensures
        final(out)@.len() == old(out)@.len() + 8,
        final(out)@.subrange(0, old(out)@.len() as int) == old(out)@,
        u64_be(final(out)@, old(out)@.len() as int) == x,
{
    let b0 = x % 256;
    let y1 = x / 256;
    let b1 = y1 % 256;
    let y2 = y1 / 256;
    let b2 = y2 % 256;
    let y3 = y2 / 256;
    let b3 = y3 % 256;
    let y4 = y3 / 256;
    let b4 = y4 % 256;
    let y5 = y4 / 256;
    let b5 = y5 % 256;
    let y6 = y5 / 256;
    let b6 = y6 % 256;
    let y7 = y6 / 256;
    let b7 = y7 % 256;
    assert(y7 / 256 == 0);
    let ghost start = out@.len() as int;
    out.push(b7 as u8);
    out.push(b6 as u8);
    out.push(b5 as u8);
    out.push(b4 as u8);
    out.push(b3 as u8);
    out.push(b2 as u8);
    out.push(b1 as u8);
    out.push(b0 as u8);
    assert(out@.subrange(0, start) =~= old(out)@);
}

} // verus!
