use vstd::prelude::*;
use bellman_ce::pairing::bn256::{G1Uncompressed, G2Uncompressed};
use bellman_ce::pairing::EncodedPoint;
use crate::binary::{all_width, chunks_at, read_chunks, u64_be, read_u64_be};
use crate::error::ProveError;

verus! {

/// Whether 64 bytes are the uncompressed encoding of a BN254 G1 point, as
/// `G1Uncompressed::into_affine` decides.
pub uninterp spec fn g1_decodes(b: Seq<u8>) -> bool;

/// Whether 128 bytes are the uncompressed encoding of a BN254 G2 point, as
/// `G2Uncompressed::into_affine` decides.
pub uninterp spec fn g2_decodes(b: Seq<u8>) -> bool;

/// Relies on pairing_ce's `G1Uncompressed::into_affine`: whether the bytes
/// decode to a point on the curve.
#[verifier::external_body]
fn g1_valid(b: &[u8]) -> (r: bool)
    requires
        b@.len() == 64,
    ensures
        r == g1_decodes(b@),
{
    let mut repr = G1Uncompressed::empty();
    repr.as_mut().copy_from_slice(b);
    repr.into_affine().is_ok()
}

/// Relies on pairing_ce's `G2Uncompressed::into_affine`: whether the bytes
/// decode to a point on the twist.
#[verifier::external_body]
fn g2_valid(b: &[u8]) -> (r: bool)
    requires
        b@.len() == 128,
    ensures
        r == g2_decodes(b@),
{
    let mut repr = G2Uncompressed::empty();
    repr.as_mut().copy_from_slice(b);
    repr.into_affine().is_ok()
}

/// A reference string in monomial form: powers of a secret in G1, then in
/// G2, each point uncompressed.
#[derive(Debug, Clone)]
pub struct Crs {
    pub g1: Vec<Vec<u8>>,
    pub g2: Vec<Vec<u8>>,
}

impl Crs {
    /// The degree the reference string supports: its number of G1 powers.
    pub fn degree(&self) -> (r: u64)
        ensures
            r == self.g1@.len(),
    {
        self.g1.len() as u64
    }
}

/// Number of G1 powers, from the first length field.
pub open spec fn crs_n1(s: Seq<u8>) -> int {
    u64_be(s, 0) as int
}

/// Position of the G2 length field.
pub open spec fn crs_g2_at(s: Seq<u8>) -> int {
    8 + 64 * crs_n1(s)
}

pub open spec fn crs_n2(s: Seq<u8>) -> int {
    u64_be(s, crs_g2_at(s)) as int
}

pub open spec fn crs_len(s: Seq<u8>) -> int {
    crs_g2_at(s) + 8 + 128 * crs_n2(s)
}

/// Every `w`-byte item of `s` from `start`, `n` of them, satisfies `ok`.
pub open spec fn all_points(s: Seq<u8>, start: int, w: int, n: int, ok: spec_fn(Seq<u8>) -> bool) -> bool {
    forall|i: int| 0 <= i < n ==> #[trigger] ok(s.subrange(start + i * w, start + (i + 1) * w))
}

/// Why `s` is not a reference string in monomial form, or `None` when it is:
/// a big-endian `u64` count of G1 points, the points (64 bytes each), a count
/// of G2 points, which must be two, the points (128 bytes each).
pub open spec fn crs_error(s: Seq<u8>) -> Option<ProveError> {
    if s.len() < 8 || s.len() < crs_g2_at(s) + 8 || s.len() < crs_len(s) {
        Some(ProveError::TruncatedInput)
    } else if s.len() > crs_len(s) || crs_n2(s) != 2 {
        Some(ProveError::MalformedFormat)
    } else if !all_points(s, 8, 64, crs_n1(s), |b: Seq<u8>| g1_decodes(b))
        || !all_points(s, crs_g2_at(s) + 8, 128, crs_n2(s), |b: Seq<u8>| g2_decodes(b)) {
        Some(ProveError::InvalidEncoding)
    } else {
        None
    }
}

/// Checks that every item of `v` (each `w` bytes) is a point.
fn points_valid(v: &Vec<Vec<u8>>, s: Ghost<Seq<u8>>, start: Ghost<int>, w: usize, g1: bool) -> (r: bool)
    requires
        w == (if g1 { 64usize } else { 128usize }),
        all_width(v@, w as int),
        chunks_at(s@, start@, w as int, v@),
    ensures
        r == all_points(s@, start@, w as int, v@.len() as int,
            if g1 { |b: Seq<u8>| g1_decodes(b) } else { |b: Seq<u8>| g2_decodes(b) }),
{
    let ghost ok = if g1 { |b: Seq<u8>| g1_decodes(b) } else { |b: Seq<u8>| g2_decodes(b) };
    let mut i: usize = 0;
    while i < v.len()
        invariant
            w == (if g1 { 64usize } else { 128usize }),
            ok == (if g1 { |b: Seq<u8>| g1_decodes(b) } else { |b: Seq<u8>| g2_decodes(b) }),
            all_width(v@, w as int),
            chunks_at(s@, start@, w as int, v@),
            i <= v@.len(),
            forall|k: int| 0 <= k < i ==> #[trigger] ok(s@.subrange(start@ + k * w, start@ + (k + 1) * w)),
        decreases v@.len() - i,
    {
        let c = &v[i];
        assert(c@ == s@.subrange(start@ + i * w, start@ + (i + 1) * w));
        let good = if g1 { g1_valid(c.as_slice()) } else { g2_valid(c.as_slice()) };
        if !good {
            assert(!ok(s@.subrange(start@ + i * w, start@ + (i + 1) * w)));
            return false;
        }
        i += 1;
    }
    true
}

/// Reads a reference string in monomial form.
pub fn read_crs(s: &[u8]) -> (r: Result<Crs, ProveError>)
    ensures
        match crs_error(s@) {
            Some(e) => r == Err::<Crs, ProveError>(e),
            None => r matches Ok(c) && c.g1@.len() == crs_n1(s@) && c.g2@.len() == crs_n2(s@)
                && chunks_at(s@, 8, 64, c.g1@) && chunks_at(s@, crs_g2_at(s@) + 8, 128, c.g2@),
        },
{
    let len = s.len();
    if len < 8 {
        return Err(ProveError::TruncatedInput);
    }
    let n1 = read_u64_be(s, 0);
    let g2_at = match n1.checked_mul(64) {
        Some(x) => match x.checked_add(8) {
            Some(y) => y,
            None => return Err(ProveError::TruncatedInput),
        },
        None => return Err(ProveError::TruncatedInput),
    };
    if g2_at > len as u64 || (len as u64) - g2_at < 8 {
        return Err(ProveError::TruncatedInput);
    }
    let g2a = g2_at as usize;
    let n2 = read_u64_be(s, g2a);
    let total = match n2.checked_mul(128) {
        Some(x) => match x.checked_add(g2_at + 8) {
            Some(y) => y,
            None => return Err(ProveError::TruncatedInput),
        },
        None => return Err(ProveError::TruncatedInput),
    };
    if total > len as u64 {
        return Err(ProveError::TruncatedInput);
    }
    if total < len as u64 || n2 != 2 {
        return Err(ProveError::MalformedFormat);
    }
    let g1 = read_chunks(s, 8, 64, n1 as usize);
    let g2 = read_chunks(s, g2a + 8, 128, n2 as usize);
    if !points_valid(&g1, Ghost(s@), Ghost(8int), 64, true) {
        return Err(ProveError::InvalidEncoding);
    }
    if !points_valid(&g2, Ghost(s@), Ghost(g2a + 8), 128, false) {
        return Err(ProveError::InvalidEncoding);
    }
    Ok(Crs { g1, g2 })
}

/// Cutting the last byte off a valid reference string leaves a truncated one.
pub proof fn lemma_truncated_crs_rejected(s: Seq<u8>)
    requires
        crs_error(s) is None,
    ensures
        crs_error(s.drop_last()) == Some(ProveError::TruncatedInput),
{
    let t = s.drop_last();
    if t.len() >= 8 {
        assert(u64_be(t, 0) == u64_be(s, 0));
        if t.len() >= crs_g2_at(s) + 8 {
            assert(u64_be(t, crs_g2_at(s)) == u64_be(s, crs_g2_at(s)));
        }
    }
}

} // verus!
