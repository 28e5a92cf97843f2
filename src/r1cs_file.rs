use vstd::prelude::*;
use crate::binary::{u32_le, u64_le, read_u32, read_u64, copy_range};
use crate::error::ProveError;
use crate::r1cs::{Constraint, R1cs, Term};

verus! {

/// Where the linear combination that starts at `at` ends: a term count,
/// then that many terms of a wire index and a coefficient of `fs` bytes.
pub open spec fn lc_end(s: Seq<u8>, at: int, fs: int) -> int {
    at + 4 + u32_le(s, at) * (4 + fs)
}

/// Start of term `k` of the linear combination at `at`.
pub open spec fn term_pos(at: int, fs: int, k: int) -> int {
    at + 4 + k * (4 + fs)
}

/// The linear combination at `at` fits below `limit`.
pub open spec fn lc_fits(s: Seq<u8>, at: int, fs: int, limit: int) -> bool {
    at + 4 <= limit && lc_end(s, at, fs) <= limit
}

/// `lc` holds the terms of the linear combination at `at`.
pub open spec fn lc_matches(lc: Seq<Term>, s: Seq<u8>, at: int, fs: int) -> bool {
    &&& lc.len() == u32_le(s, at)
    &&& forall|k: int| 0 <= k < lc.len() ==> {
        &&& (#[trigger] lc[k]).wire == u32_le(s, term_pos(at, fs, k))
        &&& lc[k].coeff@ == s.subrange(term_pos(at, fs, k) + 4, term_pos(at, fs, k + 1))
    }
}

pub open spec fn b_start(s: Seq<u8>, at: int, fs: int) -> int {
    lc_end(s, at, fs)
}

pub open spec fn c_start(s: Seq<u8>, at: int, fs: int) -> int {
    lc_end(s, b_start(s, at, fs), fs)
}

/// Where the constraint at `at` (three linear combinations) ends.
pub open spec fn constraint_end(s: Seq<u8>, at: int, fs: int) -> int {
    lc_end(s, c_start(s, at, fs), fs)
}

pub open spec fn constraint_fits(s: Seq<u8>, at: int, fs: int, limit: int) -> bool {
    lc_fits(s, at, fs, limit) && lc_fits(s, b_start(s, at, fs), fs, limit)
        && lc_fits(s, c_start(s, at, fs), fs, limit)
}

pub open spec fn constraint_matches(c: Constraint, s: Seq<u8>, at: int, fs: int) -> bool {
    lc_matches(c.a@, s, at, fs) && lc_matches(c.b@, s, b_start(s, at, fs), fs)
        && lc_matches(c.c@, s, c_start(s, at, fs), fs)
}

/// Start of constraint `j` of a section whose content starts at `start`.
pub open spec fn cons_start(s: Seq<u8>, start: int, fs: int, j: int) -> int
    decreases j,
{
    if j <= 0 {
        start
    } else {
        constraint_end(s, cons_start(s, start, fs, j - 1), fs)
    }
}

/// The first `j` constraints fit below `limit`.
pub open spec fn cons_fit(s: Seq<u8>, start: int, fs: int, j: int, limit: int) -> bool
    decreases j,
{
    if j <= 0 {
        true
    } else {
        cons_fit(s, start, fs, j - 1, limit) && constraint_fits(s, cons_start(s, start, fs, j - 1), fs, limit)
    }
}

proof fn lemma_cons_fit_prefix(s: Seq<u8>, start: int, fs: int, i: int, j: int, limit: int)
    requires
        0 <= i <= j,
        cons_fit(s, start, fs, j, limit),
    ensures
        cons_fit(s, start, fs, i, limit),
    decreases j - i,
{
    if i < j {
        lemma_cons_fit_prefix(s, start, fs, i, j - 1, limit);
    }
}

fn parse_lc(s: &[u8], at: usize, fs: usize, limit: usize) -> (r: Option<(Vec<Term>, usize)>)
    requires
        limit <= s@.len(),
        fs <= u32::MAX,
    ensures
        r is Some <==> lc_fits(s@, at as int, fs as int, limit as int),
        r matches Some((lc, end)) ==> end == lc_end(s@, at as int, fs as int)
            && lc_matches(lc@, s@, at as int, fs as int),
{
    if at > limit || limit - at < 4 {
        return None;
    }
    let n = read_u32(s, at) as usize;
    if n == 0 {
        return Some((Vec::new(), at + 4));
    }
    let width = match fs.checked_add(4) {
        Some(x) => x,
        None => {
            assert(n * (4 + fs) >= 4 + fs) by (nonlinear_arith)
                requires
                    n >= 1,
                    fs >= 0,
            ;
            return None;
        },
    };
    let body = match n.checked_mul(width) {
        Some(b) => b,
        None => {
            assert(n * width > usize::MAX);
            return None;
        },
    };
    if body > limit - at - 4 {
        return None;
    }
    let end = at + 4 + body;
    let mut lc: Vec<Term> = Vec::new();
    let mut pos: usize = at + 4;
    let mut k: usize = 0;
    while k < n
        invariant
            limit <= s@.len(),
            n == u32_le(s@, at as int),
            width == 4 + fs,
            end == at + 4 + n * width <= limit,
            k <= n,
            pos == term_pos(at as int, fs as int, k as int),
            lc@.len() == k,
            forall|i: int| 0 <= i < k ==> {
                &&& (#[trigger] lc@[i]).wire == u32_le(s@, term_pos(at as int, fs as int, i))
                &&& lc@[i].coeff@ == s@.subrange(term_pos(at as int, fs as int, i) + 4,
                    term_pos(at as int, fs as int, i + 1))
            },
        decreases n - k,
    {
        assert(pos + width <= end) by (nonlinear_arith)
            requires
                pos == at + 4 + k * width,
                end == at + 4 + n * width,
                k < n,
        ;
        assert(term_pos(at as int, fs as int, k + 1) == pos + width) by (nonlinear_arith)
            requires
                pos == at + 4 + k * (4 + fs),
                width == 4 + fs,
        ;
        let wire = read_u32(s, pos);
        let coeff = copy_range(s, pos + 4, pos + width);
        lc.push(Term { wire, coeff });
        pos = pos + width;
        k = k + 1;
    }
    Some((lc, end))
}

fn parse_constraint(s: &[u8], at: usize, fs: usize, limit: usize) -> (r: Option<(Constraint, usize)>)
    requires
        limit <= s@.len(),
        fs <= u32::MAX,
    ensures
        r is Some <==> constraint_fits(s@, at as int, fs as int, limit as int),
        r matches Some((c, end)) ==> end == constraint_end(s@, at as int, fs as int)
            && constraint_matches(c, s@, at as int, fs as int),
{
    let (a, pb) = match parse_lc(s, at, fs, limit) {
        Some(x) => x,
        None => return None,
    };
    let (b, pc) = match parse_lc(s, pb, fs, limit) {
        Some(x) => x,
        None => return None,
    };
    let (c, end) = match parse_lc(s, pc, fs, limit) {
        Some(x) => x,
        None => return None,
    };
    Some((Constraint { a, b, c }, end))
}

/// Parses `m` constraints that must fill `start .. limit` exactly.
fn parse_constraints(s: &[u8], start: usize, fs: usize, m: u32, limit: usize) -> (r: Option<Vec<Constraint>>)
    requires
        start <= limit <= s@.len(),
        fs <= u32::MAX,
    ensures
        r is Some <==> cons_fit(s@, start as int, fs as int, m as int, limit as int)
            && cons_start(s@, start as int, fs as int, m as int) == limit,
        r matches Some(cs) ==> cs@.len() == m && forall|j: int| 0 <= j < m ==> constraint_matches(
            #[trigger] cs@[j], s@, cons_start(s@, start as int, fs as int, j), fs as int),
{
    let mut cs: Vec<Constraint> = Vec::new();
    let mut pos = start;
    let mut j: u32 = 0;
    while j < m
        invariant
            start <= limit <= s@.len(),
            fs <= u32::MAX,
            j <= m,
            pos == cons_start(s@, start as int, fs as int, j as int),
            cons_fit(s@, start as int, fs as int, j as int, limit as int),
            cs@.len() == j,
            forall|i: int| 0 <= i < j ==> constraint_matches(
                #[trigger] cs@[i], s@, cons_start(s@, start as int, fs as int, i), fs as int),
        decreases m - j,
    {
        match parse_constraint(s, pos, fs, limit) {
            Some((c, end)) => {
                cs.push(c);
                pos = end;
            },
            None => {
                proof {
                    if cons_fit(s@, start as int, fs as int, m as int, limit as int) {
                        lemma_cons_fit_prefix(s@, start as int, fs as int, j + 1, m as int, limit as int);
                    }
                }
                return None;
            },
        }
        j = j + 1;
    }
    if pos != limit {
        return None;
    }
    Some(cs)
}

/// Width of a field element, from the header section.
pub open spec fn r1cs_field_size(s: Seq<u8>) -> int {
    u32_le(s, 24) as int
}

/// Start of the constraints section's content.
pub open spec fn r1cs_cons_start(s: Seq<u8>) -> int {
    68 + r1cs_field_size(s)
}

/// End of the constraints section's content.
pub open spec fn r1cs_cons_end(s: Seq<u8>) -> int {
    r1cs_cons_start(s) + u64_le(s, 60 + r1cs_field_size(s))
}

pub open spec fn r1cs_n_constraints(s: Seq<u8>) -> int {
    u32_le(s, 52 + r1cs_field_size(s)) as int
}

/// End of the optional wire-to-label section that follows the constraints.
pub open spec fn r1cs_labels_end(s: Seq<u8>) -> int {
    r1cs_cons_end(s) + 12 + u64_le(s, r1cs_cons_end(s) + 4)
}

/// Why the layout of `s` is not that of a `.r1cs` file, or `None` when it is:
/// magic `r1cs`, version 1, two or three sections in order: the header (field
/// size, modulus, wire counts, label count, constraint count), the
/// constraints, and optionally the wire-to-label map.
pub open spec fn r1cs_error(s: Seq<u8>) -> Option<ProveError> {
    let fs = r1cs_field_size(s);
    let nsec = u32_le(s, 8);
    let cstart = r1cs_cons_start(s);
    let cend = r1cs_cons_end(s);
    if s.len() < 28 {
        Some(ProveError::TruncatedInput)
    } else if !(s[0] == 0x72 && s[1] == 0x31 && s[2] == 0x63 && s[3] == 0x73) {
        Some(ProveError::MalformedFormat)
    } else if u32_le(s, 4) != 1 {
        Some(ProveError::UnsupportedVersion)
    } else if !(nsec == 2 || nsec == 3) || u32_le(s, 12) != 1 || u64_le(s, 16) != fs + 32 {
        Some(ProveError::MalformedFormat)
    } else if s.len() < cstart {
        Some(ProveError::TruncatedInput)
    } else if u32_le(s, 56 + fs) != 2 {
        Some(ProveError::MalformedFormat)
    } else if s.len() < cend {
        Some(ProveError::TruncatedInput)
    } else if !(cons_fit(s, cstart, fs, r1cs_n_constraints(s), cend)
        && cons_start(s, cstart, fs, r1cs_n_constraints(s)) == cend) {
        Some(ProveError::MalformedFormat)
    } else if nsec == 2 {
        if s.len() > cend {
            Some(ProveError::MalformedFormat)
        } else {
            None
        }
    } else if s.len() < cend + 12 {
        Some(ProveError::TruncatedInput)
    } else if u32_le(s, cend) != 3 {
        Some(ProveError::MalformedFormat)
    } else if s.len() < r1cs_labels_end(s) {
        Some(ProveError::TruncatedInput)
    } else if s.len() > r1cs_labels_end(s) {
        Some(ProveError::MalformedFormat)
    } else {
        None
    }
}

/// `r` holds what the well-laid-out file `s` holds.
pub open spec fn r1cs_matches(s: Seq<u8>, r: R1cs) -> bool {
    let fs = r1cs_field_size(s);
    &&& r.field_size == fs
    &&& r.prime@ == s.subrange(28, 28 + fs)
    &&& r.n_wires == u32_le(s, 28 + fs)
    &&& r.n_pub_out == u32_le(s, 32 + fs)
    &&& r.n_pub_in == u32_le(s, 36 + fs)
    &&& r.n_prv_in == u32_le(s, 40 + fs)
    &&& r.n_labels == u64_le(s, 44 + fs)
    &&& r.constraints@.len() == r1cs_n_constraints(s)
    &&& forall|j: int| 0 <= j < r.constraints@.len() ==> constraint_matches(
        #[trigger] r.constraints@[j], s, cons_start(s, r1cs_cons_start(s), fs, j), fs)
}

/// Reads a circuit from the bytes of a `.r1cs` file. A file whose layout is
/// valid but whose modulus is zero or whose constraints name undeclared wires
/// is malformed.
pub fn read_r1cs(s: &[u8]) -> (r: Result<R1cs, ProveError>)
    ensures
        match r1cs_error(s@) {
            Some(e) => r == Err::<R1cs, ProveError>(e),
            None => match r {
                Ok(c) => r1cs_matches(s@, c) && c.modulus() > 0 && c.wires_in_range(),
                Err(e) => e == ProveError::MalformedFormat && forall|c: R1cs| #[trigger]
                    r1cs_matches(s@, c) ==> !(c.modulus() > 0 && c.wires_in_range()),
            },
        },
{
    let len = s.len() as u64;
    if s.len() < 28 {
        return Err(ProveError::TruncatedInput);
    }
    if !(s[0] == 0x72 && s[1] == 0x31 && s[2] == 0x63 && s[3] == 0x73) {
        return Err(ProveError::MalformedFormat);
    }
    if read_u32(s, 4) != 1 {
        return Err(ProveError::UnsupportedVersion);
    }
    let nsec = read_u32(s, 8);
    let fs32 = read_u32(s, 24);
    let fs = fs32 as u64;
    if !(nsec == 2 || nsec == 3) || read_u32(s, 12) != 1 || read_u64(s, 16) != fs + 32 {
        return Err(ProveError::MalformedFormat);
    }
    if len < 68 + fs {
        return Err(ProveError::TruncatedInput);
    }
    let f = fs32 as usize;
    if read_u32(s, 56 + f) != 2 {
        return Err(ProveError::MalformedFormat);
    }
    let csize = read_u64(s, 60 + f);
    let cend = match (68 + fs).checked_add(csize) {
        Some(e) if e <= len => e as usize,
        _ => return Err(ProveError::TruncatedInput),
    };
    let m = read_u32(s, 52 + f);
    let constraints = match parse_constraints(s, 68 + f, f, m, cend) {
        Some(cs) => cs,
        None => return Err(ProveError::MalformedFormat),
    };
    if nsec == 2 {
        if s.len() > cend {
            return Err(ProveError::MalformedFormat);
        }
    } else {
        if s.len() - cend < 12 {
            return Err(ProveError::TruncatedInput);
        }
        if read_u32(s, cend) != 3 {
            return Err(ProveError::MalformedFormat);
        }
        let lsize = read_u64(s, cend + 4);
        if lsize > (s.len() - cend - 12) as u64 {
            return Err(ProveError::TruncatedInput);
        }
        if lsize < (s.len() - cend - 12) as u64 {
            return Err(ProveError::MalformedFormat);
        }
    }
    let r = R1cs {
        field_size: fs32,
        prime: copy_range(s, 28, 28 + f),
        n_wires: read_u32(s, 28 + f),
        n_pub_out: read_u32(s, 32 + f),
        n_pub_in: read_u32(s, 36 + f),
        n_prv_in: read_u32(s, 40 + f),
        n_labels: read_u64(s, 44 + f),
        constraints,
    };
    if !r.shape_ok() {
        proof {
            assert forall|c: R1cs| #[trigger] r1cs_matches(s@, c) implies !(c.modulus() > 0
                && c.wires_in_range()) by {
                assert(c.prime@ == r.prime@);
                assert(c.n_wires == r.n_wires);
                assert(c.constraints@.len() == r.constraints@.len());
                assert forall|j: int| 0 <= j < c.constraints@.len() implies
                    lc_same(c.constraints@[j], r.constraints@[j]) by {
                    lemma_matches_same(c.constraints@[j], r.constraints@[j], s@,
                        cons_start(s@, r1cs_cons_start(s@), r1cs_field_size(s@), j), r1cs_field_size(s@));
                }
                if c.wires_in_range() {
                    assert forall|j: int| 0 <= j < r.constraints@.len() implies
                        crate::r1cs::constraint_wires_below(#[trigger] r.constraints@[j], r.n_wires as nat) by {
                        assert(crate::r1cs::constraint_wires_below(c.constraints@[j], c.n_wires as nat));
                        assert(lc_same(c.constraints@[j], r.constraints@[j]));
                    }
                }
            }
        }
        return Err(ProveError::MalformedFormat);
    }
    Ok(r)
}

/// Two constraints with the same wires in every term.
pub open spec fn lc_same(x: Constraint, y: Constraint) -> bool {
    &&& x.a@.len() == y.a@.len() && forall|k: int| 0 <= k < x.a@.len() ==> x.a@[k].wire == y.a@[k].wire
    &&& x.b@.len() == y.b@.len() && forall|k: int| 0 <= k < x.b@.len() ==> x.b@[k].wire == y.b@[k].wire
    &&& x.c@.len() == y.c@.len() && forall|k: int| 0 <= k < x.c@.len() ==> x.c@[k].wire == y.c@[k].wire
}

proof fn lemma_matches_same(x: Constraint, y: Constraint, s: Seq<u8>, at: int, fs: int)
    requires
        constraint_matches(x, s, at, fs),
        constraint_matches(y, s, at, fs),
    ensures
        lc_same(x, y),
{
    assert forall|k: int| 0 <= k < x.a@.len() implies x.a@[k].wire == y.a@[k].wire by {
        assert(x.a@[k].wire == u32_le(s, term_pos(at, fs, k)));
        assert(y.a@[k].wire == u32_le(s, term_pos(at, fs, k)));
    }
    assert forall|k: int| 0 <= k < x.b@.len() implies x.b@[k].wire == y.b@[k].wire by {
        assert(x.b@[k].wire == u32_le(s, term_pos(b_start(s, at, fs), fs, k)));
        assert(y.b@[k].wire == u32_le(s, term_pos(b_start(s, at, fs), fs, k)));
    }
    assert forall|k: int| 0 <= k < x.c@.len() implies x.c@[k].wire == y.c@[k].wire by {
        assert(x.c@[k].wire == u32_le(s, term_pos(c_start(s, at, fs), fs, k)));
        assert(y.c@[k].wire == u32_le(s, term_pos(c_start(s, at, fs), fs, k)));
    }
}

/// Cutting the last byte off a valid `.r1cs` file leaves one that is refused
/// with a format error.
pub proof fn lemma_truncated_r1cs_rejected(s: Seq<u8>)
    requires
        r1cs_error(s) is None,
    ensures
        r1cs_error(s.drop_last()) matches Some(e) && e.is_format_error(),
{
    let t = s.drop_last();
    let fs = r1cs_field_size(s);
    assert(r1cs_field_size(t) == fs);
    assert(u32_le(t, 4) == u32_le(s, 4));
    assert(u32_le(t, 8) == u32_le(s, 8));
    assert(u32_le(t, 12) == u32_le(s, 12));
    assert(u64_le(t, 16) == u64_le(s, 16));
    if t.len() >= r1cs_cons_start(t) {
        assert(u32_le(t, 56 + fs) == u32_le(s, 56 + fs));
        assert(u64_le(t, 60 + fs) == u64_le(s, 60 + fs));
        let cend = r1cs_cons_end(s);
        assert(r1cs_cons_end(t) == cend);
        if u32_le(s, 8) == 3 && t.len() >= cend + 12 {
            assert(u32_le(t, cend) == u32_le(s, cend));
            assert(u64_le(t, cend + 4) == u64_le(s, cend + 4));
            assert(r1cs_labels_end(t) == r1cs_labels_end(s));
        }
    }
}

} // verus!
