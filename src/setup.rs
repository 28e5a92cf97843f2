use vstd::prelude::*;
use crate::error::ProveError;
use crate::transpile::Gate;

verus! {

/// The smallest power of two that is at least `n`: the polynomial degree a
/// system of `n` gates needs.
pub open spec fn required_degree(n: nat) -> nat
    decreases n,
{
    if n <= 1 {
        1
    } else {
        2 * required_degree(n / 2 + n % 2)
    }
}

pub open spec fn is_pow2(d: nat) -> bool
    decreases d,
{
    if d == 1 {
        true
    } else if d == 0 || d % 2 == 1 {
        false
    } else {
        is_pow2(d / 2)
    }
}

/// `required_degree(n)` is a power of two, at least `n`, and below `2 * n`
/// when `n > 1`.
pub proof fn lemma_required_degree_is_least_pow2(n: nat)
    ensures
        is_pow2(required_degree(n)),
        n <= required_degree(n),
        n > 1 ==> required_degree(n) < 2 * n,
    decreases n,
{
    if n > 1 {
        lemma_required_degree_is_least_pow2(n / 2 + n % 2);
        assert(required_degree(n) / 2 == required_degree(n / 2 + n % 2));
    }
}

/// `required_degree(n)`, or `None` where it does not fit in `u64`.
pub fn degree_for(n: u64) -> (r: Option<u64>)
    ensures
        r matches Some(d) ==> d == required_degree(n as nat),
        r is None ==> required_degree(n as nat) > u64::MAX,
    decreases n,
{
    if n <= 1 {
        Some(1)
    } else {
        match degree_for(n / 2 + n % 2) {
            Some(h) => h.checked_mul(2),
            None => None,
        }
    }
}

/// The setup's outcome for a reference string of degree `crs_degree` and a
/// system of `n` gates.
pub open spec fn degree_outcome(crs_degree: nat, n: nat) -> Result<u64, ProveError> {
    if required_degree(n) <= crs_degree {
        Ok(required_degree(n) as u64)
    } else {
        Err(ProveError::InsufficientCrsDegree)
    }
}

/// Checks that a reference string of degree `crs_degree` is large enough for
/// `n_gates` gates, and returns the degree the setup uses.
pub fn check_crs_degree(crs_degree: u64, n_gates: u64) -> (r: Result<u64, ProveError>)
    ensures
        r == degree_outcome(crs_degree as nat, n_gates as nat),
{
    match degree_for(n_gates) {
        Some(d) => if d <= crs_degree {
            Ok(d)
        } else {
            Err(ProveError::InsufficientCrsDegree)
        },
        None => Err(ProveError::InsufficientCrsDegree),
    }
}

/// A reference string of exactly the required degree is accepted; one of a
/// degree one less is refused with `InsufficientCrsDegree`.
pub proof fn lemma_crs_degree_boundary(n: nat)
    requires
        required_degree(n) <= u64::MAX,
    ensures
        degree_outcome(required_degree(n), n) == Ok::<u64, ProveError>(required_degree(n) as u64),
        degree_outcome((required_degree(n) - 1) as nat, n) == Err::<u64, ProveError>(
            ProveError::InsufficientCrsDegree),
{
    lemma_required_degree_is_least_pow2(n);
}

/// Total number of gates over all blocks, or `None` if it overflows.
pub fn gate_count(bs: &Vec<Vec<Gate>>) -> (r: Option<u64>)
    ensures
        r matches Some(n) ==> n == total_gates(bs@, bs@.len() as int),
        r is None ==> total_gates(bs@, bs@.len() as int) > u64::MAX,
{
    let mut total: u64 = 0;
    let mut j: usize = 0;
    while j < bs.len()
        invariant
            j <= bs@.len(),
            total == total_gates(bs@, j as int),
        decreases bs@.len() - j,
    {
        match total.checked_add(bs[j].len() as u64) {
            Some(t) => total = t,
            None => {
                proof {
                    lemma_total_gates_mono(bs@, j as int + 1, bs@.len() as int);
                }
                return None;
            },
        }
        j += 1;
    }
    Some(total)
}

/// Gates in the first `j` blocks.
pub open spec fn total_gates(bs: Seq<Vec<Gate>>, j: int) -> nat
    decreases j,
{
    if j <= 0 {
        0
    } else {
        total_gates(bs, j - 1) + bs[j - 1]@.len()
    }
}

proof fn lemma_total_gates_mono(bs: Seq<Vec<Gate>>, i: int, j: int)
    requires
        0 <= i <= j,
    ensures
        total_gates(bs, i) <= total_gates(bs, j),
    decreases j - i,
{
    if i < j {
        lemma_total_gates_mono(bs, i, j - 1);
    }
}

} // verus!
