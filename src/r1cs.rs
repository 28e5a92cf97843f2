use vstd::prelude::*;
use crate::error::ProveError;
use crate::field::{le_nat, mul_add_mod, mul_mod, big_eq, big_lt};
use vstd::arithmetic::div_mod::{lemma_add_mod_noop_right, lemma_mul_mod_noop};

verus! {

/// One entry `coeff * w[wire]` of a linear combination.
#[derive(Debug, Clone)]
pub struct Term {
    pub wire: u32,
    /// Little-endian encoding of the coefficient.
    pub coeff: Vec<u8>,
}

/// A rank-one constraint `(A . w) * (B . w) = (C . w)`.
#[derive(Debug, Clone)]
pub struct Constraint {
    pub a: Vec<Term>,
    pub b: Vec<Term>,
    pub c: Vec<Term>,
}

/// An R1CS circuit as a circom compiler emits it. Wire 0 is the constant one.
#[derive(Debug, Clone)]
pub struct R1cs {
    /// Width in bytes of every field element.
    pub field_size: u32,
    /// Little-endian encoding of the field modulus.
    pub prime: Vec<u8>,
    pub n_wires: u32,
    pub n_pub_out: u32,
    pub n_pub_in: u32,
    pub n_prv_in: u32,
    pub n_labels: u64,
    pub constraints: Vec<Constraint>,
}

/// The value of a linear combination under `w`, before reduction.
pub open spec fn lc_value(lc: Seq<Term>, w: Seq<Vec<u8>>) -> int
    decreases lc.len(),
{
    if lc.len() == 0 {
        0
    } else {
        lc_value(lc.drop_last(), w) + le_nat(lc.last().coeff@) * le_nat(w[lc.last().wire as int]@)
    }
}

/// Every term of `lc` names a wire below `n`.
pub open spec fn lc_wires_below(lc: Seq<Term>, n: nat) -> bool {
    forall|i: int| 0 <= i < lc.len() ==> (#[trigger] lc[i]).wire < n
}

pub open spec fn constraint_wires_below(c: Constraint, n: nat) -> bool {
    lc_wires_below(c.a@, n) && lc_wires_below(c.b@, n) && lc_wires_below(c.c@, n)
}

/// `(A . w) * (B . w) == (C . w)` modulo `p`.
pub open spec fn constraint_holds(c: Constraint, w: Seq<Vec<u8>>, p: nat) -> bool {
    (lc_value(c.a@, w) * lc_value(c.b@, w)) % (p as int) == lc_value(c.c@, w) % (p as int)
}

impl R1cs {
    /// The modulus as a number.
    pub open spec fn modulus(&self) -> nat {
        le_nat(self.prime@)
    }

    /// Every constraint references only declared wires.
    pub open spec fn wires_in_range(&self) -> bool {
        forall|i: int| 0 <= i < self.constraints@.len()
            ==> constraint_wires_below(#[trigger] self.constraints@[i], self.n_wires as nat)
    }

    /// `w` is an assignment of canonical field elements to every declared wire.
    pub open spec fn is_witness(&self, w: Seq<Vec<u8>>) -> bool {
        &&& w.len() == self.n_wires
        &&& forall|i: int| 0 <= i < w.len() ==> le_nat((#[trigger] w[i])@) < self.modulus()
    }

    /// `w` satisfies every constraint.
    pub open spec fn satisfied_by(&self, w: Seq<Vec<u8>>) -> bool {
        forall|i: int| 0 <= i < self.constraints@.len()
            ==> constraint_holds(#[trigger] self.constraints@[i], w, self.modulus())
    }

    /// The index of the first constraint that `w` violates, if any.
    pub open spec fn first_violated(&self, w: Seq<Vec<u8>>, k: int) -> bool {
        &&& 0 <= k < self.constraints@.len()
        &&& !constraint_holds(self.constraints@[k], w, self.modulus())
        &&& forall|i: int| 0 <= i < k ==> constraint_holds(#[trigger] self.constraints@[i], w, self.modulus())
    }

    /// The outcome of checking `w` against the circuit.
    pub open spec fn check_outcome(&self, w: Seq<Vec<u8>>) -> Result<(), ProveError> {
        if self.modulus() == 0 || !self.wires_in_range() || w.len() != self.n_wires {
            Err(ProveError::WitnessWireMismatch)
        } else if !self.is_witness(w) {
            Err(ProveError::FieldOutOfRange)
        } else if !self.satisfied_by(w) {
            Err(ProveError::ConstraintNotSatisfied)
        } else {
            Ok(())
        }
    }
}

/// Whether every term of `lc` names a wire below `n`.
pub fn lc_in_range(lc: &Vec<Term>, n: u32) -> (r: bool)
    ensures
        r == lc_wires_below(lc@, n as nat),
{
    let mut i: usize = 0;
    while i < lc.len()
        invariant
            i <= lc@.len(),
            forall|j: int| 0 <= j < i ==> (#[trigger] lc@[j]).wire < n,
        decreases lc@.len() - i,
    {
        if lc[i].wire >= n {
            return false;
        }
        i += 1;
    }
    true
}

/// `(lc . w) mod p`.
pub fn eval_lc(lc: &Vec<Term>, w: &Vec<Vec<u8>>, p: &Vec<u8>) -> (r: Vec<u8>)
    requires
        le_nat(p@) > 0,
        lc_wires_below(lc@, w@.len()),
    ensures
        le_nat(r@) == lc_value(lc@, w@) % (le_nat(p@) as int),
{
    let mut acc: Vec<u8> = Vec::new();
    let mut i: usize = 0;
    let ghost m = le_nat(p@) as int;
    assert(lc@.take(0) =~= Seq::<Term>::empty());
    assert(acc@ =~= Seq::<u8>::empty());
    assert(le_nat(acc@) == 0);
    assert(lc_value(lc@.take(0), w@) == 0);
    while i < lc.len()
        invariant
            i <= lc@.len(),
            m == le_nat(p@) > 0,
            lc_wires_below(lc@, w@.len()),
            le_nat(acc@) == lc_value(lc@.take(i as int), w@) % m,
        decreases lc@.len() - i,
    {
        let t = &lc[i];
        assert(lc@[i as int].wire < w@.len());
        let next = mul_add_mod(acc.as_slice(), t.coeff.as_slice(), w[t.wire as usize].as_slice(), p.as_slice());
        proof {
            let pre = lc@.take(i as int);
            let post = lc@.take(i as int + 1);
            assert(post.drop_last() =~= pre);
            let x = lc_value(pre, w@);
            let y = (le_nat(t.coeff@) * le_nat(w@[t.wire as int]@)) as int;
            lemma_add_mod_noop_right(y, x, m);
        }
        acc = next;
        i += 1;
    }
    assert(lc@.take(lc@.len() as int) =~= lc@);
    acc
}

/// Whether `c` holds under `w` modulo `p`.
pub fn check_constraint(c: &Constraint, w: &Vec<Vec<u8>>, p: &Vec<u8>) -> (r: bool)
    requires
        le_nat(p@) > 0,
        constraint_wires_below(*c, w@.len()),
    ensures
        r == constraint_holds(*c, w@, le_nat(p@)),
{
    let va = eval_lc(&c.a, w, p);
    let vb = eval_lc(&c.b, w, p);
    let vc = eval_lc(&c.c, w, p);
    let ab = mul_mod(va.as_slice(), vb.as_slice(), p.as_slice());
    proof {
        lemma_mul_mod_noop(lc_value(c.a@, w@), lc_value(c.b@, w@), le_nat(p@) as int);
    }
    big_eq(ab.as_slice(), vc.as_slice())
}

impl R1cs {
    /// Checks that the modulus is non-zero and every constraint references
    /// only declared wires.
    pub fn shape_ok(&self) -> (r: bool)
        ensures
            r == (self.modulus() > 0 && self.wires_in_range()),
    {
        let zero: Vec<u8> = Vec::new();
        if !big_lt(zero.as_slice(), self.prime.as_slice()) {
            return false;
        }
        let mut i: usize = 0;
        while i < self.constraints.len()
            invariant
                i <= self.constraints@.len(),
                forall|j: int| 0 <= j < i ==> constraint_wires_below(
                    #[trigger] self.constraints@[j], self.n_wires as nat),
            decreases self.constraints@.len() - i,
        {
            let c = &self.constraints[i];
            if !(lc_in_range(&c.a, self.n_wires) && lc_in_range(&c.b, self.n_wires)
                && lc_in_range(&c.c, self.n_wires)) {
                return false;
            }
            i += 1;
        }
        true
    }

    /// Checks `w` against the circuit: its length and field range first, then
    /// every constraint in order.
    pub fn check_witness(&self, w: &Vec<Vec<u8>>) -> (r: Result<(), ProveError>)
        ensures
            r == self.check_outcome(w@),
    {
        if !self.shape_ok() || w.len() != self.n_wires as usize {
            return Err(ProveError::WitnessWireMismatch);
        }
        let mut i: usize = 0;
        while i < w.len()
            invariant
                i <= w@.len(),
                self.modulus() > 0,
                self.wires_in_range(),
                w@.len() == self.n_wires,
                forall|j: int| 0 <= j < i ==> le_nat((#[trigger] w@[j])@) < self.modulus(),
            decreases w@.len() - i,
        {
            if !big_lt(w[i].as_slice(), self.prime.as_slice()) {
                assert(!(le_nat(w@[i as int]@) < self.modulus()));
                assert(!self.is_witness(w@));
                return Err(ProveError::FieldOutOfRange);
            }
            i += 1;
        }
        match self.first_unsatisfied(w) {
            Some(_) => Err(ProveError::ConstraintNotSatisfied),
            None => Ok(()),
        }
    }

    /// The index of the first constraint that `w` violates.
    pub fn first_unsatisfied(&self, w: &Vec<Vec<u8>>) -> (r: Option<usize>)
        requires
            self.modulus() > 0,
            self.wires_in_range(),
            w@.len() == self.n_wires,
        ensures
            r is None <==> self.satisfied_by(w@),
            r matches Some(k) ==> self.first_violated(w@, k as int),
    {
        let mut i: usize = 0;
        while i < self.constraints.len()
            invariant
                i <= self.constraints@.len(),
                self.modulus() > 0,
                self.wires_in_range(),
                w@.len() == self.n_wires,
                forall|j: int| 0 <= j < i ==> constraint_holds(
                    #[trigger] self.constraints@[j], w@, self.modulus()),
            decreases self.constraints@.len() - i,
        {
            assert(constraint_wires_below(self.constraints@[i as int], self.n_wires as nat));
            if !check_constraint(&self.constraints[i], w, &self.prime) {
                return Some(i);
            }
            i += 1;
        }
        None
    }
}

} // verus!
