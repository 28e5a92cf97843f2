use vstd::prelude::*;
use crate::error::ProveError;
use crate::field::{le_nat, big_eq, big_rem, mul_add_mod, mul_mod};
use crate::r1cs::{Constraint, R1cs, Term, lc_value, constraint_holds, constraint_wires_below};
use vstd::arithmetic::div_mod::{lemma_add_mod_noop_right, lemma_mul_mod_noop};

verus! {

/// A width-three PLONK gate. Each variant fixes the selectors of its
/// equation `q_a*a + q_b*b + q_m*a*b = q_c*c`.
#[derive(Debug, Clone)]
pub enum Gate {
    /// `0 = c`: starts a partial sum at zero.
    Zero { out: u64 },
    /// `a + coeff*b = c`: adds one term to a partial sum.
    Accumulate { acc: u64, wire: u64, coeff: Vec<u8>, out: u64 },
    /// `a*b = c`: the product of the two sides of a constraint.
    Mul { left: u64, right: u64, out: u64 },
}

/// A value for every wire index.
pub type Assignment = spec_fn(nat) -> int;

/// Its equation holds modulo `p` under `x`.
pub open spec fn gate_holds(g: Gate, x: Assignment, p: int) -> bool {
    match g {
        Gate::Zero { out } => x(out as nat) % p == 0,
        Gate::Accumulate { acc, wire, coeff, out } =>
            x(out as nat) % p == (x(acc as nat) + le_nat(coeff@) * x(wire as nat)) % p,
        Gate::Mul { left, right, out } =>
            x(out as nat) % p == (x(left as nat) * x(right as nat)) % p,
    }
}

pub open spec fn gates_hold(gs: Seq<Gate>, x: Assignment, p: int) -> bool {
    forall|k: int| 0 <= k < gs.len() ==> gate_holds(#[trigger] gs[k], x, p)
}

/// Every gate of every block holds.
pub open spec fn blocks_hold(bs: Seq<Vec<Gate>>, x: Assignment, p: int) -> bool {
    forall|j: int| 0 <= j < bs.len() ==> gates_hold((#[trigger] bs[j])@, x, p)
}

/// `x` gives the witness values to the declared wires.
pub open spec fn extends(x: Assignment, w: Seq<Vec<u8>>) -> bool {
    forall|i: nat| i < w.len() ==> #[trigger] x(i) == le_nat(w[i as int]@) as int
}

/// The chain of gates that sums `lc` into the wires `s .. s + lc.len()`:
/// wire `s + k` carries the sum of the first `k` terms.
pub open spec fn is_chain(lc: Seq<Term>, s: nat, g: Seq<Gate>) -> bool {
    &&& g.len() == lc.len() + 1
    &&& g[0] == Gate::Zero { out: s as u64 }
    &&& s + lc.len() <= u64::MAX
    &&& forall|k: int| 0 <= k < lc.len() ==> match #[trigger] g[k + 1] {
        Gate::Accumulate { acc, wire, coeff, out } =>
            acc == s + k && wire == lc[k].wire && coeff@ == lc[k].coeff@ && out == s + k + 1,
        _ => false,
    }
}

/// Number of auxiliary wires that a constraint needs.
pub open spec fn aux_size(c: Constraint) -> nat {
    c.a@.len() + c.b@.len() + c.c@.len() + 3
}

/// Auxiliary wires used by the first `j` constraints.
pub open spec fn aux_start(cs: Seq<Constraint>, j: int) -> nat
    decreases j,
{
    if j <= 0 {
        0
    } else {
        aux_start(cs, j - 1) + aux_size(cs[j - 1])
    }
}

/// The gates of one constraint, with auxiliary wires from `s` on: the chains
/// of A, B and C, then their product gate.
pub open spec fn is_block(c: Constraint, s: nat, g: Seq<Gate>) -> bool {
    let la = c.a@.len() as int;
    let lb = c.b@.len() as int;
    let lc = c.c@.len() as int;
    let sb = s + la + 1;
    let sc = sb + lb + 1;
    &&& g.len() == la + lb + lc + 4
    &&& is_chain(c.a@, s, g.subrange(0, la + 1))
    &&& is_chain(c.b@, sb as nat, g.subrange(la + 1, la + lb + 2))
    &&& is_chain(c.c@, sc as nat, g.subrange(la + lb + 2, la + lb + lc + 3))
    &&& g[la + lb + lc + 3] == Gate::Mul {
        left: (s + la) as u64,
        right: (sb + lb) as u64,
        out: (sc + lc) as u64,
    }
}

/// First auxiliary wire of the transpilation of `r` with offset `off`.
pub open spec fn aux_base(r: R1cs, off: u64) -> nat {
    (r.n_wires + off) as nat
}

/// `bs` is the transpilation of `r`: one block per constraint, in order, with
/// auxiliary wires allocated consecutively from `aux_base`.
pub open spec fn is_transpilation(r: R1cs, off: u64, bs: Seq<Vec<Gate>>) -> bool {
    &&& bs.len() == r.constraints@.len()
    &&& forall|j: int| 0 <= j < bs.len() ==> is_block(
        r.constraints@[j],
        aux_base(r, off) + aux_start(r.constraints@, j),
        (#[trigger] bs[j])@,
    )
}

/// All auxiliary wire indices fit in `u64`.
pub open spec fn fits(r: R1cs, off: u64) -> bool {
    aux_base(r, off) + aux_start(r.constraints@, r.constraints@.len() as int) <= u64::MAX
}

proof fn lemma_aux_start_mono(cs: Seq<Constraint>, i: int, j: int)
    requires
        0 <= i <= j,
    ensures
        aux_start(cs, i) <= aux_start(cs, j),
    decreases j - i,
{
    if i < j {
        lemma_aux_start_mono(cs, i, j - 1);
    }
}

fn chain(lc: &Vec<Term>, s: u64, gates: &mut Vec<Gate>)
    requires
        s + lc@.len() <= u64::MAX,
    ensures
        final(gates)@.len() == old(gates)@.len() + lc@.len() + 1,
        final(gates)@.subrange(0, old(gates)@.len() as int) == old(gates)@,
        is_chain(lc@, s as nat, final(gates)@.subrange(
            old(gates)@.len() as int, final(gates)@.len() as int)),
{
    let ghost start = gates@.len() as int;
    gates.push(Gate::Zero { out: s });
    let mut k: usize = 0;
    while k < lc.len()
        invariant
            k <= lc@.len(),
            s + lc@.len() <= u64::MAX,
            start == old(gates)@.len(),
            gates@.len() == start + k + 1,
            gates@.subrange(0, start) == old(gates)@,
            gates@[start] == (Gate::Zero { out: s }),
            forall|i: int| 0 <= i < k ==> match #[trigger] gates@[start + i + 1] {
                Gate::Accumulate { acc, wire, coeff, out } =>
                    acc == s + i && wire == lc@[i].wire && coeff@ == lc@[i].coeff@
                        && out == s + i + 1,
                _ => false,
            },
        decreases lc@.len() - k,
    {
        let t = &lc[k];
        let kk = k as u64;
        let ghost prev = gates@;
        gates.push(Gate::Accumulate { acc: s + kk, wire: t.wire as u64, coeff: t.coeff.clone(), out: s + kk + 1 });
        proof {
            assert forall|i: int| 0 <= i < k + 1 implies match #[trigger] gates@[start + i + 1] {
                Gate::Accumulate { acc, wire, coeff, out } =>
                    acc == s + i && wire == lc@[i].wire && coeff@ == lc@[i].coeff@
                        && out == s + i + 1,
                _ => false,
            } by {
                if i < k {
                    assert(gates@[start + i + 1] == prev[start + i + 1]);
                }
            }
        }
        k += 1;
    }
    proof {
        let g = gates@.subrange(start, gates@.len() as int);
        assert forall|i: int| 0 <= i < lc@.len() implies match #[trigger] g[i + 1] {
            Gate::Accumulate { acc, wire, coeff, out } =>
                acc == s + i && wire == lc@[i].wire && coeff@ == lc@[i].coeff@
                    && out == s + i + 1,
            _ => false,
        } by {
            assert(g[i + 1] == gates@[start + i + 1]);
        }
    }
}

fn block(c: &Constraint, s: u64) -> (g: Vec<Gate>)
    requires
        s + aux_size(*c) <= u64::MAX,
    ensures
        is_block(*c, s as nat, g@),
{
    let mut g: Vec<Gate> = Vec::new();
    chain(&c.a, s, &mut g);
    let ghost g1 = g@;
    let sb = s + c.a.len() as u64 + 1;
    chain(&c.b, sb, &mut g);
    let ghost g2 = g@;
    let sc = sb + c.b.len() as u64 + 1;
    chain(&c.c, sc, &mut g);
    let ghost g3 = g@;
    g.push(Gate::Mul { left: sb - 1, right: sc - 1, out: sc + c.c.len() as u64 });
    proof {
        let la = c.a@.len() as int;
        let lb = c.b@.len() as int;
        let lc = c.c@.len() as int;
        assert(g@.subrange(0, la + lb + lc + 3) =~= g3);
        assert(g@.subrange(0, la + 1) =~= g1.subrange(0, la + 1));
        assert(g1.subrange(0, la + 1) =~= g1);
        assert(g@.subrange(la + 1, la + lb + 2) =~= g2.subrange(la + 1, la + lb + 2));
        assert(g@.subrange(la + lb + 2, la + lb + lc + 3) =~= g3.subrange(la + lb + 2, la + lb + lc + 3));
    }
    g
}

/// Converts every constraint of `r` into its block of gates, in order, with
/// auxiliary wires allocated from `n_wires + aux_offset` on. Fails with
/// `UnsupportedConstraintShape` when the auxiliary wire indices overflow.
pub fn transpile(r: &R1cs, aux_offset: u64) -> (res: Result<Vec<Vec<Gate>>, ProveError>)
    ensures
        res is Ok <==> fits(*r, aux_offset),
        res matches Ok(bs) ==> is_transpilation(*r, aux_offset, bs@),
        res matches Err(e) ==> e == ProveError::UnsupportedConstraintShape,
{
    let cs = &r.constraints;
    let base = match (r.n_wires as u64).checked_add(aux_offset) {
        Some(b) => b,
        None => return Err(ProveError::UnsupportedConstraintShape),
    };
    let mut cur = base;
    let mut out: Vec<Vec<Gate>> = Vec::new();
    let mut j: usize = 0;
    while j < cs.len()
        invariant
            j <= cs@.len(),
            cs@ == r.constraints@,
            base == aux_base(*r, aux_offset),
            cur == base + aux_start(cs@, j as int),
            out@.len() == j,
            forall|i: int| 0 <= i < j ==> is_block(
                cs@[i], aux_base(*r, aux_offset) + aux_start(cs@, i), (#[trigger] out@[i])@),
        decreases cs@.len() - j,
    {
        let c = &cs[j];
        let next = match (c.a.len() as u64).checked_add(c.b.len() as u64) {
            Some(x) => match x.checked_add(c.c.len() as u64) {
                Some(y) => match y.checked_add(3) {
                    Some(z) => cur.checked_add(z),
                    None => None,
                },
                None => None,
            },
            None => None,
        };
        match next {
            Some(nx) => {
                let g = block(c, cur);
                out.push(g);
                cur = nx;
            },
            None => {
                proof {
                    lemma_aux_start_mono(cs@, j as int + 1, cs@.len() as int);
                }
                return Err(ProveError::UnsupportedConstraintShape);
            },
        }
        j += 1;
    }
    Ok(out)
}

proof fn lemma_chain_sums(
    lc: Seq<Term>, s: nat, g: Seq<Gate>, x: Assignment, w: Seq<Vec<u8>>, p: int, k: int,
)
    requires
        p > 0,
        is_chain(lc, s, g),
        gates_hold(g, x, p),
        extends(x, w),
        forall|i: int| 0 <= i < lc.len() ==> (#[trigger] lc[i]).wire < w.len(),
        0 <= k <= lc.len(),
    ensures
        x(s + k as nat) % p == lc_value(lc.take(k), w) % p,
    decreases k,
{
    if k == 0 {
        assert(gate_holds(g[0], x, p));
        assert(lc.take(0) =~= Seq::<Term>::empty());
        assert(x(s) % p == 0);
        assert(s + k as nat == s);
        assert(lc_value(lc.take(k), w) == 0);
        assert(0int % p == 0);
    } else {
        lemma_chain_sums(lc, s, g, x, w, p, k - 1);
        let gk = g[(k - 1) + 1];
        assert(gate_holds(gk, x, p));
        let t = lc[k - 1];
        assert(lc.take(k).drop_last() =~= lc.take(k - 1));
        let v = lc_value(lc.take(k - 1), w);
        let y = (le_nat(t.coeff@) * le_nat(w[t.wire as int]@)) as int;
        assert(lc_value(lc.take(k), w) == v + y);
        assert(x(t.wire as nat) == le_nat(w[t.wire as int]@) as int);
        let prev = x((s + (k - 1)) as nat);
        if let Gate::Accumulate { acc, wire, coeff, out } = gk {
            assert(out as nat == s + k as nat);
            assert(acc as nat == s + (k - 1));
            assert(x(s + k as nat) % p == (prev + y) % p);
        }
        lemma_add_mod_noop_right(y, prev, p);
        lemma_add_mod_noop_right(y, v, p);
        assert(x(s + k as nat) % p == (prev + y) % p);
        assert((y + prev) % p == (y + prev % p) % p);
        assert((y + v) % p == (y + v % p) % p);
        assert(x(s + k as nat) % p == lc_value(lc.take(k), w) % p);
    }
}

proof fn lemma_chain_holds(lc: Seq<Term>, s: nat, g: Seq<Gate>, x: Assignment, w: Seq<Vec<u8>>, p: int)
    requires
        p > 0,
        is_chain(lc, s, g),
        extends(x, w),
        forall|i: int| 0 <= i < lc.len() ==> (#[trigger] lc[i]).wire < w.len(),
        forall|i: nat| s <= i <= s + lc.len() ==> #[trigger] x(i) == lc_value(lc.take(i - s), w),
    ensures
        gates_hold(g, x, p),
{
    assert(lc.take(0) =~= Seq::<Term>::empty());
    assert(x(s) == 0);
    assert forall|k: int| 0 <= k < g.len() implies gate_holds(#[trigger] g[k], x, p) by {
        if k == 0 {
            assert(x(s) == 0);
            assert(((s as u64) as nat) == s);
            assert(x(((s as u64) as nat)) % p == 0);
        } else {
            let i = k - 1;
            assert(g[i + 1] == g[k]);
            let t = lc[i];
            assert(lc.take(i + 1).drop_last() =~= lc.take(i));
            assert(x((s + i + 1) as nat) == lc_value(lc.take(i + 1), w));
            assert(x((s + i) as nat) == lc_value(lc.take(i), w));
            assert(x(t.wire as nat) == le_nat(w[t.wire as int]@) as int);
            if let Gate::Accumulate { acc, wire, coeff, out } = g[k] {
                assert(out as nat == s + i + 1);
                assert(acc as nat == s + i);
                assert(x(out as nat) == x(acc as nat) + le_nat(coeff@) * x(wire as nat));
                assert(gate_holds(g[k], x, p));
            }
            assert(gate_holds(g[k], x, p));
        }
    }
}

proof fn lemma_sub_gates(g: Seq<Gate>, lo: int, hi: int, x: Assignment, p: int)
    requires
        0 <= lo <= hi <= g.len(),
        gates_hold(g, x, p),
    ensures
        gates_hold(g.subrange(lo, hi), x, p),
{
    assert forall|k: int| 0 <= k < hi - lo implies gate_holds(#[trigger] g.subrange(lo, hi)[k], x, p) by {
        assert(g.subrange(lo, hi)[k] == g[lo + k]);
    }
}

/// A block whose gates hold under an extension of `w` forces its constraint.
proof fn lemma_block_sound(c: Constraint, s: nat, g: Seq<Gate>, x: Assignment, w: Seq<Vec<u8>>, p: int)
    requires
        p > 0,
        is_block(c, s, g),
        gates_hold(g, x, p),
        extends(x, w),
        constraint_wires_below(c, w.len()),
    ensures
        constraint_holds(c, w, p as nat),
{
    let la = c.a@.len() as int;
    let lb = c.b@.len() as int;
    let lc = c.c@.len() as int;
    lemma_sub_gates(g, 0, la + 1, x, p);
    lemma_sub_gates(g, la + 1, la + lb + 2, x, p);
    lemma_sub_gates(g, la + lb + 2, la + lb + lc + 3, x, p);
    lemma_chain_sums(c.a@, s, g.subrange(0, la + 1), x, w, p, la);
    lemma_chain_sums(c.b@, (s + la + 1) as nat, g.subrange(la + 1, la + lb + 2), x, w, p, lb);
    lemma_chain_sums(c.c@, (s + la + lb + 2) as nat, g.subrange(la + lb + 2, la + lb + lc + 3), x, w, p, lc);
    assert(c.a@.take(la) =~= c.a@);
    assert(c.b@.take(lb) =~= c.b@);
    assert(c.c@.take(lc) =~= c.c@);
    assert(gate_holds(g[la + lb + lc + 3], x, p));
    let xa = x((s + la) as nat);
    let xb = x((s + la + 1 + lb) as nat);
    lemma_mul_mod_noop(xa, xb, p);
    lemma_mul_mod_noop(lc_value(c.a@, w), lc_value(c.b@, w), p);
}

/// The value of auxiliary wire `i` of a block placed at `s`: the partial sum
/// of the chain that wire belongs to.
pub open spec fn block_value(c: Constraint, w: Seq<Vec<u8>>, s: nat, i: nat) -> int {
    let la = c.a@.len() as int;
    let lb = c.b@.len() as int;
    if i < s + la + 1 {
        lc_value(c.a@.take(i - s), w)
    } else if i < s + la + lb + 2 {
        lc_value(c.b@.take(i - s - la - 1), w)
    } else {
        lc_value(c.c@.take(i - s - la - lb - 2), w)
    }
}

/// The witness extended by the partial sums of the first `j` blocks; every
/// other wire is zero.
pub open spec fn extension(cs: Seq<Constraint>, w: Seq<Vec<u8>>, base: nat, j: int) -> Assignment
    decreases j,
{
    if j <= 0 {
        |i: nat| if i < w.len() { le_nat(w[i as int]@) as int } else { 0 }
    } else {
        let prev = extension(cs, w, base, j - 1);
        let s = base + aux_start(cs, j - 1);
        let c = cs[j - 1];
        |i: nat| if s <= i < s + aux_size(c) { block_value(c, w, s, i) } else { prev(i) }
    }
}

proof fn lemma_extension_below(cs: Seq<Constraint>, w: Seq<Vec<u8>>, base: nat, j: int, k: int, i: nat)
    requires
        0 <= j <= k,
        i < base + aux_start(cs, j),
    ensures
        extension(cs, w, base, k)(i) == extension(cs, w, base, j)(i),
    decreases k - j,
{
    if j < k {
        lemma_extension_below(cs, w, base, j, k - 1, i);
        lemma_aux_start_mono(cs, j, k - 1);
    }
}

proof fn lemma_block_holds(c: Constraint, s: nat, g: Seq<Gate>, x: Assignment, w: Seq<Vec<u8>>, p: int)
    requires
        p > 0,
        is_block(c, s, g),
        extends(x, w),
        constraint_wires_below(c, w.len()),
        constraint_holds(c, w, p as nat),
        forall|i: nat| s <= i < s + aux_size(c) ==> #[trigger] x(i) == block_value(c, w, s, i),
    ensures
        gates_hold(g, x, p),
{
    let la = c.a@.len() as int;
    let lb = c.b@.len() as int;
    let lc = c.c@.len() as int;
    let sb = (s + la + 1) as nat;
    let sc = (s + la + lb + 2) as nat;
    assert forall|i: nat| s <= i <= s + la implies #[trigger] x(i) == lc_value(c.a@.take(i - s), w) by {
        assert(x(i) == block_value(c, w, s, i));
    }
    assert forall|i: nat| sb <= i <= sb + lb implies #[trigger] x(i) == lc_value(c.b@.take(i - sb), w) by {
        assert(x(i) == block_value(c, w, s, i));
    }
    assert forall|i: nat| sc <= i <= sc + lc implies #[trigger] x(i) == lc_value(c.c@.take(i - sc), w) by {
        assert(x(i) == block_value(c, w, s, i));
    }
    lemma_chain_holds(c.a@, s, g.subrange(0, la + 1), x, w, p);
    lemma_chain_holds(c.b@, sb, g.subrange(la + 1, la + lb + 2), x, w, p);
    lemma_chain_holds(c.c@, sc, g.subrange(la + lb + 2, la + lb + lc + 3), x, w, p);
    assert(c.a@.take(la) =~= c.a@);
    assert(c.b@.take(lb) =~= c.b@);
    assert(c.c@.take(lc) =~= c.c@);
    assert(x((s + la) as nat) == lc_value(c.a@, w));
    assert(x((sb + lb) as nat) == lc_value(c.b@, w));
    assert(x((sc + lc) as nat) == lc_value(c.c@, w));
    assert forall|k: int| 0 <= k < g.len() implies gate_holds(#[trigger] g[k], x, p) by {
        if k <= la {
            assert(g[k] == g.subrange(0, la + 1)[k]);
        } else if k <= la + lb + 1 {
            assert(g[k] == g.subrange(la + 1, la + lb + 2)[k - la - 1]);
        } else if k <= la + lb + lc + 2 {
            assert(g[k] == g.subrange(la + lb + 2, la + lb + lc + 3)[k - la - lb - 2]);
        }
    }
}

proof fn lemma_block_complete(cs: Seq<Constraint>, w: Seq<Vec<u8>>, base: nat, j: int, g: Seq<Gate>, p: int)
    requires
        p > 0,
        0 <= j < cs.len(),
        w.len() <= base,
        is_block(cs[j], base + aux_start(cs, j), g),
        constraint_wires_below(cs[j], w.len()),
        constraint_holds(cs[j], w, p as nat),
    ensures
        gates_hold(g, extension(cs, w, base, cs.len() as int), p),
{
    let c = cs[j];
    let s = base + aux_start(cs, j);
    let x = extension(cs, w, base, cs.len() as int);
    lemma_aux_start_mono(cs, 0, j);
    assert forall|i: nat| s <= i < s + aux_size(c) implies #[trigger] x(i) == block_value(c, w, s, i) by {
        lemma_extension_below(cs, w, base, j + 1, cs.len() as int, i);
    }
    assert forall|i: nat| i < w.len() implies #[trigger] x(i) == le_nat(w[i as int]@) as int by {
        lemma_extension_below(cs, w, base, 0, cs.len() as int, i);
    }
    lemma_block_holds(c, s, g, x, w, p);
}

/// Transpilation preserves satisfiability: a witness satisfies the circuit
/// exactly when some assignment that extends it to the auxiliary wires
/// satisfies every gate of the transpiled system.
pub proof fn lemma_transpile_preserves_satisfiability(
    r: R1cs, off: u64, bs: Seq<Vec<Gate>>, w: Seq<Vec<u8>>,
)
    requires
        is_transpilation(r, off, bs),
        r.modulus() > 0,
        r.wires_in_range(),
        w.len() == r.n_wires,
    ensures
        r.satisfied_by(w) <==> exists|x: Assignment|
            extends(x, w) && #[trigger] blocks_hold(bs, x, r.modulus() as int),
{
    let p = r.modulus() as int;
    let cs = r.constraints@;
    let base = aux_base(r, off);
    if r.satisfied_by(w) {
        let x = extension(cs, w, base, cs.len() as int);
        assert forall|j: int| 0 <= j < bs.len() implies gates_hold((#[trigger] bs[j])@, x, p) by {
            assert(constraint_holds(cs[j], w, r.modulus()));
            assert(constraint_wires_below(cs[j], r.n_wires as nat));
            lemma_block_complete(cs, w, base, j, bs[j]@, p);
        }
        assert forall|i: nat| i < w.len() implies #[trigger] x(i) == le_nat(w[i as int]@) as int by {
            lemma_extension_below(cs, w, base, 0, cs.len() as int, i);
        }
        assert(extends(x, w) && blocks_hold(bs, x, p));
    }
    if exists|x: Assignment| extends(x, w) && #[trigger] blocks_hold(bs, x, p) {
        let x = choose|x: Assignment| extends(x, w) && #[trigger] blocks_hold(bs, x, p);
        assert forall|j: int| 0 <= j < cs.len() implies constraint_holds(#[trigger] cs[j], w, r.modulus()) by {
            assert(gates_hold(bs[j]@, x, p));
            assert(constraint_wires_below(cs[j], r.n_wires as nat));
            lemma_block_sound(cs[j], base + aux_start(cs, j), bs[j]@, x, w, p);
        }
    }
}

/// Two gates with the same selectors and wires.
pub open spec fn same_gate(g: Gate, h: Gate) -> bool {
    match (g, h) {
        (Gate::Zero { out: o1 }, Gate::Zero { out: o2 }) => o1 == o2,
        (
            Gate::Accumulate { acc: a1, wire: w1, coeff: c1, out: o1 },
            Gate::Accumulate { acc: a2, wire: w2, coeff: c2, out: o2 },
        ) => a1 == a2 && w1 == w2 && c1@ == c2@ && o1 == o2,
        (Gate::Mul { left: l1, right: r1, out: o1 }, Gate::Mul { left: l2, right: r2, out: o2 }) =>
            l1 == l2 && r1 == r2 && o1 == o2,
        _ => false,
    }
}

proof fn lemma_chain_unique(lc: Seq<Term>, s: nat, g: Seq<Gate>, h: Seq<Gate>)
    requires
        is_chain(lc, s, g),
        is_chain(lc, s, h),
    ensures
        forall|k: int| 0 <= k < g.len() ==> same_gate(#[trigger] g[k], h[k]),
{
    assert forall|k: int| 0 <= k < g.len() implies same_gate(#[trigger] g[k], h[k]) by {
        if k > 0 {
            assert(g[(k - 1) + 1] == g[k]);
            assert(h[(k - 1) + 1] == h[k]);
        }
    }
}

proof fn lemma_block_unique(c: Constraint, s: nat, g: Seq<Gate>, h: Seq<Gate>)
    requires
        is_block(c, s, g),
        is_block(c, s, h),
    ensures
        g.len() == h.len(),
        forall|k: int| 0 <= k < g.len() ==> same_gate(#[trigger] g[k], h[k]),
{
    let la = c.a@.len() as int;
    let lb = c.b@.len() as int;
    let lc = c.c@.len() as int;
    lemma_chain_unique(c.a@, s, g.subrange(0, la + 1), h.subrange(0, la + 1));
    lemma_chain_unique(c.b@, (s + la + 1) as nat, g.subrange(la + 1, la + lb + 2), h.subrange(la + 1, la + lb + 2));
    lemma_chain_unique(c.c@, (s + la + lb + 2) as nat, g.subrange(la + lb + 2, la + lb + lc + 3),
        h.subrange(la + lb + 2, la + lb + lc + 3));
    assert forall|k: int| 0 <= k < g.len() implies same_gate(#[trigger] g[k], h[k]) by {
        if k <= la {
            assert(g[k] == g.subrange(0, la + 1)[k] && h[k] == h.subrange(0, la + 1)[k]);
        } else if k <= la + lb + 1 {
            assert(g[k] == g.subrange(la + 1, la + lb + 2)[k - la - 1]);
            assert(h[k] == h.subrange(la + 1, la + lb + 2)[k - la - 1]);
        } else if k <= la + lb + lc + 2 {
            assert(g[k] == g.subrange(la + lb + 2, la + lb + lc + 3)[k - la - lb - 2]);
            assert(h[k] == h.subrange(la + lb + 2, la + lb + lc + 3)[k - la - lb - 2]);
        }
    }
}

/// Transpilation is deterministic: the circuit and the offset fix every gate
/// of the result, so two runs give the same gate system.
pub proof fn lemma_transpilation_unique(r: R1cs, off: u64, x: Seq<Vec<Gate>>, y: Seq<Vec<Gate>>)
    requires
        is_transpilation(r, off, x),
        is_transpilation(r, off, y),
    ensures
        x.len() == y.len(),
        forall|j: int| 0 <= j < x.len() ==> (#[trigger] x[j])@.len() == y[j]@.len(),
        forall|j: int, k: int| 0 <= j < x.len() && 0 <= k < x[j]@.len() ==> same_gate(
            #[trigger] x[j]@[k], y[j]@[k]),
{
    let cs = r.constraints@;
    assert forall|j: int| 0 <= j < x.len() implies (#[trigger] x[j])@.len() == y[j]@.len()
        && forall|k: int| 0 <= k < x[j]@.len() ==> same_gate(#[trigger] x[j]@[k], y[j]@[k]) by {
        lemma_block_unique(cs[j], aux_base(r, off) + aux_start(cs, j), x[j]@, y[j]@);
    }
}

/// The assignment that gives wire `i` the value `x[i]`, and zero to every
/// wire past the end of `x`.
pub open spec fn vec_assignment(x: Seq<Vec<u8>>) -> Assignment {
    |i: nat| if i < x.len() { le_nat(x[i as int]@) as int } else { 0 }
}

fn wire_value(x: &Vec<Vec<u8>>, i: u64) -> (r: Vec<u8>)
    ensures
        le_nat(r@) == vec_assignment(x@)(i as nat),
{
    if i < x.len() as u64 {
        x[i as usize].clone()
    } else {
        let r: Vec<u8> = Vec::new();
        assert(r@ =~= Seq::<u8>::empty());
        r
    }
}

/// Whether gate `g` holds modulo `p` when the wires carry `x`.
pub fn gate_satisfied(g: &Gate, x: &Vec<Vec<u8>>, p: &Vec<u8>) -> (r: bool)
    requires
        le_nat(p@) > 0,
    ensures
        r == gate_holds(*g, vec_assignment(x@), le_nat(p@) as int),
{
    let zero: Vec<u8> = Vec::new();
    assert(zero@ =~= Seq::<u8>::empty());
    assert(le_nat(zero@) == 0);
    match g {
        Gate::Zero { out } => {
            let v = wire_value(x, *out);
            let lhs = big_rem(v.as_slice(), p.as_slice());
            big_eq(lhs.as_slice(), zero.as_slice())
        },
        Gate::Accumulate { acc, wire, coeff, out } => {
            let vo = wire_value(x, *out);
            let lhs = big_rem(vo.as_slice(), p.as_slice());
            let va = wire_value(x, *acc);
            let vw = wire_value(x, *wire);
            let rhs = mul_add_mod(va.as_slice(), coeff.as_slice(), vw.as_slice(), p.as_slice());
            big_eq(lhs.as_slice(), rhs.as_slice())
        },
        Gate::Mul { left, right, out } => {
            let vo = wire_value(x, *out);
            let lhs = big_rem(vo.as_slice(), p.as_slice());
            let vl = wire_value(x, *left);
            let vr = wire_value(x, *right);
            let rhs = mul_mod(vl.as_slice(), vr.as_slice(), p.as_slice());
            big_eq(lhs.as_slice(), rhs.as_slice())
        },
    }
}

/// Whether every gate of every block holds modulo `p` when the wires carry
/// `x`.
pub fn gates_satisfied(bs: &Vec<Vec<Gate>>, x: &Vec<Vec<u8>>, p: &Vec<u8>) -> (r: bool)
    requires
        le_nat(p@) > 0,
    ensures
        r == blocks_hold(bs@, vec_assignment(x@), le_nat(p@) as int),
{
    let ghost a = vec_assignment(x@);
    let ghost m = le_nat(p@) as int;
    let mut j: usize = 0;
    while j < bs.len()
        invariant
            le_nat(p@) > 0,
            a == vec_assignment(x@),
            m == le_nat(p@) as int,
            j <= bs@.len(),
            forall|i: int| 0 <= i < j ==> gates_hold((#[trigger] bs@[i])@, a, m),
        decreases bs@.len() - j,
    {
        let block = &bs[j];
        let mut k: usize = 0;
        while k < block.len()
            invariant
                le_nat(p@) > 0,
                a == vec_assignment(x@),
                m == le_nat(p@) as int,
                j < bs@.len(),
                *block == bs@[j as int],
                k <= block@.len(),
                forall|i: int| 0 <= i < k ==> gate_holds(#[trigger] block@[i], a, m),
            decreases block@.len() - k,
        {
            if !gate_satisfied(&block[k], x, p) {
                assert(!gate_holds(block@[k as int], a, m));
                assert(!gates_hold(bs@[j as int]@, a, m));
                return false;
            }
            k += 1;
        }
        assert(gates_hold(bs@[j as int]@, a, m));
        j += 1;
    }
    true
}

} // verus!
