use plonkit::crs::{read_crs, Crs};
use plonkit::error::ProveError;
use plonkit::field::{mul_add_mod, mul_mod};
use plonkit::pipeline::{prepare, AUX_OFFSET};
use plonkit::r1cs::{check_constraint, eval_lc, Constraint, R1cs, Term};
use plonkit::setup::{check_crs_degree, degree_for, gate_count};
use plonkit::transpile::{gate_satisfied, gates_satisfied, transpile, Gate};
use plonkit::transport::{decode_transport, encode_transport};
use plonkit::witness::Witness;

/// The BN254 scalar field modulus, little-endian.
fn bn254_r() -> Vec<u8> {
    let hex = "30644e72e131a029b85045b68181585d2833e84879b9709143e1f593f0000001";
    let mut be: Vec<u8> = (0..32).map(|i| u8::from_str_radix(&hex[2 * i..2 * i + 2], 16).unwrap()).collect();
    be.reverse();
    be
}

fn fe(x: u8) -> Vec<u8> {
    let mut v = vec![0u8; 32];
    v[0] = x;
    v
}

fn term(wire: u32, c: u8) -> Term {
    Term { wire, coeff: fe(c) }
}

/// One constraint `x * y = z` over wires one, x, y, z.
fn mul_circuit() -> R1cs {
    R1cs {
        field_size: 32,
        prime: bn254_r(),
        n_wires: 4,
        n_pub_out: 1,
        n_pub_in: 0,
        n_prv_in: 2,
        n_labels: 4,
        constraints: vec![Constraint { a: vec![term(1, 1)], b: vec![term(2, 1)], c: vec![term(3, 1)] }],
    }
}

fn witness(v: &[u8]) -> Witness {
    Witness { prime: bn254_r(), values: v.iter().map(|x| fe(*x)).collect() }
}

fn value(b: &[u8]) -> u64 {
    b.iter().rev().fold(0u64, |acc, x| acc * 256 + *x as u64)
}

#[test]
fn field_operations_reduce() {
    assert_eq!(value(&mul_add_mod(&[5], &[3], &[4], &[7])), 3);
    assert_eq!(value(&mul_mod(&[10], &[10], &[7])), 2);
    assert_eq!(value(&mul_add_mod(&[0], &[0], &[9], &[7])), 0);
}

#[test]
fn linear_combination_value() {
    let lc = vec![term(0, 2), term(1, 5)];
    let w = vec![vec![1], vec![3]];
    assert_eq!(value(&eval_lc(&lc, &w, &vec![97])), 17);
    assert_eq!(value(&eval_lc(&lc, &w, &vec![7])), 3);
    assert_eq!(value(&eval_lc(&vec![], &w, &vec![7])), 0);
}

#[test]
fn single_constraint_check() {
    let c = Constraint { a: vec![term(1, 1)], b: vec![term(2, 1)], c: vec![term(3, 1)] };
    let p = bn254_r();
    assert!(check_constraint(&c, &vec![fe(1), fe(3), fe(4), fe(12)], &p));
    assert!(!check_constraint(&c, &vec![fe(1), fe(3), fe(4), fe(13)], &p));
}

#[test]
fn witness_check_outcomes() {
    let r = mul_circuit();
    assert_eq!(r.check_witness(&witness(&[1, 3, 4, 12]).values), Ok(()));
    assert_eq!(r.check_witness(&witness(&[1, 3, 4, 11]).values), Err(ProveError::ConstraintNotSatisfied));
    assert_eq!(r.check_witness(&witness(&[1, 3, 4]).values), Err(ProveError::WitnessWireMismatch));
    let mut w = witness(&[1, 3, 4, 12]).values;
    w[2] = bn254_r();
    assert_eq!(r.check_witness(&w), Err(ProveError::FieldOutOfRange));
    assert_eq!(r.first_unsatisfied(&witness(&[1, 3, 4, 11]).values), Some(0));
}

#[test]
fn transpiled_mul_gate_layout() {
    let gates = transpile(&mul_circuit(), AUX_OFFSET).unwrap();
    assert_eq!(gates.len(), 1);
    let g = &gates[0];
    assert_eq!(g.len(), 7);
    assert!(matches!(g[0], Gate::Zero { out: 5 }));
    assert!(matches!(&g[1], Gate::Accumulate { acc: 5, wire: 1, out: 6, .. }));
    assert!(matches!(g[2], Gate::Zero { out: 7 }));
    assert!(matches!(&g[3], Gate::Accumulate { acc: 7, wire: 2, out: 8, .. }));
    assert!(matches!(g[4], Gate::Zero { out: 9 }));
    assert!(matches!(&g[5], Gate::Accumulate { acc: 9, wire: 3, out: 10, .. }));
    assert!(matches!(g[6], Gate::Mul { left: 6, right: 8, out: 10 }));
    if let Gate::Accumulate { coeff, .. } = &g[1] {
        assert_eq!(coeff, &fe(1));
    }
    assert_eq!(gate_count(&gates), Some(7));
}

#[test]
fn transpile_refuses_overflowing_offset() {
    assert_eq!(transpile(&mul_circuit(), u64::MAX - 2).unwrap_err(), ProveError::UnsupportedConstraintShape);
}

#[test]
fn required_degree_values() {
    assert_eq!(degree_for(0), Some(1));
    assert_eq!(degree_for(1), Some(1));
    assert_eq!(degree_for(4), Some(4));
    assert_eq!(degree_for(5), Some(8));
    assert_eq!(degree_for(7), Some(8));
    assert_eq!(degree_for(u64::MAX), None);
}

#[test]
fn crs_degree_boundary() {
    assert_eq!(check_crs_degree(8, 7), Ok(8));
    assert_eq!(check_crs_degree(7, 7), Err(ProveError::InsufficientCrsDegree));
    assert_eq!(check_crs_degree(1024, 7), Ok(8));
}

#[test]
fn mul_circuit_end_to_end_prepares() {
    let p = prepare(mul_circuit(), witness(&[1, 3, 4, 12]), &crs_of(4), 1).unwrap();
    assert_eq!(p.degree, 4);
    assert_eq!(p.gates.len(), 1);
    assert_eq!(p.gates[0].len(), 7);
    assert_eq!(p.witness.values[3], fe(12));
    assert!(prepare(mul_circuit(), witness(&[1, 3, 4, 12]), &crs_of(3), 1).is_err());
    assert_eq!(prepare(mul_circuit(), witness(&[1, 3, 4, 12]), &crs_of(4), u64::MAX).unwrap_err(),
        ProveError::InsufficientCrsDegree);
}

#[test]
fn prepare_violated_witness_is_not_satisfied() {
    let e = prepare(mul_circuit(), witness(&[1, 3, 4, 13]), &crs_of(4), 1).unwrap_err();
    assert_eq!(e, ProveError::ConstraintNotSatisfied);
}

#[test]
fn prepare_small_crs_is_insufficient() {
    let e = prepare(mul_circuit(), witness(&[1, 3, 4, 12]), &crs_of(3), 1).unwrap_err();
    assert_eq!(e, ProveError::InsufficientCrsDegree);
}

#[test]
fn prepare_is_deterministic() {
    let a = prepare(mul_circuit(), witness(&[1, 3, 4, 12]), &crs_of(4), 1).unwrap();
    let b = prepare(mul_circuit(), witness(&[1, 3, 4, 12]), &crs_of(4), 1).unwrap();
    assert_eq!(format!("{:?}", a), format!("{:?}", b));
}

#[test]
fn transport_decodes_and_encodes() {
    assert_eq!(decode_transport("aGVsbG8=").unwrap(), b"hello".to_vec());
    assert_eq!(decode_transport("a$b=").unwrap_err(), ProveError::InvalidEncoding);
    assert_eq!(encode_transport(&b"hello".to_vec()), "aGVsbG8=");
    assert_eq!(decode_transport("").unwrap(), Vec::<u8>::new());
}

fn crs_of(n: usize) -> Crs {
    Crs { g1: vec![vec![0x40; 1].into_iter().chain(vec![0u8; 63]).collect(); n], g2: vec![] }
}

fn g1_generator() -> Vec<u8> {
    let mut p = vec![0u8; 64];
    p[31] = 1;
    p[63] = 2;
    p
}

fn infinity(w: usize) -> Vec<u8> {
    let mut p = vec![0u8; w];
    p[0] = 0x40;
    p
}

fn g2_pair() -> Vec<Vec<u8>> {
    vec![infinity(128), infinity(128)]
}

fn crs_bytes(g1: &[Vec<u8>], g2: &[Vec<u8>]) -> Vec<u8> {
    let mut out = (g1.len() as u64).to_be_bytes().to_vec();
    for p in g1 {
        out.extend(p.iter().copied());
    }
    out.extend((g2.len() as u64).to_be_bytes());
    for p in g2 {
        out.extend(p.iter().copied());
    }
    out
}

#[test]
fn crs_reads_points_and_degree() {
    let b = crs_bytes(&[g1_generator(), infinity(64)], &g2_pair());
    let c = read_crs(&b).unwrap();
    assert_eq!(c.degree(), 2);
    assert_eq!(c.g1[0], g1_generator());
    assert_eq!(c.g2.len(), 2);
}

#[test]
fn crs_format_errors() {
    let b = crs_bytes(&[g1_generator()], &g2_pair());
    assert_eq!(read_crs(&b[..b.len() - 1]).unwrap_err(), ProveError::TruncatedInput);
    let mut longer = b.clone();
    longer.push(0);
    assert_eq!(read_crs(&longer).unwrap_err(), ProveError::MalformedFormat);
    let mut off_curve = g1_generator();
    off_curve[63] = 3;
    let bad = crs_bytes(&[off_curve], &g2_pair());
    assert_eq!(read_crs(&bad).unwrap_err(), ProveError::InvalidEncoding);
    assert_eq!(read_crs(&[0, 0]).unwrap_err(), ProveError::TruncatedInput);
    let one_g2 = crs_bytes(&[g1_generator()], &[infinity(128)]);
    assert_eq!(read_crs(&one_g2).unwrap_err(), ProveError::MalformedFormat);
}

#[test]
fn crs_of_exact_degree_is_enough() {
    let g1: Vec<Vec<u8>> = (0..8).map(|_| g1_generator()).collect();
    let crs = read_crs(&crs_bytes(&g1, &g2_pair())).unwrap();
    let p = prepare(mul_circuit(), witness(&[1, 3, 4, 12]), &crs, 6).unwrap();
    assert_eq!(p.degree, 8);
    let crs7 = read_crs(&crs_bytes(&g1[..7], &g2_pair())).unwrap();
    assert_eq!(prepare(mul_circuit(), witness(&[1, 3, 4, 12]), &crs7, 6).unwrap_err(), ProveError::InsufficientCrsDegree);
}

/// The witness of the `x * y = z` circuit extended to the auxiliary wires:
/// the offset wire, then the partial sums of A, B and C.
fn extended(w: &[u8]) -> Vec<Vec<u8>> {
    let (x, y, z) = (w[1], w[2], w[3]);
    [w[0], x, y, z, 0, 0, x, 0, y, 0, z].iter().map(|v| fe(*v)).collect()
}

#[test]
fn transpiled_gates_hold_exactly_for_satisfying_witness() {
    let gates = transpile(&mul_circuit(), AUX_OFFSET).unwrap();
    let p = bn254_r();
    assert!(gates_satisfied(&gates, &extended(&[1, 3, 4, 12]), &p));
    assert!(!gates_satisfied(&gates, &extended(&[1, 3, 4, 13]), &p));
    let mut tampered = extended(&[1, 3, 4, 12]);
    tampered[6] = fe(5);
    assert!(!gates_satisfied(&gates, &tampered, &p));
}

#[test]
fn single_gate_checks() {
    let p = vec![7u8];
    let x = vec![vec![3u8], vec![4u8], vec![5u8], vec![0u8], vec![4u8]];
    assert!(gate_satisfied(&Gate::Mul { left: 0, right: 1, out: 2 }, &x, &p));
    assert!(!gate_satisfied(&Gate::Mul { left: 0, right: 2, out: 1 }, &x, &p));
    assert!(gate_satisfied(&Gate::Zero { out: 3 }, &x, &p));
    assert!(gate_satisfied(&Gate::Zero { out: 9 }, &x, &p));
    assert!(!gate_satisfied(&Gate::Zero { out: 0 }, &x, &p));
    let acc = Gate::Accumulate { acc: 0, wire: 1, coeff: vec![2], out: 4 };
    assert!(gate_satisfied(&acc, &x, &p));
    let wrong = Gate::Accumulate { acc: 0, wire: 1, coeff: vec![2], out: 3 };
    assert!(!gate_satisfied(&wrong, &x, &p));
}
