use bellman_ce::kate_commitment::{Crs as EngineCrs, CrsForMonomialForm};
use bellman_ce::pairing::bn256::{Bn256, Fr, FrRepr};
use bellman_ce::pairing::ff::{PrimeField, PrimeFieldRepr};
use bellman_ce::plonk::better_cs::cs::PlonkCsWidth4WithNextStepParams;
use bellman_ce::plonk::better_cs::keys::Proof as EngineProof;
use bellman_ce::plonk::commitments::transcript::keccak_transcript::RollingKeccakTranscript;
use bellman_ce::plonk::{make_verification_key, prove_by_steps, setup, transpile_with_gates_count, verify};
use bellman_ce::{Circuit, ConstraintSystem, LinearCombination, SynthesisError};

use plonkit::crs::Crs;
use plonkit::pipeline::prepare;
use plonkit::r1cs::{Constraint, R1cs, Term};
use plonkit::witness::Witness;

fn bn254_r() -> Vec<u8> {
    let hex = "30644e72e131a029b85045b68181585d2833e84879b9709143e1f593f0000001";
    let mut be: Vec<u8> = (0..32).map(|i| u8::from_str_radix(&hex[2 * i..2 * i + 2], 16).unwrap()).collect();
    be.reverse();
    be
}

fn fe(x: u8) -> Vec<u8> {
    let mut v = vec![0u8; 32];
    v[0] = x;
    v
}

/// `x * y = z` on wires 1, 2, 3, with `z` public.
fn mul_circuit() -> R1cs {
    let term = |wire: u32| Term { wire, coeff: fe(1) };
    R1cs {
        field_size: 32,
        prime: bn254_r(),
        n_wires: 4,
        n_pub_out: 0,
        n_pub_in: 1,
        n_prv_in: 2,
        n_labels: 4,
        constraints: vec![Constraint { a: vec![term(1)], b: vec![term(2)], c: vec![term(3)] }],
    }
}

fn to_fr(bytes: &[u8]) -> Fr {
    let mut repr = FrRepr::default();
    repr.read_le(bytes).unwrap();
    Fr::from_repr(repr).unwrap()
}

/// The circuit as the engine synthesizes it; the wires in `public` are inputs.
#[derive(Clone)]
struct EngineCircuit {
    r1cs: R1cs,
    witness: Vec<Vec<u8>>,
    public: Vec<usize>,
}

impl Circuit<Bn256> for EngineCircuit {
    fn synthesize<CS: ConstraintSystem<Bn256>>(self, cs: &mut CS) -> Result<(), SynthesisError> {
        let mut vars = vec![CS::one()];
        for i in 1..self.r1cs.n_wires as usize {
            let value = to_fr(&self.witness[i]);
            let v = if self.public.contains(&i) {
                cs.alloc_input(|| format!("public_{}", i), || Ok(value))?
            } else {
                cs.alloc(|| format!("private_{}", i), || Ok(value))?
            };
            vars.push(v);
        }
        for (i, c) in self.r1cs.constraints.iter().enumerate() {
            let make = |terms: &Vec<Term>| {
                let mut lc = LinearCombination::<Bn256>::zero();
                for t in terms {
                    lc = lc + (to_fr(&t.coeff), vars[t.wire as usize]);
                }
                lc
            };
            let (a, b, cc) = (make(&c.a), make(&c.b), make(&c.c));
            cs.enforce(|| format!("constraint_{}", i), |_| a, |_| b, |_| cc);
        }
        Ok(())
    }
}

fn proof_bytes(circuit: &EngineCircuit, crs: &EngineCrs<Bn256, CrsForMonomialForm>) -> (Vec<u8>, bool) {
    let (_, hints) = transpile_with_gates_count::<Bn256, _>(circuit.clone()).unwrap();
    let polys = setup(circuit.clone(), &hints).unwrap();
    let proof = prove_by_steps::<Bn256, _, RollingKeccakTranscript<Fr>>(
        circuit.clone(), &hints, &polys, None, crs, None,
    )
    .unwrap();
    let vk = make_verification_key(&polys, crs).unwrap();
    let ok = verify::<Bn256, RollingKeccakTranscript<Fr>>(&proof, &vk).unwrap();
    assert_eq!(proof.input_values, vec![Fr::from_str("12").unwrap()]);
    let mut bytes = Vec::new();
    proof.write(&mut bytes).unwrap();
    (bytes, ok)
}

#[test]
fn mul_circuit_proof_is_accepted_with_degree_four_crs() {
    let values: Vec<Vec<u8>> = [1u8, 3, 4, 12].iter().map(|x| fe(*x)).collect();
    let circuit = EngineCircuit { r1cs: mul_circuit(), witness: values.clone(), public: vec![3] };
    let (gates, _) = transpile_with_gates_count::<Bn256, _>(circuit.clone()).unwrap();
    let lib_crs = Crs { g1: vec![vec![0u8; 64]; 4], g2: vec![] };
    let witness = Witness { prime: bn254_r(), values };
    let prepared = prepare(mul_circuit(), witness, &lib_crs, gates as u64).unwrap();
    assert_eq!(prepared.degree, 4);

    let crs = EngineCrs::<Bn256, CrsForMonomialForm>::dummy_crs(4);
    let (bytes, ok) = proof_bytes(&circuit, &crs);
    assert!(ok);
    let back = EngineProof::<Bn256, PlonkCsWidth4WithNextStepParams>::read(&bytes[..]).unwrap();
    let mut again = Vec::new();
    back.write(&mut again).unwrap();
    assert_eq!(again, bytes);
    let (second, _) = proof_bytes(&circuit, &crs);
    assert_eq!(second, bytes);
}
