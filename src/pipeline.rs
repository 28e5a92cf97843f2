use vstd::prelude::*;
use crate::crs::{crs_error, crs_g2_at, crs_n1, read_crs, Crs};
use crate::binary::chunks_at;
use crate::r1cs_file::{r1cs_error, r1cs_matches, read_r1cs};
use crate::transport::{base64_decoded, decode_transport};
use crate::witness::{read_witness, wtns_error, wtns_matches};
use vstd::string::StringSliceAdditionalSpecFns;
use crate::error::ProveError;
use crate::r1cs::R1cs;
use crate::setup::{check_crs_degree, degree_outcome, lemma_required_degree_is_least_pow2, required_degree};
use crate::transpile::{fits, is_transpilation, transpile, Gate};
use crate::witness::Witness;

verus! {

/// Auxiliary wires start this far past the circuit's declared wires.
pub const AUX_OFFSET: u64 = 1;

/// What the checks produce: the checked circuit and witness, the library's
/// gate system for the circuit and the degree of the engine's setup.
#[derive(Debug, Clone)]
pub struct Prepared {
    pub circuit: R1cs,
    pub witness: Witness,
    pub gates: Vec<Vec<Gate>>,
    pub degree: u64,
}

/// Checks a loaded circuit and witness against each other and against a
/// reference string, then transpiles the circuit into the library's gate
/// system. `engine_gates` is the number of constraint gates that the proving
/// engine's own transpilation of the circuit gives. The engine adds one gate
/// per public input, and its evaluation domain, the degree the reference
/// string must reach, is the least power of two above that total. The witness is checked first, then the transpilation, then
/// the degree.
pub fn prepare(circuit: R1cs, witness: Witness, crs: &Crs, engine_gates: u64) -> (r: Result<Prepared, ProveError>)
    ensures
        circuit.check_outcome(witness.values@) matches Err(e) ==> r == Err::<Prepared, ProveError>(e),
        circuit.check_outcome(witness.values@) is Ok && !fits(circuit, AUX_OFFSET)
            ==> r == Err::<Prepared, ProveError>(ProveError::UnsupportedConstraintShape),
        circuit.check_outcome(witness.values@) is Ok && fits(circuit, AUX_OFFSET) ==> match degree_outcome(
            crs.g1@.len(),
            engine_rows(circuit, engine_gates),
        ) {
            Ok(d) => r matches Ok(p) && p.circuit == circuit && p.witness == witness
                && is_transpilation(circuit, AUX_OFFSET, p.gates@) && p.degree == d,
            Err(e) => r == Err::<Prepared, ProveError>(e),
        },
        // a witness that violates a constraint is refused as such
        circuit.modulus() > 0 && circuit.wires_in_range() && circuit.is_witness(witness.values@)
            && !circuit.satisfied_by(witness.values@)
            ==> r == Err::<Prepared, ProveError>(ProveError::ConstraintNotSatisfied),
        // a satisfying witness with a large enough reference string succeeds
        circuit.modulus() > 0 && circuit.wires_in_range() && circuit.is_witness(witness.values@)
            && circuit.satisfied_by(witness.values@) && fits(circuit, AUX_OFFSET)
            && required_degree(engine_rows(circuit, engine_gates)) <= crs.g1@.len()
            ==> r is Ok,
{
    let crs_degree = crs.degree();
    match circuit.check_witness(&witness.values) {
        Ok(()) => {},
        Err(e) => return Err(e),
    }
    let gates = match transpile(&circuit, AUX_OFFSET) {
        Ok(g) => g,
        Err(e) => return Err(e),
    };
    let rows = match engine_gates.checked_add(circuit.n_pub_out as u64 + circuit.n_pub_in as u64 + 1) {
        Some(n) => n,
        None => {
            proof {
                lemma_required_degree_is_least_pow2(engine_rows(circuit, engine_gates));
            }
            return Err(ProveError::InsufficientCrsDegree);
        },
    };
    let degree = match check_crs_degree(crs_degree, rows) {
        Ok(d) => d,
        Err(e) => return Err(e),
    };
    Ok(Prepared { circuit, witness, gates, degree })
}

/// Rows the engine needs for `engine_gates` constraint gates of `c`: one
/// gate per public input is added, and the domain has one row to spare.
pub open spec fn engine_rows(c: R1cs, engine_gates: u64) -> nat {
    (engine_gates + c.n_pub_out + c.n_pub_in + 1) as nat
}

/// The three inputs, read and checked one by one.
#[derive(Debug, Clone)]
pub struct Loaded {
    pub circuit: R1cs,
    pub witness: Witness,
    pub crs: Crs,
    /// The reference string's bytes, for the engine's own reader.
    pub crs_bytes: Vec<u8>,
}

/// The circuit's text decodes and its bytes are a well-formed circuit.
pub open spec fn circuit_loads(t: Seq<u8>, c: R1cs) -> bool {
    &&& base64_decoded(t) matches Some(b) && r1cs_error(b) is None && r1cs_matches(b, c)
    &&& c.modulus() > 0
    &&& c.wires_in_range()
}

/// Decodes and reads the circuit.
pub fn load_circuit(r1cs_b64: &str) -> (r: Result<R1cs, ProveError>)
    ensures
        base64_decoded(r1cs_b64.spec_bytes()) is None
            ==> r == Err::<R1cs, ProveError>(ProveError::InvalidEncoding),
        match base64_decoded(r1cs_b64.spec_bytes()) {
            Some(b) => match r1cs_error(b) {
                Some(e) => r == Err::<R1cs, ProveError>(e),
                None => true,
            },
            None => true,
        },
        r is Ok <==> exists|c: R1cs| #[trigger] circuit_loads(r1cs_b64.spec_bytes(), c),
        r matches Ok(c) ==> circuit_loads(r1cs_b64.spec_bytes(), c),
        r matches Err(e) ==> e.is_format_error(),
{
    let rb = match decode_transport(r1cs_b64) {
        Ok(b) => b,
        Err(e) => {
            return Err(e);
        },
    };
    let r = read_r1cs(rb.as_slice());
    proof {
        if r is Ok {
            assert(circuit_loads(r1cs_b64.spec_bytes(), r->Ok_0));
        }
    }
    r
}

/// Decodes the three base64 inputs and reads them: the circuit, then the
/// witness, then the reference string. Each input is decoded and read
/// before the next is touched, so the first failure is the one returned.
pub fn load(r1cs_b64: &str, witness_b64: &str, key_b64: &str) -> (r: Result<Loaded, ProveError>)
    ensures
        base64_decoded(r1cs_b64.spec_bytes()) is None
            ==> r == Err::<Loaded, ProveError>(ProveError::InvalidEncoding),
        match base64_decoded(r1cs_b64.spec_bytes()) {
            Some(b) => match r1cs_error(b) {
                Some(e) => r == Err::<Loaded, ProveError>(e),
                None => true,
            },
            None => true,
        },
        (exists|c: R1cs| #[trigger] circuit_loads(r1cs_b64.spec_bytes(), c))
            ==> match base64_decoded(witness_b64.spec_bytes()) {
            None => r == Err::<Loaded, ProveError>(ProveError::InvalidEncoding),
            Some(wb) => match wtns_error(wb) {
                Some(e) => r == Err::<Loaded, ProveError>(e),
                None => match base64_decoded(key_b64.spec_bytes()) {
                    None => r == Err::<Loaded, ProveError>(ProveError::InvalidEncoding),
                    Some(kb) => match crs_error(kb) {
                        Some(e) => r == Err::<Loaded, ProveError>(e),
                        None => r is Ok,
                    },
                },
            },
        },
        r matches Ok(l) ==> {
            &&& circuit_loads(r1cs_b64.spec_bytes(), l.circuit)
            &&& base64_decoded(witness_b64.spec_bytes()) matches Some(wb) && wtns_error(wb) is None
                && wtns_matches(wb, l.witness)
            &&& base64_decoded(key_b64.spec_bytes()) == Some(l.crs_bytes@)
            &&& crs_error(l.crs_bytes@) is None
            &&& l.crs.g1@.len() == crs_n1(l.crs_bytes@)
            &&& chunks_at(l.crs_bytes@, 8, 64, l.crs.g1@)
            &&& chunks_at(l.crs_bytes@, crs_g2_at(l.crs_bytes@) + 8, 128, l.crs.g2@)
        },
        r matches Err(e) ==> e.is_format_error(),
{
    let circuit = match load_circuit(r1cs_b64) {
        Ok(c) => c,
        Err(e) => return Err(e),
    };
    let wb = match decode_transport(witness_b64) {
        Ok(b) => b,
        Err(e) => return Err(e),
    };
    let witness = match read_witness(wb.as_slice()) {
        Ok(w) => w,
        Err(e) => return Err(e),
    };
    let crs_bytes = match decode_transport(key_b64) {
        Ok(b) => b,
        Err(e) => return Err(e),
    };
    let crs = match read_crs(crs_bytes.as_slice()) {
        Ok(c) => c,
        Err(e) => return Err(e),
    };
    Ok(Loaded { circuit, witness, crs, crs_bytes })
}

} // verus!
