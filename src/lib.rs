//! Preparation of circom R1CS circuits for a PLONK prover.
//!
//! - `r1cs_file`, `witness`, `crs`: readers for the `.r1cs`, `.wtns` and
//!   monomial-form reference-string formats, built on `binary`.
//! - `field`: arithmetic on little-endian field-element encodings.
//! - `r1cs`: the circuit model and the witness check.
//! - `transpile`: the library's own gate system for a circuit, R1CS
//!   constraints as chains of width-three gates, with the proof that
//!   satisfiability is preserved and a checker for concrete assignments. The
//!   proving engine transpiles the circuit itself; its gate count is what
//!   sizes the setup.
//! - `setup`: the power-of-two degree rule.
//! - `pipeline`: loading the three inputs, then the checks that precede
//!   proving, in order.
//! - `transport`: base64 text for inputs and outputs.
pub mod binary;
pub mod crs;
pub mod error;
pub mod field;
pub mod pipeline;
pub mod r1cs;
pub mod r1cs_file;
pub mod setup;
pub mod transpile;
pub mod transport;
pub mod witness;
