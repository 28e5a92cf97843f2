use plonkit::error::ProveError;
use plonkit::r1cs::{Constraint, Term};
use plonkit::r1cs_file::read_r1cs;
use plonkit::witness::read_witness;
use plonkit::pipeline::load;
use plonkit::transport::encode_transport;

fn le32(x: u32) -> Vec<u8> {
    x.to_le_bytes().to_vec()
}

fn le64(x: u64) -> Vec<u8> {
    x.to_le_bytes().to_vec()
}

fn fe(x: u8, fs: usize) -> Vec<u8> {
    let mut v = vec![0u8; fs];
    v[0] = x;
    v
}

fn lc_bytes(terms: &[(u32, u8)], fs: usize) -> Vec<u8> {
    let mut out = le32(terms.len() as u32);
    for (w, c) in terms {
        out.extend(le32(*w));
        out.extend(fe(*c, fs));
    }
    out
}

/// A `.r1cs` file over the field of 97 with one constraint `w1 * w2 = w3`.
fn mul_r1cs(n_sections: u32, wire_c: u32) -> Vec<u8> {
    let fs = 1usize;
    let mut out = b"r1cs".to_vec();
    out.extend(le32(1));
    out.extend(le32(n_sections));
    out.extend(le32(1));
    out.extend(le64(fs as u64 + 32));
    out.extend(le32(fs as u32));
    out.push(97);
    out.extend(le32(4));
    out.extend(le32(1));
    out.extend(le32(0));
    out.extend(le32(2));
    out.extend(le64(4));
    out.extend(le32(1));
    let mut cons = lc_bytes(&[(1, 1)], fs);
    cons.extend(lc_bytes(&[(2, 1)], fs));
    cons.extend(lc_bytes(&[(wire_c, 1)], fs));
    out.extend(le32(2));
    out.extend(le64(cons.len() as u64));
    out.extend(cons);
    if n_sections == 3 {
        out.extend(le32(3));
        out.extend(le64(32));
        for i in 0..4u64 {
            out.extend(le64(i));
        }
    }
    out
}

fn wtns(version: u32, values: &[u8], prime: u8) -> Vec<u8> {
    let mut out = b"wtns".to_vec();
    out.extend(le32(version));
    out.extend(le32(2));
    out.extend(le32(1));
    out.extend(le64(9));
    out.extend(le32(1));
    out.push(prime);
    out.extend(le32(values.len() as u32));
    out.extend(le32(2));
    out.extend(le64(values.len() as u64));
    out.extend(values.iter().copied());
    out
}

#[test]
fn r1cs_reads_header_and_constraint() {
    let r = read_r1cs(&mul_r1cs(2, 3)).unwrap();
    assert_eq!(r.field_size, 1);
    assert_eq!(r.prime, vec![97]);
    assert_eq!(r.n_wires, 4);
    assert_eq!(r.n_pub_out, 1);
    assert_eq!(r.n_pub_in, 0);
    assert_eq!(r.n_prv_in, 2);
    assert_eq!(r.n_labels, 4);
    assert_eq!(r.constraints.len(), 1);
    let c: &Constraint = &r.constraints[0];
    let t: &Term = &c.c[0];
    assert_eq!(c.a[0].wire, 1);
    assert_eq!(c.b[0].wire, 2);
    assert_eq!(t.wire, 3);
    assert_eq!(t.coeff, vec![1]);
}

#[test]
fn r1cs_reads_label_section() {
    let r = read_r1cs(&mul_r1cs(3, 3)).unwrap();
    assert_eq!(r.constraints.len(), 1);
}

#[test]
fn r1cs_truncated_by_one_byte_is_rejected() {
    for sections in [2u32, 3] {
        let b = mul_r1cs(sections, 3);
        let cut = &b[..b.len() - 1];
        assert_eq!(read_r1cs(cut).unwrap_err(), ProveError::TruncatedInput);
    }
}

#[test]
fn r1cs_every_prefix_is_rejected() {
    let b = mul_r1cs(3, 3);
    for n in 0..b.len() {
        assert!(read_r1cs(&b[..n]).is_err());
    }
}

#[test]
fn r1cs_unknown_version_is_refused() {
    let mut b = mul_r1cs(2, 3);
    b[4] = 2;
    assert_eq!(read_r1cs(&b).unwrap_err(), ProveError::UnsupportedVersion);
}

#[test]
fn r1cs_bad_magic_or_trailing_byte_is_malformed() {
    let mut b = mul_r1cs(2, 3);
    b[0] = b'x';
    assert_eq!(read_r1cs(&b).unwrap_err(), ProveError::MalformedFormat);
    let mut b = mul_r1cs(2, 3);
    b.push(0);
    assert_eq!(read_r1cs(&b).unwrap_err(), ProveError::MalformedFormat);
}

#[test]
fn r1cs_undeclared_wire_is_malformed() {
    assert_eq!(read_r1cs(&mul_r1cs(2, 4)).unwrap_err(), ProveError::MalformedFormat);
}

#[test]
fn witness_reads_values() {
    let w = read_witness(&wtns(2, &[1, 3, 4, 12], 97)).unwrap();
    assert_eq!(w.prime, vec![97]);
    assert_eq!(w.values, vec![vec![1], vec![3], vec![4], vec![12]]);
}

#[test]
fn witness_truncated_by_one_byte_is_rejected() {
    let b = wtns(1, &[1, 3, 4, 12], 97);
    assert_eq!(read_witness(&b[..b.len() - 1]).unwrap_err(), ProveError::TruncatedInput);
    let empty = wtns(1, &[], 97);
    assert_eq!(read_witness(&empty[..empty.len() - 1]).unwrap_err(), ProveError::TruncatedInput);
}

#[test]
fn witness_value_at_modulus_is_out_of_range() {
    assert_eq!(read_witness(&wtns(1, &[1, 97], 97)).unwrap_err(), ProveError::FieldOutOfRange);
    assert!(read_witness(&wtns(1, &[1, 96], 97)).is_ok());
}

#[test]
fn witness_format_errors() {
    assert_eq!(read_witness(&wtns(3, &[1], 97)).unwrap_err(), ProveError::UnsupportedVersion);
    let mut b = wtns(1, &[1], 97);
    b.push(0);
    assert_eq!(read_witness(&b).unwrap_err(), ProveError::MalformedFormat);
    let mut b = wtns(1, &[1], 97);
    b[1] = 0;
    assert_eq!(read_witness(&b).unwrap_err(), ProveError::MalformedFormat);
}

fn small_crs() -> Vec<u8> {
    let mut out = 1u64.to_be_bytes().to_vec();
    let mut g1 = vec![0u8; 64];
    g1[0] = 0x40;
    out.extend(g1);
    out.extend(2u64.to_be_bytes());
    for _ in 0..2 {
        let mut g2 = vec![0u8; 128];
        g2[0] = 0x40;
        out.extend(g2);
    }
    out
}

#[test]
fn load_reads_all_three_inputs() {
    let r = encode_transport(&mul_r1cs(2, 3));
    let w = encode_transport(&wtns(2, &[1, 3, 4, 12], 97));
    let k = encode_transport(&small_crs());
    let l = load(&r, &w, &k).unwrap();
    assert_eq!(l.circuit.n_wires, 4);
    assert_eq!(l.witness.values.len(), 4);
    assert_eq!(l.crs.degree(), 1);
    assert_eq!(l.crs_bytes, small_crs());
}

#[test]
fn load_reports_the_first_failure() {
    let r = encode_transport(&mul_r1cs(2, 3));
    let bad_r = encode_transport(&mul_r1cs(2, 3)[..40].to_vec());
    let w = encode_transport(&wtns(2, &[1, 3, 4, 12], 97));
    let bad_w = encode_transport(&wtns(2, &[1, 3, 4, 12], 97)[..30].to_vec());
    let k = encode_transport(&small_crs());
    assert_eq!(load("%%", &w, &k).unwrap_err(), ProveError::InvalidEncoding);
    assert_eq!(load(&bad_r, &bad_w, &k).unwrap_err(), ProveError::TruncatedInput);
    assert_eq!(load(&r, &bad_w, "%%").unwrap_err(), ProveError::TruncatedInput);
    assert_eq!(load(&r, &w, "%%").unwrap_err(), ProveError::InvalidEncoding);
    let mut trailing = small_crs();
    trailing.push(0);
    assert_eq!(load(&r, &w, &encode_transport(&trailing)).unwrap_err(), ProveError::MalformedFormat);
}
