use vstd::prelude::*;
use crate::binary::{u32_le, u64_le, read_u32, read_u64, copy_range};
use crate::error::ProveError;
use crate::field::{le_nat, big_lt};

verus! {

/// A witness as the `.wtns` file holds it: the field modulus and one value
/// per wire, each a little-endian encoding of `field_size` bytes.
#[derive(Debug, Clone)]
pub struct Witness {
    pub prime: Vec<u8>,
    pub values: Vec<Vec<u8>>,
}

/// Width of a field element, from the header section.
pub open spec fn wtns_field_size(s: Seq<u8>) -> int {
    u32_le(s, 24) as int
}

pub open spec fn wtns_prime(s: Seq<u8>) -> Seq<u8> {
    s.subrange(28, 28 + wtns_field_size(s))
}

/// Number of values, from the header section.
pub open spec fn wtns_count(s: Seq<u8>) -> int {
    u32_le(s, 28 + wtns_field_size(s)) as int
}

/// Start of the values section's content.
pub open spec fn wtns_data(s: Seq<u8>) -> int {
    44 + wtns_field_size(s)
}

/// The bytes of value `i`.
pub open spec fn wtns_value(s: Seq<u8>, i: int) -> Seq<u8> {
    let fs = wtns_field_size(s);
    s.subrange(wtns_data(s) + i * fs, wtns_data(s) + (i + 1) * fs)
}

/// Length of a well-formed file with the header of `s`.
pub open spec fn wtns_len(s: Seq<u8>) -> int {
    wtns_data(s) + wtns_count(s) * wtns_field_size(s)
}

/// Why the layout of `s` is not that of a `.wtns` file, or `None` when it
/// is: magic `wtns`, version 1 or 2, two sections; section 1 (header): field
/// size, modulus, value count; section 2: the values, back to back.
pub open spec fn wtns_layout_error(s: Seq<u8>) -> Option<ProveError> {
    let fs = wtns_field_size(s);
    if s.len() < 28 {
        Some(ProveError::TruncatedInput)
    } else if !(s[0] == 0x77 && s[1] == 0x74 && s[2] == 0x6e && s[3] == 0x73) {
        Some(ProveError::MalformedFormat)
    } else if !(u32_le(s, 4) == 1 || u32_le(s, 4) == 2) {
        Some(ProveError::UnsupportedVersion)
    } else if u32_le(s, 8) != 2 || u32_le(s, 12) != 1 || u64_le(s, 16) != fs + 8 {
        Some(ProveError::MalformedFormat)
    } else if s.len() < 44 + fs {
        Some(ProveError::TruncatedInput)
    } else if u32_le(s, 32 + fs) != 2 || u64_le(s, 36 + fs) != wtns_count(s) * fs {
        Some(ProveError::MalformedFormat)
    } else if s.len() < wtns_len(s) {
        Some(ProveError::TruncatedInput)
    } else if s.len() > wtns_len(s) {
        Some(ProveError::MalformedFormat)
    } else {
        None
    }
}

/// Why `s` is not a valid `.wtns` file, or `None` when it is: its layout is
/// valid and every value is below the modulus.
pub open spec fn wtns_error(s: Seq<u8>) -> Option<ProveError> {
    if wtns_layout_error(s) is Some {
        wtns_layout_error(s)
    } else if exists|i: int| 0 <= i < wtns_count(s)
        && !(le_nat(#[trigger] wtns_value(s, i)) < le_nat(wtns_prime(s))) {
        Some(ProveError::FieldOutOfRange)
    } else {
        None
    }
}

/// `w` holds what the valid file `s` holds.
pub open spec fn wtns_matches(s: Seq<u8>, w: Witness) -> bool {
    &&& w.prime@ == wtns_prime(s)
    &&& w.values@.len() == wtns_count(s)
    &&& forall|i: int| 0 <= i < wtns_count(s) ==> (#[trigger] w.values@[i])@ == wtns_value(s, i)
}

proof fn lemma_value_in_file(n: int, fs: int, i: int)
    requires
        0 <= i < n,
        0 <= fs,
    ensures
        (i + 1) * fs <= n * fs,
        i * fs + fs == (i + 1) * fs,
{
    assert((i + 1) * fs <= n * fs) by (nonlinear_arith)
        requires
            i + 1 <= n,
            0 <= fs,
    ;
    assert(i * fs + fs == (i + 1) * fs) by (nonlinear_arith);
}

/// Reads a witness from the bytes of a `.wtns` file.
pub fn read_witness(s: &[u8]) -> (r: Result<Witness, ProveError>)
    ensures
        match wtns_error(s@) {
            Some(e) => r == Err::<Witness, ProveError>(e),
            None => r matches Ok(w) && wtns_matches(s@, w),
        },
{
    let len = s.len() as u64;
    if s.len() < 28 {
        return Err(ProveError::TruncatedInput);
    }
    if !(s[0] == 0x77 && s[1] == 0x74 && s[2] == 0x6e && s[3] == 0x73) {
        return Err(ProveError::MalformedFormat);
    }
    let version = read_u32(s, 4);
    if !(version == 1 || version == 2) {
        return Err(ProveError::UnsupportedVersion);
    }
    let fs = read_u32(s, 24) as u64;
    if read_u32(s, 8) != 2 || read_u32(s, 12) != 1 || read_u64(s, 16) != fs + 8 {
        return Err(ProveError::MalformedFormat);
    }
    if len < 44 + fs {
        return Err(ProveError::TruncatedInput);
    }
    let fsz = fs as usize;
    let n = read_u32(s, 28 + fsz) as u64;
    proof {
        assert(n * fs <= 0xffff_ffff * 0xffff_ffff) by (nonlinear_arith)
            requires
                n <= 0xffff_ffff,
                fs <= 0xffff_ffff,
        ;
    }
    if read_u32(s, 32 + fsz) != 2 || read_u64(s, 36 + fsz) != n * fs {
        return Err(ProveError::MalformedFormat);
    }
    let total = 44 + fs + n * fs;
    if len < total {
        return Err(ProveError::TruncatedInput);
    }
    if len > total {
        return Err(ProveError::MalformedFormat);
    }
    let prime = copy_range(s, 28, 28 + fsz);
    let mut values: Vec<Vec<u8>> = Vec::new();
    let mut off: usize = 44 + fsz;
    let mut i: u64 = 0;
    while i < n
        invariant
            wtns_field_size(s@) == fs,
            fsz == fs,
            wtns_layout_error(s@) is None,
            s@.len() <= usize::MAX,
            wtns_count(s@) == n,
            s@.len() == 44 + fs + n * fs,
            prime@ == wtns_prime(s@),
            i <= n,
            off == 44 + fs + i * fs,
            values@.len() == i,
            forall|k: int| 0 <= k < i ==> (#[trigger] values@[k])@ == wtns_value(s@, k),
            forall|k: int| 0 <= k < i ==> le_nat(#[trigger] wtns_value(s@, k)) < le_nat(wtns_prime(s@)),
        decreases n - i,
    {
        proof {
            lemma_value_in_file(n as int, fs as int, i as int);
        }
        let v = copy_range(s, off, off + fsz);
        if !big_lt(v.as_slice(), prime.as_slice()) {
            assert(!(le_nat(wtns_value(s@, i as int)) < le_nat(wtns_prime(s@))));
            return Err(ProveError::FieldOutOfRange);
        }
        values.push(v);
        off = off + fsz;
        i = i + 1;
    }
    Ok(Witness { prime, values })
}

/// Cutting the last byte off a valid `.wtns` file makes it a truncated one.
pub proof fn lemma_truncated_witness_rejected(s: Seq<u8>)
    requires
        wtns_error(s) is None,
    ensures
        wtns_error(s.drop_last()) == Some(ProveError::TruncatedInput),
{
    let t = s.drop_last();
    let fs = wtns_field_size(s);
    assert(wtns_layout_error(s) is None);
    assert(wtns_field_size(t) == fs);
    assert(u32_le(t, 4) == u32_le(s, 4));
    assert(u32_le(t, 8) == u32_le(s, 8));
    assert(u32_le(t, 12) == u32_le(s, 12));
    assert(u64_le(t, 16) == u64_le(s, 16));
    if t.len() >= 44 + fs {
        assert(wtns_count(t) == wtns_count(s));
        assert(u32_le(t, 32 + fs) == u32_le(s, 32 + fs));
        assert(u64_le(t, 36 + fs) == u64_le(s, 36 + fs));
    }
}

} // verus!
