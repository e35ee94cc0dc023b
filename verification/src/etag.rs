//! Cache-validation headers for served derivatives: a strong entity tag
//! over the entry's path, the file's size and its modification time, and
//! the `Last-Modified` value.

use vstd::prelude::*;
use vstd::string::StrSliceExecFns;
use vstd::string::StringSliceAdditionalSpecFns;
use sha2::{Digest, Sha256};
use crate::text::spec_u64_string;

verus! {

/// The little-endian bytes of a number, lowest byte first, `n` bytes wide.
pub open spec fn spec_le_bytes(x: nat, n: nat) -> Seq<u8>
    decreases n,
{
    if n == 0 {
        Seq::empty()
    } else {
        seq![(x % 256) as u8] + spec_le_bytes(x / 256, (n - 1) as nat)
    }
}

/// The eight little-endian bytes of a 64-bit number.
pub fn u64_le_bytes(x: u64) -> (r: Vec<u8>)
    ensures
        r@ == spec_le_bytes(x as nat, 8),
{
    le_bytes_n(x, 8)
}

/// The four little-endian bytes of a 32-bit number.
pub fn u32_le_bytes(x: u32) -> (r: Vec<u8>)
    ensures
        r@ == spec_le_bytes(x as nat, 4),
{
    le_bytes_n(x as u64, 4)
}

fn le_bytes_n(x: u64, n: usize) -> (r: Vec<u8>)
    ensures
        r@ == spec_le_bytes(x as nat, n as nat),
{
    let mut r: Vec<u8> = Vec::new();
    let mut m: u64 = x;
    let mut i: usize = 0;
    proof {
        assert(Seq::<u8>::empty() + spec_le_bytes(x as nat, n as nat) =~= spec_le_bytes(
            x as nat,
            n as nat,
        ));
    }
    while i < n
        invariant
            i <= n,
            r@.len() == i,
            spec_le_bytes(x as nat, n as nat) == r@ + spec_le_bytes(m as nat, (n - i) as nat),
        decreases n - i,
    {
        let b: u8 = (m % 256) as u8;
        let ghost before = r@;
        r.push(b);
        proof {
            assert(spec_le_bytes(m as nat, (n - i) as nat) == seq![b] + spec_le_bytes(
                (m / 256) as nat,
                (n - i - 1) as nat,
            ));
            assert(before + (seq![b] + spec_le_bytes((m / 256) as nat, (n - i - 1) as nat))
                =~= (before + seq![b]) + spec_le_bytes((m / 256) as nat, (n - i - 1) as nat));
            assert(r@ =~= before + seq![b]);
        }
        m = m / 256;
        i = i + 1;
    }
    proof {
        assert(spec_le_bytes(m as nat, 0) =~= Seq::<u8>::empty());
        assert(r@ + Seq::<u8>::empty() =~= r@);
    }
    r
}

/// The bytes hashed into a derivative's entity tag: the entry's path in
/// UTF-8, the file's size, and — when the modification time is known —
/// its whole seconds and subsecond nanoseconds, each little-endian.
pub open spec fn spec_etag_input(
    path_bytes: Seq<u8>,
    size: u64,
    modified: Option<(u64, u32)>,
) -> Seq<u8> {
    path_bytes + spec_le_bytes(size as nat, 8) + match modified {
        None => Seq::<u8>::empty(),
        Some(m) => spec_le_bytes(m.0 as nat, 8) + spec_le_bytes(m.1 as nat, 4),
    }
}

/// Gathers the bytes that a derivative's entity tag is computed over.
pub fn etag_input(path: &str, size: u64, modified: Option<(u64, u32)>) -> (r: Vec<u8>)
    ensures
        r@ == spec_etag_input(path.spec_bytes(), size, modified),
{
    let mut r = path.as_bytes_vec();
    let mut sz = u64_le_bytes(size);
    r.append(&mut sz);
    match modified {
        None => {
            proof {
                assert(r@ + Seq::<u8>::empty() =~= r@);
            }
        },
        Some((secs, nanos)) => {
            let mut sb = u64_le_bytes(secs);
            let mut nb = u32_le_bytes(nanos);
            r.append(&mut sb);
            r.append(&mut nb);
            proof {
                assert(r@ =~= spec_etag_input(path.spec_bytes(), size, modified));
            }
        },
    }
    r
}

/// The lowercase hex text of the SHA-256 digest of some bytes.
pub uninterp spec fn spec_sha256_hex(data: Seq<u8>) -> Seq<char>;

/// Relies on sha2::Sha256 and the digest value's lowercase hex
/// formatting: the digest is a function of the input bytes alone, and the
/// hex text of the 32-byte digest has 64 characters.
#[verifier::external_body]
fn sha256_hex(data: &Vec<u8>) -> (r: String)
    ensures
        r@ == spec_sha256_hex(data@),
        r@.len() == 64,
{
    let mut hasher = Sha256::new();
    hasher.update(data.as_slice());
    format!("{:x}", hasher.finalize())
}

/// A strong entity tag: the hex digest of the input bytes, in quotes.
pub open spec fn spec_etag_value(input: Seq<u8>) -> Seq<char> {
    seq!['"'] + spec_sha256_hex(input) + seq!['"']
}

/// Computes the quoted entity tag over the gathered input bytes.
pub fn etag_value(input: &Vec<u8>) -> (r: String)
    ensures
        r@ == spec_etag_value(input@),
{
    let mut r = String::from_str("\"");
    let h = sha256_hex(input);
    r.append(h.as_str());
    r.append("\"");
    proof {
        reveal_strlit("\"");
        assert(r@ =~= spec_etag_value(input@));
    }
    r
}

/// The `Last-Modified` text for a time that many seconds after the epoch.
pub uninterp spec fn spec_http_date(secs: u64) -> Seq<char>;

/// Relies on httpdate::fmt_http_date: the IMF-fixdate text is a function
/// of the timestamp alone and is always 29 characters; the call panics
/// from the year 9999 on, so that bound is required here.
#[verifier::external_body]
fn http_date(secs: u64) -> (r: String)
    requires
        secs < 253402300800,
    ensures
        r@ == spec_http_date(secs),
        r@.len() == 29,
{
    httpdate::fmt_http_date(std::time::UNIX_EPOCH + std::time::Duration::from_secs(secs))
}

/// The `Last-Modified` header value for a file's modification time, when
/// one is known and lies before the year 9999; later times get no header
/// rather than a failure.
pub fn last_modified_value(modified_secs: Option<u64>) -> (r: Option<String>)
    ensures
        match modified_secs {
            None => r is None,
            Some(s) => if s < 253402300800 {
                r is Some && r->0@ == spec_http_date(s)
            } else {
                r is None
            },
        },
{
    match modified_secs {
        None => None,
        Some(s) => {
            if s < 253402300800 {
                Some(http_date(s))
            } else {
                None
            }
        },
    }
}

} // verus!
