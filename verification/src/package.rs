//! Cell package metadata: the content digest of `cell.yaml` names an immutable
//! revision.

use vstd::prelude::*;

use crate::manifest::cell::{CellManifest, RuntimeKind};
use crate::text::{owned, string_of};

use sha2::Digest;

verus! {

/// Name, version, digest, runtime and source of a packaged Cell.
#[derive(Debug, Clone)]
pub struct CellPackageMeta {
    pub name: String,
    pub version: String,
    pub digest: String,
    pub runtime: RuntimeKind,
    pub source: String,
}

/// The SHA-256 digest of `bytes`.
pub uninterp spec fn sha256_of(bytes: Seq<u8>) -> Seq<u8>;

/// SHA-256 of `bytes` (sha2 `Sha256::digest`): 32 bytes.
#[verifier::external_body]
fn sha256_digest(bytes: &[u8]) -> (r: Vec<u8>)
    ensures
        r@ == sha256_of(bytes@),
        r@.len() == 32,
{
    sha2::Sha256::digest(bytes).to_vec()
}

/// The lower-case hex digit for `d < 16`.
pub open spec fn hex_digit(d: nat) -> char {
    if d < 10 {
        ((d + 48) as u32) as char
    } else {
        ((d + 87) as u32) as char
    }
}

/// Two lower-case hex digits per byte, in order.
pub open spec fn hex_lower(bytes: Seq<u8>) -> Seq<char>
    decreases bytes.len(),
{
    if bytes.len() == 0 {
        Seq::empty()
    } else {
        hex_lower(bytes.drop_last()).push(hex_digit((bytes.last() / 16) as nat)).push(
            hex_digit((bytes.last() % 16) as nat),
        )
    }
}

fn hex_char(d: u8) -> (r: char)
    requires
        d < 16,
    ensures
        r == hex_digit(d as nat),
{
    if d < 10 {
        crate::text::char_of_ascii((d + 48) as u32)
    } else {
        crate::text::char_of_ascii((d + 87) as u32)
    }
}

/// Lower-case hex of `bytes`, two digits per byte.
pub fn hex_text(bytes: &[u8]) -> (r: String)
    ensures
        r@ == hex_lower(bytes@),
{
    let mut out: Vec<char> = Vec::new();
    let mut i: usize = 0;
    while i < bytes.len()
        invariant
            i <= bytes@.len(),
            out@ == hex_lower(bytes@.take(i as int)),
        decreases bytes@.len() - i,
    {
        let b = bytes[i];
        out.push(hex_char(b / 16));
        out.push(hex_char(b % 16));
        proof {
            let t = bytes@.take(i + 1);
            assert(t.drop_last() =~= bytes@.take(i as int));
            assert(t.last() == b);
        }
        i = i + 1;
    }
    assert(bytes@.take(bytes@.len() as int) =~= bytes@);
    string_of(out.as_slice())
}

/// Lower-case hex SHA-256 of `bytes`.
pub fn sha256_hex(bytes: &[u8]) -> (r: String)
    ensures
        r@ == hex_lower(sha256_of(bytes@)),
        r@.len() == 64,
{
    let d = sha256_digest(bytes);
    proof {
        hex_length(d@);
    }
    hex_text(d.as_slice())
}

/// Package metadata for `manifest` whose file held `yaml_bytes`, read from `source`.
pub fn package_from_manifest(manifest: &CellManifest, yaml_bytes: &[u8], source: &str) -> (r: CellPackageMeta)
    ensures
        r.name@ == manifest.metadata.name@,
        r.version@ == manifest.metadata.version@,
        r.digest@ == "sha256:"@ + hex_lower(sha256_of(yaml_bytes@)),
        r.digest@.len() == 71,
        r.runtime == manifest.spec.runtime.kind,
        r.source@ == source@,
{
    let hex = sha256_hex(yaml_bytes);
    proof {
        reveal_strlit("sha256:");
    }
    CellPackageMeta {
        name: manifest.metadata.name.clone(),
        version: manifest.metadata.version.clone(),
        digest: crate::text::join2("sha256:", hex.as_str()),
        runtime: manifest.spec.runtime.kind,
        source: owned(source),
    }
}

/// A digest is written as 64 hex digits.
pub proof fn hex_length(bytes: Seq<u8>)
    ensures
        hex_lower(bytes).len() == 2 * bytes.len(),
    decreases bytes.len(),
{
    if bytes.len() > 0 {
        hex_length(bytes.drop_last());
    }
}

} // verus!
