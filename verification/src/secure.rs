//! The encryption boundary for persisted history blobs.
//!
//! The history is encoded by the codec and then sealed into an encrypted
//! container; restoring reverses both steps.  The container format is owned
//! by the cocoon crate and is opaque here but for one header field: the
//! declared payload length, which is tested before unsealing so that a
//! corrupt container surfaces as an error, never a panic.

use vstd::prelude::*;

use crate::codec::{
    encode_history, lemma_parse_encode_round_trip, parse_history, spec_encode_history,
    spec_parse_history, wf_history,
};
use crate::item::{Item, ItemModel};

verus! {

/// Names the plain bytes that `cocoon::MiniCocoon::unwrap` recovers from a
/// container, for the codec built by `MiniCocoon::from_password(key, seed)`;
/// `None` when the container is rejected.  Unsealing is deterministic in the
/// key material and the container bytes.
pub uninterp spec fn unwrapped_of(key: Seq<u8>, seed: Seq<u8>, blob: Seq<u8>) -> Option<Seq<u8>>;

/// Names whether `cocoon::MiniCocoon::wrap` produces a container for these
/// plain bytes.  The sealer is built fresh from the password and seed, and
/// its nonce generator is seeded by the seed alone, so the verdict is a
/// function of the three arguments.
pub uninterp spec fn seal_ok(key: Seq<u8>, seed: Seq<u8>, plain: Seq<u8>) -> bool;

/// The payload length a container's header declares: eight big-endian bytes
/// after the twelve-byte nonce.
pub open spec fn spec_declared_len(blob: Seq<u8>) -> int
    recommends
        blob.len() >= 20,
{
    let a = blob[12] * 0x100 + blob[13];
    let b = a * 0x100 + blob[14];
    let c = b * 0x100 + blob[15];
    let d = c * 0x100 + blob[16];
    let e = d * 0x100 + blob[17];
    let f = e * 0x100 + blob[18];
    f * 0x100 + blob[19]
}

/// The container can be offered to the unsealer: either it is shorter than
/// a full header, which the unsealer rejects outright, or its declared
/// payload length fits inside it.  A declared length beyond the container
/// overflows the unsealer's own bound check, so such containers are turned
/// away before the call.
pub open spec fn container_admissible(blob: Seq<u8>) -> bool {
    blob.len() < 36 || spec_declared_len(blob) <= blob.len() - 36
}

/// Relies on cocoon::MiniCocoon::from_password and MiniCocoon::wrap: a
/// container produced by wrap declares its payload's length and is recovered
/// exactly by unwrap under the same password and seed (the seed both salts
/// the key derivation and seeds the nonce generator, so the same pair must
/// be supplied to unseal); whether wrap succeeds is deterministic in the
/// password, the seed and the plain bytes.
#[verifier::external_body]
fn encrypt_blob(key: &Vec<u8>, seed: &Vec<u8>, plain: &Vec<u8>) -> (r: Option<Vec<u8>>)
    requires
        seed@.len() == 32,
    ensures
        (r is Some) == seal_ok(key@, seed@, plain@),
        r matches Some(blob) ==> unwrapped_of(key@, seed@, blob@) == Some(plain@)
            && container_admissible(blob@),
{
    let mut sealer = cocoon::MiniCocoon::from_password(key, seed);
    match sealer.wrap(plain) {
        Ok(v) => Some(v),
        Err(_) => None,
    }
}

/// Relies on cocoon::MiniCocoon::from_password and MiniCocoon::unwrap:
/// unsealing is deterministic in the key material and the container, and
/// rejects containers that were not sealed under the same password and seed.
/// The admissibility `requires` keeps out the one input family on which
/// unwrap does not return: a container whose declared payload length
/// overflows the bound check.
#[verifier::external_body]
fn decrypt_blob(key: &Vec<u8>, seed: &Vec<u8>, blob: &Vec<u8>) -> (r: Option<Vec<u8>>)
    requires
        seed@.len() == 32,
        container_admissible(blob@),
    ensures
        (r is Some) == (unwrapped_of(key@, seed@, blob@) is Some),
        r matches Some(plain) ==> unwrapped_of(key@, seed@, blob@) == Some(plain@),
{
    let sealer = cocoon::MiniCocoon::from_password(key, seed);
    match sealer.unwrap(blob) {
        Ok(v) => Some(v),
        Err(_) => None,
    }
}

/// Decides whether a container may be offered to the unsealer.
fn check_container(blob: &Vec<u8>) -> (r: bool)
    ensures
        r == container_admissible(blob@),
{
    if blob.len() < 36 {
        return true;
    }
    let a: u64 = (blob[12] as u64) * 0x100 + blob[13] as u64;
    let b: u64 = a * 0x100 + blob[14] as u64;
    let c: u64 = b * 0x100 + blob[15] as u64;
    let d: u64 = c * 0x100 + blob[16] as u64;
    let e: u64 = d * 0x100 + blob[17] as u64;
    let f: u64 = e * 0x100 + blob[18] as u64;
    let declared: u64 = f * 0x100 + blob[19] as u64;
    declared <= (blob.len() - 36) as u64
}

/// What a persisted container restores to: the decoded entries of the bytes
/// it unseals to, or nothing when unsealing or parsing rejects it.
pub open spec fn spec_restore_blob(key: Seq<u8>, seed: Seq<u8>, blob: Seq<u8>) -> Option<
    Seq<ItemModel>,
> {
    match unwrapped_of(key, seed, blob) {
        Some(p) => spec_parse_history(p),
        None => None,
    }
}

/// Encodes and seals the history for persistence.  A container comes back
/// exactly when the sealer accepts the encoded bytes, and it unseals to
/// exactly the codec's encoding of this history, so it restores to this
/// history.
pub fn persist_history(hist: &Vec<Item>, key: &Vec<u8>, seed: &Vec<u8>) -> (r: Option<Vec<u8>>)
    requires
        seed@.len() == 32,
    ensures
        (r is Some) == seal_ok(key@, seed@, spec_encode_history(hist.deep_view())),
        r matches Some(blob) ==> container_admissible(blob@) && unwrapped_of(key@, seed@, blob@)
            == Some(spec_encode_history(hist.deep_view())) && spec_restore_blob(
            key@,
            seed@,
            blob@,
        ) == Some(hist.deep_view()),
{
    let encoded = encode_history(hist);
    proof {
        lemma_parse_encode_round_trip(hist.deep_view());
    }
    encrypt_blob(key, seed, &encoded)
}

/// Unseals and parses a persisted container: exactly the entries the
/// container encodes, or nothing when the container is inadmissible, the
/// key material is wrong, the container is corrupt, or the bytes do not
/// parse.
pub fn restore_history(blob: &Vec<u8>, key: &Vec<u8>, seed: &Vec<u8>) -> (r: Option<Vec<Item>>)
    requires
        seed@.len() == 32,
    ensures
        (r is Some) == (container_admissible(blob@) && spec_restore_blob(key@, seed@, blob@)
            is Some),
        r matches Some(v) ==> spec_restore_blob(key@, seed@, blob@) == Some(v.deep_view()),
{
    if !check_container(blob) {
        return None;
    }
    match decrypt_blob(key, seed, blob) {
        Some(plain) => parse_history(&plain),
        None => None,
    }
}

/// Round-trip persistence: a container that unseals to the encoding of a
/// history restores to exactly that history.
pub proof fn lemma_persist_round_trip(
    key: Seq<u8>,
    seed: Seq<u8>,
    blob: Seq<u8>,
    h: Seq<ItemModel>,
)
    requires
        wf_history(h),
        unwrapped_of(key, seed, blob) == Some(spec_encode_history(h)),
    ensures
        spec_restore_blob(key, seed, blob) == Some(h),
{
    lemma_parse_encode_round_trip(h);
}

/// The key material the sealer is built from: the configured key when it is
/// present and non-empty, else the machine identifier.
pub fn resolve_key(key: Option<String>, machine_id: String) -> (r: String)
    ensures
        r@ == match key {
            Some(k) => if k@.len() == 0 {
                machine_id@
            } else {
                k@
            },
            None => machine_id@,
        },
{
    match key {
        Some(k) => {
            if k.as_str().is_empty() {
                machine_id
            } else {
                k
            }
        },
        None => machine_id,
    }
}

} // verus!
