use vstd::prelude::*;
use ed25519_dalek::Signer;
use crate::error::SigningError;

verus! {

/// The bytes that a base58 text (Bitcoin alphabet) stands for, if it is one.
pub uninterp spec fn base58_decoded(s: Seq<char>) -> Option<Seq<u8>>;

/// Whether 64 bytes are an Ed25519 secret key followed by its own public key.
pub uninterp spec fn keypair_is_valid(keypair: Seq<u8>) -> bool;

/// The Ed25519 signature of `msg` under the 32-byte secret key `secret`.
pub uninterp spec fn ed25519_signature(secret: Seq<u8>, msg: Seq<u8>) -> Seq<u8>;

/// Relies on bs58::decode(..).into_vec: the decoded bytes, or an error when
/// the text holds a character outside the alphabet.
#[verifier::external_body]
fn base58_decode(s: &str) -> (r: Option<Vec<u8>>)
    ensures
        r is None <==> base58_decoded(s@) is None,
        r matches Some(v) ==> base58_decoded(s@) == Some(v@),
{
    bs58::decode(s).into_vec().ok()
}

/// Relies on ed25519_dalek::SigningKey::from_keypair_bytes, which accepts the
/// bytes exactly when they hold a secret key and the public key derived from it.
#[verifier::external_body]
fn keypair_accepted(keypair: &[u8; 64]) -> (r: bool)
    ensures
        r == keypair_is_valid(keypair@),
{
    ed25519_dalek::SigningKey::from_keypair_bytes(keypair).is_ok()
}

/// Relies on ed25519_dalek::SigningKey::from_bytes and its `Signer::sign`:
/// deterministic Ed25519, a 64-byte signature fixed by the secret and message.
#[verifier::external_body]
fn ed25519_sign(secret: &[u8; 32], msg: &Vec<u8>) -> (r: Vec<u8>)
    ensures
        r@ == ed25519_signature(secret@, msg@),
        r@.len() == 64,
{
    ed25519_dalek::SigningKey::from_bytes(secret).sign(msg.as_slice()).to_bytes().to_vec()
}

/// The secret half of a validated Ed25519 key pair. It is neither cloned nor
/// printed, and lives as long as the engine that owns it.
pub struct SigningKeyMaterial {
    secret: [u8; 32],
}

impl View for SigningKeyMaterial {
    type V = Seq<u8>;

    closed spec fn view(&self) -> Seq<u8> {
        self.secret@
    }
}

/// The key material that `encoded` yields: the base58 text must decode to 64
/// bytes that form a valid key pair; the first 32 are the secret.
pub open spec fn decoded_secret(encoded: Seq<char>) -> Option<Seq<u8>> {
    match base58_decoded(encoded) {
        Some(b) => if b.len() == 64 && keypair_is_valid(b) {
            Some(b.subrange(0, 32))
        } else {
            None
        },
        None => None,
    }
}

/// Decodes the configured base58 key pair; any defect is `KeyUnavailable`.
pub fn load_signing_key(encoded: &str) -> (r: Result<SigningKeyMaterial, SigningError>)
    ensures
        r is Ok <==> decoded_secret(encoded@) is Some,
        r matches Ok(k) ==> decoded_secret(encoded@) == Some(k@),
        r matches Err(e) ==> e == SigningError::KeyUnavailable,
{
    let bytes = match base58_decode(encoded) {
        None => return Err(SigningError::KeyUnavailable),
        Some(b) => b,
    };
    if bytes.len() != 64 {
        return Err(SigningError::KeyUnavailable);
    }
    let mut keypair: [u8; 64] = [0u8; 64];
    let mut i: usize = 0;
    while i < 64
        invariant
            bytes@.len() == 64,
            keypair@.len() == 64,
            i <= 64,
            forall|j: int| 0 <= j < i ==> keypair@[j] == bytes@[j],
        decreases 64 - i,
    {
        keypair[i] = bytes[i];
        i = i + 1;
    }
    assert(keypair@ =~= bytes@);
    if !keypair_accepted(&keypair) {
        return Err(SigningError::KeyUnavailable);
    }
    let mut secret: [u8; 32] = [0u8; 32];
    let mut i: usize = 0;
    while i < 32
        invariant
            bytes@.len() == 64,
            secret@.len() == 32,
            i <= 32,
            forall|j: int| 0 <= j < i ==> secret@[j] == bytes@[j],
        decreases 32 - i,
    {
        secret[i] = bytes[i];
        i = i + 1;
    }
    assert(secret@ =~= bytes@.subrange(0, 32));
    Ok(SigningKeyMaterial { secret })
}

impl SigningKeyMaterial {
    /// Signs `msg` with the secret key.
    pub fn sign(&self, msg: &Vec<u8>) -> (r: Vec<u8>)
        ensures
            r@ == ed25519_signature(self@, msg@),
            r@.len() == 64,
    {
        ed25519_sign(&self.secret, msg)
    }
}

} // verus!
