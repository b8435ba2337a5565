use vstd::prelude::*;
use crate::conversion::{conversion, convert, PriceData};
use crate::error::SigningError;
use crate::message::{addresses_fit, asset_digest, canonicalize};
use crate::nonce::{allocation, candidate_of, NonceAllocator};
use crate::signing::{ed25519_signature, SigningKeyMaterial};

verus! {

/// A request to sign the redemption of `amount` raw units of a token.
#[derive(Clone, Debug)]
pub struct SigningRequest {
    pub user_address: String,
    pub token_address: String,
    pub amount: u128,
}

/// A request that passed conversion: its settlement amount and the nonce that
/// must be durably recorded before the attestation is produced.
#[derive(Clone, Copy, Debug, PartialEq, Eq, Structural)]
pub struct PendingSignature {
    pub nonce: u64,
    pub settlement_amount: u128,
}

/// The signed answer to a request.
#[derive(Clone, Debug)]
pub struct SignedAttestation {
    pub nonce: u64,
    pub settlement_amount: u128,
    pub signature: Vec<u8>,
}

/// The first step of a request: conversion first, and a nonce candidate only
/// when conversion succeeded.
pub open spec fn pending_for(settled: Result<u128, SigningError>, last_nonce: u64) -> Result<
    PendingSignature,
    SigningError,
> {
    match settled {
        Err(e) => Err(e),
        Ok(s) => match candidate_of(last_nonce) {
            Err(e) => Err(e),
            Ok(n) => Ok(PendingSignature { nonce: n, settlement_amount: s }),
        },
    }
}

/// The signature bytes that bind `secret` to this request, nonce and amount.
pub open spec fn attestation_signature(
    secret: Seq<u8>,
    request: SigningRequest,
    pending: PendingSignature,
) -> Seq<u8> {
    ed25519_signature(
        secret,
        asset_digest(
            pending.nonce,
            request.token_address@,
            request.amount,
            pending.settlement_amount,
            request.user_address@,
        ),
    )
}

/// The signing key and the nonce counter: the component that callers invoke.
/// A request runs `begin_signature`, the durable write of the pending nonce,
/// then `complete_signature`, with the engine held exclusively from the
/// first step to the last.
pub struct SigningEngine {
    key: SigningKeyMaterial,
    nonces: NonceAllocator,
}

impl SigningEngine {
    pub closed spec fn secret(&self) -> Seq<u8> {
        self.key@
    }

    pub closed spec fn last_nonce(&self) -> u64 {
        self.nonces@
    }

    pub fn new(key: SigningKeyMaterial, nonces: NonceAllocator) -> (r: Self)
        ensures
            r.secret() == key@,
            r.last_nonce() == nonces@,
    {
        SigningEngine { key, nonces }
    }

    /// The highest nonce issued so far.
    pub fn last_issued_nonce(&self) -> (r: u64)
        ensures
            r == self.last_nonce(),
    {
        self.nonces.last_issued()
    }

    /// Converts the request's amount under `quote`, the stored quote of its
    /// token, and only then picks the nonce to persist. Nothing changes here,
    /// so a request that fails conversion never consumes a nonce.
    pub fn begin_signature(&self, request: &SigningRequest, quote: &Option<PriceData>) -> (r: Result<
        PendingSignature,
        SigningError,
    >)
        ensures
            r == pending_for(conversion(*quote, request.amount), self.last_nonce()),
    {
        let settlement_amount = match convert(quote, request.amount) {
            Err(e) => return Err(e),
            Ok(s) => s,
        };
        match self.nonces.next_candidate() {
            Err(e) => Err(e),
            Ok(nonce) => Ok(PendingSignature { nonce, settlement_amount }),
        }
    }

    /// Finishes a request once the durable write of `pending.nonce` has been
    /// attempted (`persisted`: it succeeded). On success the nonce is issued
    /// and the digest of the request's fields is signed; on failure the
    /// counter stays as it was and the caller may retry the whole request.
    pub fn complete_signature(
        &mut self,
        request: &SigningRequest,
        pending: PendingSignature,
        persisted: bool,
    ) -> (r: Result<SignedAttestation, SigningError>)
        requires
            candidate_of(old(self).last_nonce()) == Ok::<u64, SigningError>(pending.nonce),
            addresses_fit(request.token_address@, request.user_address@),
        ensures
            final(self).secret() == old(self).secret(),
            final(self).last_nonce() == allocation(old(self).last_nonce(), persisted).0,
            r is Ok <==> persisted,
            !persisted ==> r == Err::<SignedAttestation, SigningError>(
                SigningError::DurableStoreUnavailable,
            ),
            r matches Ok(a) ==> a.nonce == pending.nonce && a.settlement_amount
                == pending.settlement_amount && a.signature@ == attestation_signature(
                old(self).secret(),
                *request,
                pending,
            ),
    {
        let nonce = match self.nonces.commit(persisted) {
            Err(e) => return Err(e),
            Ok(n) => n,
        };
        let digest = canonicalize(
            nonce,
            &request.token_address,
            request.amount,
            pending.settlement_amount,
            &request.user_address,
        );
        let signature = self.key.sign(&digest);
        Ok(SignedAttestation { nonce, settlement_amount: pending.settlement_amount, signature })
    }
}

/// A request whose conversion fails ends at the first step with that same
/// error, before any nonce is picked: the counter is left untouched.
pub proof fn lemma_failed_conversion_spends_no_nonce(
    quote: Option<PriceData>,
    amount: u128,
    last_nonce: u64,
)
    requires
        conversion(quote, amount) is Err,
    ensures
        pending_for(conversion(quote, amount), last_nonce) == Err::<PendingSignature, SigningError>(
            conversion(quote, amount)->Err_0,
        ),
{
}

} // verus!
