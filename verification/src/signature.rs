//! secp256k1 public keys and signatures, held as their bytes.
use crate::hash::{bs58_check_encode, spec_bs58_check_decode, spec_bs58_check_encode};
use crate::constants::{PUBLIC_KEY_SIZE_BYTES, SIGNATURE_SIZE_BYTES};
use vstd::prelude::*;

verus! {

/// Whether secp256k1 accepts `bytes` as a serialized public key.
pub uninterp spec fn spec_is_public_key(bytes: Seq<u8>) -> bool;

/// Whether secp256k1 accepts `bytes` as a compact ECDSA signature.
pub uninterp spec fn spec_is_signature(bytes: Seq<u8>) -> bool;

/// Whether the ECDSA signature `signature` of the 32-byte message `hash` is
/// right for `public_key`.
pub uninterp spec fn spec_signature_verifies(
    hash: Seq<u8>,
    signature: Seq<u8>,
    public_key: Seq<u8>,
) -> bool;

/// Why a key or a signature was refused.
#[derive(Debug, Clone, Copy, PartialEq, Eq, Structural)]
pub enum CryptoError {
    /// The bytes are not a key or a signature.
    ParsingError,
    /// The signature is not right for the message and the key.
    SignatureError,
}

/// Calls `secp256k1::PublicKey::from_slice`. Trusted to accept exactly the
/// bytes named by `spec_is_public_key`.
#[verifier::external_body]
fn secp256k1_parse_public_key(bytes: &[u8; 33]) -> (ok: bool)
    ensures
        ok == spec_is_public_key(bytes@),
{
    secp256k1::PublicKey::from_slice(bytes).is_ok()
}

/// Calls `secp256k1::Signature::from_compact`. Trusted to accept exactly the
/// bytes named by `spec_is_signature`.
#[verifier::external_body]
fn secp256k1_parse_signature(bytes: &[u8; 64]) -> (ok: bool)
    ensures
        ok == spec_is_signature(bytes@),
{
    secp256k1::Signature::from_compact(bytes).is_ok()
}

/// Calls `secp256k1::Secp256k1::verify` on the message, signature and key
/// parsed from their bytes. Trusted to answer as `spec_signature_verifies`
/// names; the key and the signature parse, as the `requires` states.
#[verifier::external_body]
fn secp256k1_verify(hash: &[u8; 32], signature: &[u8; 64], public_key: &[u8; 33]) -> (ok: bool)
    requires
        spec_is_public_key(public_key@),
        spec_is_signature(signature@),
    ensures
        ok == spec_signature_verifies(hash@, signature@, public_key@),
{
    let secp = secp256k1::Secp256k1::verification_only();
    match (
        secp256k1::Message::from_slice(hash),
        secp256k1::Signature::from_compact(signature),
        secp256k1::PublicKey::from_slice(public_key),
    ) {
        (Ok(m), Ok(s), Ok(k)) => secp.verify(&m, &s, &k).is_ok(),
        _ => false,
    }
}

/// A secp256k1 public key, held as its 33 compressed bytes.
#[derive(Clone, Copy, Debug, PartialEq, Eq, PartialOrd, Ord, Hash)]
pub struct PublicKey {
    bytes: [u8; 33],
}

impl View for PublicKey {
    type V = Seq<u8>;

    closed spec fn view(&self) -> Seq<u8> {
        self.bytes@
    }
}

/// A public key has 33 bytes.
pub broadcast proof fn lemma_public_key_len(pk: PublicKey)
    ensures
        #[trigger] pk@.len() == PUBLIC_KEY_SIZE_BYTES,
{
}

/// A public key is its bytes: two keys are the same exactly when their bytes
/// are.
pub proof fn lemma_public_key_determined_by_bytes(a: PublicKey, b: PublicKey)
    ensures
        a@ == b@ <==> a == b,
{
    if a@ == b@ {
        assert(a.bytes =~= b.bytes);
    }
}

impl PublicKey {
    /// The bytes of a public key are accepted by secp256k1.
    #[verifier::type_invariant]
    closed spec fn parses(self) -> bool {
        spec_is_public_key(self.bytes@)
    }

    /// The public key with the given bytes, if secp256k1 accepts them.
    pub fn from_bytes(data: &[u8; 33]) -> (res: Result<PublicKey, CryptoError>)
        ensures
            match res {
                Ok(pk) => pk@ == data@ && spec_is_public_key(data@),
                Err(e) => e == CryptoError::ParsingError && !spec_is_public_key(data@),
            },
    {
        if secp256k1_parse_public_key(data) {
            Ok(PublicKey { bytes: *data })
        } else {
            Err(CryptoError::ParsingError)
        }
    }

    /// The bytes of the public key, which secp256k1 accepts.
    pub fn to_bytes(&self) -> (bytes: [u8; 33])
        ensures
            bytes@ == self@,
            spec_is_public_key(bytes@),
    {
        proof {
            use_type_invariant(self);
        }
        self.bytes
    }

    /// The Base58Check text of the public key's bytes.
    pub fn to_bs58_check(&self) -> (text: String)
        ensures
            text@ == spec_bs58_check_encode(self@),
            spec_bs58_check_decode(text@) == Some(self@),
    {
        bs58_check_encode(self.bytes.as_slice())
    }
}

/// A secp256k1 ECDSA signature, held as its 64 compact bytes.
#[derive(Clone, Copy, Debug, PartialEq, Eq)]
pub struct Signature {
    bytes: [u8; 64],
}

impl View for Signature {
    type V = Seq<u8>;

    closed spec fn view(&self) -> Seq<u8> {
        self.bytes@
    }
}

/// A signature has 64 bytes.
pub broadcast proof fn lemma_signature_len(sig: Signature)
    ensures
        #[trigger] sig@.len() == SIGNATURE_SIZE_BYTES,
{
}

/// A signature is its bytes: two signatures are the same exactly when their
/// bytes are.
pub proof fn lemma_signature_determined_by_bytes(a: Signature, b: Signature)
    ensures
        a@ == b@ <==> a == b,
{
    if a@ == b@ {
        assert(a.bytes =~= b.bytes);
    }
}

impl Signature {
    /// The bytes of a signature are accepted by secp256k1.
    #[verifier::type_invariant]
    closed spec fn parses(self) -> bool {
        spec_is_signature(self.bytes@)
    }

    /// The signature with the given bytes, if secp256k1 accepts them.
    pub fn from_bytes(data: &[u8; 64]) -> (res: Result<Signature, CryptoError>)
        ensures
            match res {
                Ok(sig) => sig@ == data@ && spec_is_signature(data@),
                Err(e) => e == CryptoError::ParsingError && !spec_is_signature(data@),
            },
    {
        if secp256k1_parse_signature(data) {
            Ok(Signature { bytes: *data })
        } else {
            Err(CryptoError::ParsingError)
        }
    }

    /// The bytes of the signature, which secp256k1 accepts.
    pub fn to_bytes(&self) -> (bytes: [u8; 64])
        ensures
            bytes@ == self@,
            spec_is_signature(bytes@),
    {
        proof {
            use_type_invariant(self);
        }
        self.bytes
    }
}

/// Checks that `signature` is a right signature of `hash` by `public_key`.
pub fn verify_signature(hash: &crate::hash::Hash, signature: &Signature, public_key: &PublicKey) -> (res: Result<
    (),
    CryptoError,
>)
    ensures
        res is Ok <==> spec_signature_verifies(hash@, signature@, public_key@),
        res is Err ==> res == Err::<(), CryptoError>(CryptoError::SignatureError),
{
    proof {
        use_type_invariant(signature);
        use_type_invariant(public_key);
    }
    let h = hash.to_bytes();
    if secp256k1_verify(&h, &signature.bytes, &public_key.bytes) {
        Ok(())
    } else {
        Err(CryptoError::SignatureError)
    }
}

} // verus!
