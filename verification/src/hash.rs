//! Hashes: SHA-256 digests, and their Base58Check text form.
use bitcoin_hashes::Hash as DigestAlgorithm;
use crate::constants::HASH_SIZE_BYTES;
use crate::signature::CryptoError;
use vstd::prelude::*;

verus! {

/// The SHA-256 digest of `data`.
pub uninterp spec fn spec_sha256(data: Seq<u8>) -> Seq<u8>;

/// The Base58Check text (Bitcoin alphabet, four checksum bytes, no version
/// byte) of `data`.
pub uninterp spec fn spec_bs58_check_encode(data: Seq<u8>) -> Seq<char>;

/// The bytes that the Base58Check text `text` stands for, if it is well formed
/// and its checksum is right.
pub uninterp spec fn spec_bs58_check_decode(text: Seq<char>) -> Option<Seq<u8>>;

/// Declares the error of `bs58` decoding, which the library carries as is.
#[verifier::external_type_specification]
#[verifier::external_body]
pub struct ExBs58DecodeError(bs58::decode::Error);

/// Calls `bitcoin_hashes::sha256::Hash::hash` and takes its 32 bytes. Trusted
/// to give the SHA-256 digest of `data`, named `spec_sha256`.
#[verifier::external_body]
fn sha256_digest(data: &[u8]) -> (digest: [u8; 32])
    ensures
        digest@ == spec_sha256(data@),
{
    bitcoin_hashes::sha256::Hash::hash(data).into_inner()
}

/// Calls `bs58::encode(..).with_check().into_string()`. Trusted to give the
/// Base58Check text of `data`, named `spec_bs58_check_encode`, and that this
/// text decodes back to `data` (the round trip that Base58Check is made for).
#[verifier::external_body]
pub(crate) fn bs58_check_encode(data: &[u8]) -> (text: String)
    ensures
        text@ == spec_bs58_check_encode(data@),
        spec_bs58_check_decode(text@) == Some(data@),
{
    bs58::encode(data).with_check().into_string()
}

/// Calls `bs58::decode(..).with_check(None).into_vec()`. Trusted to give the
/// decoded bytes exactly when the text is well formed with a right checksum,
/// as named by `spec_bs58_check_decode`; which error it gives otherwise is not
/// stated.
#[verifier::external_body]
pub(crate) fn bs58_check_decode(text: &str) -> (res: Result<Vec<u8>, bs58::decode::Error>)
    ensures
        match res {
            Ok(data) => spec_bs58_check_decode(text@) == Some(data@),
            Err(_) => spec_bs58_check_decode(text@) is None,
        },
{
    bs58::decode(text).with_check(None).into_vec()
}

/// A 32-byte hash.
#[derive(Clone, Copy, Debug, PartialEq, Eq, PartialOrd, Ord, Hash)]
pub struct Hash([u8; 32]);

impl View for Hash {
    type V = Seq<u8>;

    closed spec fn view(&self) -> Seq<u8> {
        self.0@
    }
}

/// A hash has 32 bytes.
pub broadcast proof fn lemma_hash_len(h: Hash)
    ensures
        #[trigger] h@.len() == HASH_SIZE_BYTES,
{
}

/// A hash is its bytes: two hashes are the same exactly when their bytes are.
pub proof fn lemma_hash_determined_by_bytes(a: Hash, b: Hash)
    ensures
        a@ == b@ <==> a == b,
{
    if a@ == b@ {
        assert(a.0 =~= b.0);
    }
}

impl Hash {
    /// The SHA-256 digest of `data`.
    pub fn compute_from(data: &[u8]) -> (h: Hash)
        ensures
            h@ == spec_sha256(data@),
            h@.len() == HASH_SIZE_BYTES,
    {
        Hash(sha256_digest(data))
    }

    /// The bytes of the hash.
    pub fn to_bytes(&self) -> (bytes: [u8; 32])
        ensures
            bytes@ == self@,
    {
        self.0
    }

    /// The bytes of the hash, consuming it.
    pub fn into_bytes(self) -> (bytes: [u8; 32])
        ensures
            bytes@ == self@,
    {
        self.0
    }

    /// The hash with the given bytes; every 32 bytes are a hash.
    pub fn from_bytes(data: &[u8; 32]) -> (h: Hash)
        ensures
            h@ == data@,
    {
        Hash(*data)
    }

    /// The Base58Check text of the hash.
    pub fn to_bs58_check(&self) -> (text: String)
        ensures
            text@ == spec_bs58_check_encode(self@),
            spec_bs58_check_decode(text@) == Some(self@),
    {
        bs58_check_encode(self.0.as_slice())
    }

    /// The hash that a Base58Check text stands for: a parsing error when the
    /// text is not well formed, its checksum is wrong, or it does not hold
    /// exactly 32 bytes.
    pub fn from_bs58_check(text: &str) -> (res: Result<Hash, CryptoError>)
        ensures
            match res {
                Ok(h) => spec_bs58_check_decode(text@) == Some(h@),
                Err(e) => e == CryptoError::ParsingError && !(spec_bs58_check_decode(
                    text@,
                ) matches Some(d) && d.len() == HASH_SIZE_BYTES),
            },
    {
        Hash::from_decoded_bs58(bs58_check_decode(text))
    }

    /// The hash that the result of Base58Check decoding stands for: the
    /// decoded bytes when there are exactly 32 of them, a parsing error when
    /// decoding failed or gave another number of bytes.
    pub fn from_decoded_bs58(decoded: Result<Vec<u8>, bs58::decode::Error>) -> (res: Result<
        Hash,
        CryptoError,
    >)
        ensures
            match decoded {
                Ok(data) => if data@.len() == HASH_SIZE_BYTES {
                    res matches Ok(h) && h@ == data@
                } else {
                    res == Err::<Hash, CryptoError>(CryptoError::ParsingError)
                },
                Err(_) => res == Err::<Hash, CryptoError>(CryptoError::ParsingError),
            },
    {
        match decoded {
            Ok(data) => {
                if data.len() == HASH_SIZE_BYTES {
                    match crate::serialization::array_from_slice::<32>(data.as_slice()) {
                        Ok(bytes) => {
                            assert(data@.take(32) =~= data@);
                            Ok(Hash(bytes))
                        },
                        Err(_) => Err(CryptoError::ParsingError),
                    }
                } else {
                    Err(CryptoError::ParsingError)
                }
            },
            Err(_) => Err(CryptoError::ParsingError),
        }
    }
}

} // verus!
