//! Endorsements: a node's signed statement that a block is good, with their
//! compact binary form and their identifiers.
use crate::block::BlockId;
use crate::constants::{
    ENDORSEMENT_ID_SIZE_BYTES,
    HASH_SIZE_BYTES,
    PUBLIC_KEY_SIZE_BYTES,
    SIGNATURE_SIZE_BYTES,
};
use crate::hash::{spec_bs58_check_decode, spec_bs58_check_encode, spec_sha256};
use crate::serialization::{array_from_slice, extend_bytes, tail, ModelsError, SerializationContext};
use crate::signature::{
    spec_is_public_key,
    spec_is_signature,
    spec_signature_verifies,
    verify_signature,
    CryptoError,
    PublicKey,
    Signature,
};
use crate::slot::{spec_parse_slot, spec_slot_bytes, Slot};
use crate::varint::{spec_decode_u32, spec_encode_varint, u32_from_varint_bytes, u32_to_varint_bytes};
use vstd::prelude::*;

verus! {

broadcast use {
    crate::hash::lemma_hash_len,
    crate::block::lemma_block_id_len,
    crate::signature::lemma_public_key_len,
    crate::signature::lemma_signature_len,
};

/// An endorsement identifier: the hash of the endorsement's compact form.
#[derive(Clone, Copy, Debug, PartialEq, Eq, PartialOrd, Ord, Hash)]
pub struct EndorsementId(crate::hash::Hash);

impl View for EndorsementId {
    type V = Seq<u8>;

    closed spec fn view(&self) -> Seq<u8> {
        self.0@
    }
}

/// An endorsement identifier has 32 bytes.
pub broadcast proof fn lemma_endorsement_id_len(id: EndorsementId)
    ensures
        #[trigger] id@.len() == ENDORSEMENT_ID_SIZE_BYTES,
{
}

/// An endorsement identifier is its bytes: two identifiers are the same
/// exactly when the bytes that `to_bytes` gives of them are.
pub proof fn lemma_endorsement_id_determined_by_bytes(a: EndorsementId, b: EndorsementId)
    ensures
        a@ == b@ <==> a == b,
{
    crate::hash::lemma_hash_determined_by_bytes(a.0, b.0);
}

impl EndorsementId {
    /// The bytes of the identifier.
    pub fn to_bytes(&self) -> (bytes: [u8; 32])
        ensures
            bytes@ == self@,
    {
        self.0.to_bytes()
    }

    /// The bytes of the identifier, consuming it.
    pub fn into_bytes(self) -> (bytes: [u8; 32])
        ensures
            bytes@ == self@,
    {
        self.0.into_bytes()
    }

    /// The identifier with the given bytes; every 32 bytes are one.
    pub fn from_bytes(data: &[u8; 32]) -> (res: Result<EndorsementId, ModelsError>)
        ensures
            res matches Ok(id) && id@ == data@,
    {
        Ok(EndorsementId(crate::hash::Hash::from_bytes(data)))
    }

    /// The identifier that a Base58Check text stands for; `HashError` when the
    /// text is not well formed, its checksum is wrong, or it does not hold 32
    /// bytes.
    pub fn from_bs58_check(data: &str) -> (res: Result<EndorsementId, ModelsError>)
        ensures
            match res {
                Ok(id) => spec_bs58_check_decode(data@) == Some(id@),
                Err(e) => e == ModelsError::HashError && !(spec_bs58_check_decode(
                    data@,
                ) matches Some(d) && d.len() == ENDORSEMENT_ID_SIZE_BYTES),
            },
    {
        match crate::hash::Hash::from_bs58_check(data) {
            Ok(h) => Ok(EndorsementId(h)),
            Err(_) => Err(ModelsError::HashError),
        }
    }

    /// Parses the text form of an identifier, as `from_bs58_check` does, but
    /// refuses a wrong text as a key parsing error.
    pub fn parse_str(s: &str) -> (res: Result<EndorsementId, ModelsError>)
        ensures
            match res {
                Ok(id) => spec_bs58_check_decode(s@) == Some(id@),
                Err(e) => e == ModelsError::CryptoError(CryptoError::ParsingError) && !(
                spec_bs58_check_decode(s@) matches Some(d) && d.len() == ENDORSEMENT_ID_SIZE_BYTES),
            },
    {
        match crate::hash::Hash::from_bs58_check(s) {
            Ok(h) => Ok(EndorsementId(h)),
            Err(e) => Err(ModelsError::CryptoError(e)),
        }
    }

    /// The text form of the identifier: the Base58Check text of its bytes,
    /// which reads back as the same bytes.
    pub fn to_string(&self) -> (text: String)
        ensures
            text@ == spec_bs58_check_encode(self@),
            spec_bs58_check_decode(text@) == Some(self@),
    {
        self.0.to_bs58_check()
    }
}

impl std::str::FromStr for EndorsementId {
    type Err = ModelsError;

    fn from_str(s: &str) -> (res: Result<EndorsementId, ModelsError>)
        ensures
            match res {
                Ok(id) => spec_bs58_check_decode(s@) == Some(id@),
                Err(e) => e == ModelsError::CryptoError(CryptoError::ParsingError) && !(
                spec_bs58_check_decode(s@) matches Some(d) && d.len() == ENDORSEMENT_ID_SIZE_BYTES),
            },
    {
        EndorsementId::parse_str(s)
    }
}

/// What an endorsement states, before it is signed.
#[derive(Debug, Clone, Copy)]
pub struct EndorsementContent {
    /// Public key of the endorser.
    pub sender_public_key: PublicKey,
    /// Slot of the endorsed block.
    pub slot: Slot,
    /// Index of the endorsement inside the block.
    pub index: u32,
    /// Identifier of the endorsed block.
    pub endorsed_block: BlockId,
}

/// The content of an endorsement, with keys and identifiers as their bytes.
pub struct EndorsementContentView {
    pub sender_public_key: Seq<u8>,
    pub slot: Slot,
    pub index: u32,
    pub endorsed_block: Seq<u8>,
}

impl View for EndorsementContent {
    type V = EndorsementContentView;

    open spec fn view(&self) -> EndorsementContentView {
        EndorsementContentView {
            sender_public_key: self.sender_public_key@,
            slot: self.slot,
            index: self.index,
            endorsed_block: self.endorsed_block@,
        }
    }
}

/// A signed endorsement.
#[derive(Debug, Clone, Copy)]
pub struct Endorsement {
    pub content: EndorsementContent,
    pub signature: Signature,
}

/// A signed endorsement, with its signature as bytes.
pub struct EndorsementView {
    pub content: EndorsementContentView,
    pub signature: Seq<u8>,
}

impl View for Endorsement {
    type V = EndorsementView;

    open spec fn view(&self) -> EndorsementView {
        EndorsementView { content: self.content@, signature: self.signature@ }
    }
}

/// The compact form of an endorsement's content: the sender's public key, the
/// slot, the index as a variable-length integer, the endorsed block's
/// identifier.
pub open spec fn spec_content_bytes(c: EndorsementContentView) -> Seq<u8> {
    c.sender_public_key + spec_slot_bytes(c.slot) + spec_encode_varint(c.index as nat)
        + c.endorsed_block
}

/// The compact form of an endorsement: its content's, then the signature.
pub open spec fn spec_endorsement_bytes(e: EndorsementView) -> Seq<u8> {
    spec_content_bytes(e.content) + e.signature
}

/// Reading an endorsement's content from the front of `s` when blocks have
/// `parent_count` threads: the content and the number of bytes read.
pub open spec fn spec_parse_content(s: Seq<u8>, parent_count: u8) -> Result<
    (EndorsementContentView, nat),
    ModelsError,
> {
    if s.len() < PUBLIC_KEY_SIZE_BYTES {
        Err(ModelsError::BufferError)
    } else if !spec_is_public_key(s.take(PUBLIC_KEY_SIZE_BYTES as int)) {
        Err(ModelsError::CryptoError(CryptoError::ParsingError))
    } else {
        match spec_parse_slot(s.skip(PUBLIC_KEY_SIZE_BYTES as int), parent_count) {
            Err(e) => Err(e),
            Ok((slot, n1)) => {
                let c1: nat = PUBLIC_KEY_SIZE_BYTES as nat + n1;
                match spec_decode_u32(s.skip(c1 as int)) {
                    Err(e) => Err(ModelsError::VarIntError(e)),
                    Ok((index, n2)) => {
                        let c2: nat = c1 + n2;
                        if s.len() < c2 + HASH_SIZE_BYTES {
                            Err(ModelsError::BufferError)
                        } else {
                            Ok(
                                (
                                    EndorsementContentView {
                                        sender_public_key: s.take(PUBLIC_KEY_SIZE_BYTES as int),
                                        slot: slot,
                                        index: index as u32,
                                        endorsed_block: s.subrange(
                                            c2 as int,
                                            c2 + HASH_SIZE_BYTES as int,
                                        ),
                                    },
                                    c2 + HASH_SIZE_BYTES as nat,
                                ),
                            )
                        }
                    },
                }
            },
        }
    }
}

/// Reading an endorsement from the front of `s` when blocks have
/// `parent_count` threads: the endorsement and the number of bytes read.
pub open spec fn spec_parse_endorsement(s: Seq<u8>, parent_count: u8) -> Result<
    (EndorsementView, nat),
    ModelsError,
> {
    match spec_parse_content(s, parent_count) {
        Err(e) => Err(e),
        Ok((content, n)) => {
            if s.len() < n + SIGNATURE_SIZE_BYTES {
                Err(ModelsError::BufferError)
            } else if !spec_is_signature(s.subrange(n as int, n + SIGNATURE_SIZE_BYTES as int)) {
                Err(ModelsError::CryptoError(CryptoError::ParsingError))
            } else {
                Ok(
                    (
                        EndorsementView {
                            content: content,
                            signature: s.subrange(n as int, n + SIGNATURE_SIZE_BYTES as int),
                        },
                        n + SIGNATURE_SIZE_BYTES as nat,
                    ),
                )
            }
        },
    }
}

/// An executable result of reading agrees with the mathematical one.
pub open spec fn content_read_agrees(
    res: Result<(EndorsementContent, usize), ModelsError>,
    spec: Result<(EndorsementContentView, nat), ModelsError>,
) -> bool {
    match res {
        Ok((c, n)) => spec == Ok::<(EndorsementContentView, nat), ModelsError>((c@, n as nat)),
        Err(e) => spec == Err::<(EndorsementContentView, nat), ModelsError>(e),
    }
}

/// An executable result of reading agrees with the mathematical one.
pub open spec fn endorsement_read_agrees(
    res: Result<(Endorsement, usize), ModelsError>,
    spec: Result<(EndorsementView, nat), ModelsError>,
) -> bool {
    match res {
        Ok((e, n)) => spec == Ok::<(EndorsementView, nat), ModelsError>((e@, n as nat)),
        Err(err) => spec == Err::<(EndorsementView, nat), ModelsError>(err),
    }
}

/// The compact form of a content starts with the sender's key bytes as they
/// are, ends with the endorsed block's identifier bytes as they are, and holds
/// in between the slot's compact form and then the index as a
/// variable-length integer that reads back as the index.
pub proof fn law_content_bytes_layout(c: EndorsementContent)
    ensures
        ({
            let b = spec_content_bytes(c@);
            let sl = spec_slot_bytes(c.slot).len();
            &&& b.len() >= PUBLIC_KEY_SIZE_BYTES + sl + 1 + HASH_SIZE_BYTES
            &&& b.take(PUBLIC_KEY_SIZE_BYTES as int) == c.sender_public_key@
            &&& b.subrange(PUBLIC_KEY_SIZE_BYTES as int, PUBLIC_KEY_SIZE_BYTES + sl)
                == spec_slot_bytes(c.slot)
            &&& b[PUBLIC_KEY_SIZE_BYTES + sl - 1] == c.slot.thread
            &&& spec_decode_u32(b.skip(PUBLIC_KEY_SIZE_BYTES + sl)) == Ok::<
                (nat, nat),
                crate::varint::VarIntError,
            >((c.index as nat, (b.len() - PUBLIC_KEY_SIZE_BYTES - sl - HASH_SIZE_BYTES) as nat))
            &&& b.skip(b.len() - HASH_SIZE_BYTES) == c.endorsed_block@
        }),
{
    let v = c@;
    let pk = v.sender_public_key;
    let sb = spec_slot_bytes(v.slot);
    let ib = spec_encode_varint(v.index as nat);
    let bb = v.endorsed_block;
    let b = spec_content_bytes(v);
    crate::slot::law_slot_bytes_layout(c.slot);
    crate::varint::lemma_encode_shape(v.index as nat);
    assert(b =~= pk + sb + ib + bb);
    assert(b.take(33) =~= pk);
    assert(b.subrange(33, 33 + sb.len() as int) =~= sb);
    assert(b[33 + sb.len() - 1] == sb[sb.len() - 1]);
    assert(b.skip(33 + sb.len() as int) =~= ib + bb);
    crate::varint::lemma_u32_roundtrip(v.index, bb);
    assert(b.skip(b.len() - 32) =~= bb);
}

/// A content read from bytes has the first key-sized bytes as its sender's
/// key, and the last identifier-sized bytes read as its endorsed block.
pub proof fn law_content_parse_layout(s: Seq<u8>, parent_count: u8)
    requires
        spec_parse_content(s, parent_count) is Ok,
    ensures
        ({
            let (v, n) = spec_parse_content(s, parent_count)->Ok_0;
            &&& PUBLIC_KEY_SIZE_BYTES + HASH_SIZE_BYTES <= n <= s.len()
            &&& v.sender_public_key == s.take(PUBLIC_KEY_SIZE_BYTES as int)
            &&& v.endorsed_block == s.subrange(n - HASH_SIZE_BYTES, n as int)
        }),
{
}

/// The compact form of an endorsement is the compact form of its content
/// followed by the signature's bytes, in order and unchanged.
pub proof fn law_endorsement_bytes_layout(e: Endorsement)
    ensures
        ({
            let b = spec_endorsement_bytes(e@);
            let c = spec_content_bytes(e.content@);
            &&& b.len() == c.len() + SIGNATURE_SIZE_BYTES
            &&& b.take(c.len() as int) == c
            &&& b.skip(c.len() as int) == e.signature@
            &&& b.skip(b.len() - SIGNATURE_SIZE_BYTES) == e.signature@
        }),
{
    let b = spec_endorsement_bytes(e@);
    let c = spec_content_bytes(e.content@);
    assert(b.take(c.len() as int) =~= c);
    assert(b.skip(c.len() as int) =~= e.signature@);
}

/// An endorsement read from bytes is the content read from the front,
/// followed by the next signature-sized bytes taken, in order and unchanged,
/// as its signature.
pub proof fn law_endorsement_parse_layout(s: Seq<u8>, parent_count: u8)
    requires
        spec_parse_endorsement(s, parent_count) is Ok,
    ensures
        ({
            let (v, n) = spec_parse_endorsement(s, parent_count)->Ok_0;
            &&& SIGNATURE_SIZE_BYTES <= n <= s.len()
            &&& v.signature == s.subrange(n - SIGNATURE_SIZE_BYTES, n as int)
            &&& spec_parse_content(s, parent_count) == Ok::<(EndorsementContentView, nat), ModelsError>(
                (v.content, (n - SIGNATURE_SIZE_BYTES) as nat),
            )
        }),
{
    lemma_content_parse_len(s, parent_count);
}

impl EndorsementContent {
    /// The compact form of the content.
    pub fn to_bytes_compact(&self) -> (res: Result<Vec<u8>, ModelsError>)
        ensures
            res matches Ok(bytes) && bytes@ == spec_content_bytes(self@),
            res matches Ok(bytes) && bytes@.len() >= PUBLIC_KEY_SIZE_BYTES + HASH_SIZE_BYTES
                && bytes@.take(PUBLIC_KEY_SIZE_BYTES as int) == self.sender_public_key@
                && bytes@.skip(bytes@.len() - HASH_SIZE_BYTES) == self.endorsed_block@,
    {
        let mut res: Vec<u8> = Vec::new();
        // sender public key
        let pk = self.sender_public_key.to_bytes();
        extend_bytes(&mut res, pk.as_slice());
        // slot
        let slot = match self.slot.to_bytes_compact() {
            Ok(b) => b,
            Err(e) => {
                return Err(e);
            },
        };
        extend_bytes(&mut res, slot.as_slice());
        // endorsement index inside the block
        let index = u32_to_varint_bytes(self.index);
        extend_bytes(&mut res, index.as_slice());
        // hash of endorsed block
        let block = self.endorsed_block.to_bytes();
        extend_bytes(&mut res, block.as_slice());
        proof {
            law_content_bytes_layout(*self);
        }
        Ok(res)
    }

    /// Reads a content from the front of `buffer`: the content and the number
    /// of bytes read.
    pub fn from_bytes_compact(buffer: &[u8], context: &SerializationContext) -> (res: Result<
        (EndorsementContent, usize),
        ModelsError,
    >)
        ensures
            content_read_agrees(res, spec_parse_content(buffer@, context.parent_count)),
            res matches Ok((c, n)) ==> PUBLIC_KEY_SIZE_BYTES + HASH_SIZE_BYTES <= n <= buffer@.len()
                && c.sender_public_key@ == buffer@.take(PUBLIC_KEY_SIZE_BYTES as int)
                && c.endorsed_block@ == buffer@.subrange(n - HASH_SIZE_BYTES, n as int),
    {
        let mut cursor: usize = 0;
        // sender public key
        let pk_bytes = array_from_slice::<33>(buffer)?;
        let sender_public_key = match PublicKey::from_bytes(&pk_bytes) {
            Ok(pk) => pk,
            Err(e) => {
                return Err(ModelsError::CryptoError(e));
            },
        };
        cursor = cursor + PUBLIC_KEY_SIZE_BYTES;
        // slot
        let (slot, delta) = Slot::from_bytes_compact(tail(buffer, cursor), context)?;
        proof {
            crate::slot::lemma_slot_canonical(buffer@.skip(cursor as int), context.parent_count);
        }
        cursor = cursor + delta;
        // endorsement index inside the block
        let (index, delta) = match u32_from_varint_bytes(tail(buffer, cursor)) {
            Ok(r) => r,
            Err(e) => {
                return Err(ModelsError::VarIntError(e));
            },
        };
        proof {
            crate::varint::lemma_encode_decode(buffer@.skip(cursor as int), 5, u32::MAX as nat);
        }
        cursor = cursor + delta;
        // hash of endorsed block
        let block_bytes = array_from_slice::<32>(tail(buffer, cursor))?;
        let endorsed_block = BlockId::from_bytes(&block_bytes);
        proof {
            assert(buffer@.skip(cursor as int).take(32) =~= buffer@.subrange(
                cursor as int,
                cursor + 32,
            ));
        }
        cursor = cursor + 32;
        proof {
            law_content_parse_layout(buffer@, context.parent_count);
        }
        Ok((EndorsementContent { sender_public_key, slot, index, endorsed_block }, cursor))
    }
}

impl Endorsement {
    /// The compact form of the endorsement.
    pub fn to_bytes_compact(&self) -> (res: Result<Vec<u8>, ModelsError>)
        ensures
            res matches Ok(bytes) && bytes@ == spec_endorsement_bytes(self@),
            res matches Ok(bytes) && bytes@.len() >= SIGNATURE_SIZE_BYTES && bytes@.skip(
                bytes@.len() - SIGNATURE_SIZE_BYTES,
            ) == self.signature@ && bytes@.take(bytes@.len() - SIGNATURE_SIZE_BYTES)
                == spec_content_bytes(self.content@),
    {
        // content
        let mut res: Vec<u8> = match self.content.to_bytes_compact() {
            Ok(b) => b,
            Err(e) => {
                return Err(e);
            },
        };
        // signature
        let sig = self.signature.to_bytes();
        extend_bytes(&mut res, sig.as_slice());
        proof {
            law_endorsement_bytes_layout(*self);
        }
        Ok(res)
    }

    /// Reads an endorsement from the front of `buffer`: the endorsement and the
    /// number of bytes read.
    pub fn from_bytes_compact(buffer: &[u8], context: &SerializationContext) -> (res: Result<
        (Endorsement, usize),
        ModelsError,
    >)
        ensures
            endorsement_read_agrees(res, spec_parse_endorsement(buffer@, context.parent_count)),
            res matches Ok((e, n)) ==> SIGNATURE_SIZE_BYTES <= n <= buffer@.len() && e.signature@
                == buffer@.subrange(n - SIGNATURE_SIZE_BYTES, n as int),
    {
        let mut cursor: usize = 0;
        // content
        let (content, delta) = EndorsementContent::from_bytes_compact(buffer, context)?;
        cursor = cursor + delta;
        proof {
            lemma_content_parse_len(buffer@, context.parent_count);
        }
        // signature
        let sig_bytes = array_from_slice::<64>(tail(buffer, cursor))?;
        proof {
            assert(buffer@.skip(cursor as int).take(64) =~= buffer@.subrange(
                cursor as int,
                cursor + 64,
            ));
        }
        let signature = match Signature::from_bytes(&sig_bytes) {
            Ok(s) => s,
            Err(e) => {
                return Err(ModelsError::CryptoError(e));
            },
        };
        cursor = cursor + SIGNATURE_SIZE_BYTES;
        proof {
            law_endorsement_parse_layout(buffer@, context.parent_count);
        }
        Ok((Endorsement { content, signature }, cursor))
    }

    /// The identifier of the endorsement: the hash of its compact form.
    pub fn get_endorsement_id(&self) -> (res: Result<EndorsementId, ModelsError>)
        ensures
            res matches Ok(id) && id@ == spec_sha256(spec_endorsement_bytes(self@)),
    {
        let bytes = self.to_bytes_compact()?;
        Ok(EndorsementId(crate::hash::Hash::compute_from(bytes.as_slice())))
    }

    /// Checks that the signature is the sender's signature of the hash of the
    /// content, and gives the endorsement's identifier.
    pub fn verify_integrity(&self) -> (res: Result<EndorsementId, ModelsError>)
        ensures
            res is Ok <==> spec_signature_verifies(
                spec_sha256(spec_content_bytes(self.content@)),
                self.signature@,
                self.content.sender_public_key@,
            ),
            res matches Ok(id) ==> id@ == spec_sha256(spec_endorsement_bytes(self@)),
            res matches Err(e) ==> e == ModelsError::CryptoError(CryptoError::SignatureError),
    {
        let content_bytes = self.content.to_bytes_compact()?;
        let content_hash = crate::hash::Hash::compute_from(content_bytes.as_slice());
        match verify_signature(&content_hash, &self.signature, &self.content.sender_public_key) {
            Ok(()) => {},
            Err(e) => {
                return Err(ModelsError::CryptoError(e));
            },
        }
        self.get_endorsement_id()
    }
}

/// A successful read of a content takes no more bytes than there are.
pub proof fn lemma_content_parse_len(s: Seq<u8>, parent_count: u8)
    ensures
        spec_parse_content(s, parent_count) matches Ok((c, n)) ==> n <= s.len(),
{
}

/// An endorsement's content written and read back is the same content, and
/// reading stops where its bytes end, whatever follows them; its key must be
/// one that secp256k1 accepts (every `PublicKey` holds such bytes) and its
/// slot's thread must exist.
pub proof fn lemma_content_roundtrip(c: EndorsementContent, rest: Seq<u8>, parent_count: u8)
    requires
        spec_is_public_key(c.sender_public_key@),
        c.slot.thread < parent_count,
    ensures
        spec_parse_content(spec_content_bytes(c@) + rest, parent_count) == Ok::<
            (EndorsementContentView, nat),
            ModelsError,
        >((c@, spec_content_bytes(c@).len())),
{
    let v = c@;
    let pk = v.sender_public_key;
    let sb = spec_slot_bytes(v.slot);
    let ib = spec_encode_varint(v.index as nat);
    let bb = v.endorsed_block;
    let s = spec_content_bytes(v) + rest;
    assert(s =~= pk + (sb + (ib + bb + rest)));
    assert(s.take(33) =~= pk);
    assert(s.skip(33) =~= sb + (ib + bb + rest));
    crate::slot::lemma_slot_roundtrip(v.slot, ib + bb + rest, parent_count);
    let c1: int = 33 + sb.len() as int;
    assert(s.skip(c1) =~= ib + (bb + rest));
    crate::varint::lemma_u32_roundtrip(v.index, bb + rest);
    let c2: int = c1 + ib.len();
    assert(s.subrange(c2, c2 + 32) =~= bb);
}

/// Whatever reads as a content is the compact form of that content.
pub proof fn lemma_content_canonical(s: Seq<u8>, parent_count: u8)
    requires
        spec_parse_content(s, parent_count) is Ok,
    ensures
        ({
            let (v, n) = spec_parse_content(s, parent_count)->Ok_0;
            &&& spec_content_bytes(v) == s.take(n as int)
            &&& n <= s.len()
            &&& spec_is_public_key(v.sender_public_key)
            &&& v.slot.thread < parent_count
        }),
{
    let (v, n) = spec_parse_content(s, parent_count)->Ok_0;
    let s1 = s.skip(33);
    crate::slot::lemma_slot_canonical(s1, parent_count);
    let (slot, n1) = spec_parse_slot(s1, parent_count)->Ok_0;
    let c1: int = 33 + n1 as int;
    crate::varint::lemma_encode_decode(s.skip(c1), 5, u32::MAX as nat);
    let (index, n2) = spec_decode_u32(s.skip(c1))->Ok_0;
    let c2: int = c1 + n2;
    assert(s.take(c1) =~= s.take(33) + s1.take(n1 as int));
    assert(s.take(c2) =~= s.take(c1) + s.skip(c1).take(n2 as int));
    assert(s.take(c2 + 32) =~= s.take(c2) + s.subrange(c2, c2 + 32));
}

/// An endorsement written and read back is the same endorsement, and reading
/// stops where its bytes end, whatever follows them; its key and signature
/// must be ones that secp256k1 accepts (every `PublicKey` and `Signature`
/// holds such bytes) and its slot's thread must exist.
pub proof fn lemma_endorsement_roundtrip(e: Endorsement, rest: Seq<u8>, parent_count: u8)
    requires
        spec_is_public_key(e.content.sender_public_key@),
        spec_is_signature(e.signature@),
        e.content.slot.thread < parent_count,
    ensures
        spec_parse_endorsement(spec_endorsement_bytes(e@) + rest, parent_count) == Ok::<
            (EndorsementView, nat),
            ModelsError,
        >((e@, spec_endorsement_bytes(e@).len())),
{
    let cb = spec_content_bytes(e.content@);
    let s = spec_endorsement_bytes(e@) + rest;
    assert(s =~= cb + (e.signature@ + rest));
    lemma_content_roundtrip(e.content, e.signature@ + rest, parent_count);
    assert(s.subrange(cb.len() as int, cb.len() + 64int) =~= e.signature@);
}

/// Whatever reads as an endorsement is the compact form of that endorsement.
pub proof fn lemma_endorsement_canonical(s: Seq<u8>, parent_count: u8)
    requires
        spec_parse_endorsement(s, parent_count) is Ok,
    ensures
        ({
            let (v, n) = spec_parse_endorsement(s, parent_count)->Ok_0;
            &&& spec_endorsement_bytes(v) == s.take(n as int)
            &&& n <= s.len()
            &&& spec_is_public_key(v.content.sender_public_key)
            &&& spec_is_signature(v.signature)
            &&& v.content.slot.thread < parent_count
        }),
{
    lemma_content_canonical(s, parent_count);
    let (c, n) = spec_parse_content(s, parent_count)->Ok_0;
    assert(s.take(n + 64int) =~= s.take(n as int) + s.subrange(n as int, n + 64int));
}

} // verus!
