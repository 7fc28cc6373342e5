use massa::block::BlockId;
use massa::endorsement::{Endorsement, EndorsementContent, EndorsementId};
use massa::serialization::{ModelsError, SerializationContext};
use massa::signature::{CryptoError, PublicKey, Signature};
use massa::slot::Slot;
use std::collections::hash_map::RandomState;
use std::hash::{BuildHasher, Hasher};

fn context() -> SerializationContext {
    SerializationContext {
        max_block_size: 1024 * 1024,
        max_block_operations: 1024,
        parent_count: 3,
        max_peer_list_length: 128,
        max_message_size: 3 * 1024 * 1024,
        max_bootstrap_blocks: 100,
        max_bootstrap_cliques: 100,
        max_bootstrap_deps: 100,
        max_bootstrap_children: 100,
        max_bootstrap_pos_cycles: 1000,
        max_bootstrap_pos_entries: 1000,
        max_ask_blocks_per_message: 10,
        max_operations_per_message: 1024,
        max_endorsements_per_message: 1024,
        max_bootstrap_message_size: 100000000,
        max_block_endorsments: 8,
    }
}

fn private_key(seed: u8) -> secp256k1::SecretKey {
    secp256k1::SecretKey::from_slice(&[seed; 32]).unwrap()
}

/// A private key from the process's random hasher keys.
fn random_private_key() -> secp256k1::SecretKey {
    loop {
        let mut bytes = [0u8; 32];
        for chunk in bytes.chunks_mut(8) {
            let mut h = RandomState::new().build_hasher();
            h.write_u8(0);
            chunk.copy_from_slice(&h.finish().to_le_bytes());
        }
        if let Ok(sk) = secp256k1::SecretKey::from_slice(&bytes) {
            return sk;
        }
    }
}

fn public_key_of(sk: &secp256k1::SecretKey) -> PublicKey {
    let secp = secp256k1::Secp256k1::new();
    PublicKey::from_bytes(&secp256k1::PublicKey::from_secret_key(&secp, sk).serialize()).unwrap()
}

fn sign(hash: &massa::hash::Hash, sk: &secp256k1::SecretKey) -> Signature {
    let secp = secp256k1::Secp256k1::new();
    let message = secp256k1::Message::from_slice(&hash.to_bytes()).unwrap();
    Signature::from_bytes(&secp.sign(&message, sk).serialize_compact()).unwrap()
}

fn sample(seed: u8) -> (EndorsementContent, Endorsement, secp256k1::SecretKey) {
    sample_with(private_key(seed))
}

fn sample_with(sender_priv: secp256k1::SecretKey) -> (EndorsementContent, Endorsement, secp256k1::SecretKey) {
    let sender_public_key = public_key_of(&sender_priv);
    let content = EndorsementContent {
        sender_public_key,
        slot: Slot::new(10, 1),
        index: 0,
        endorsed_block: BlockId(massa::hash::Hash::compute_from("blk".as_bytes())),
    };
    let hash = massa::hash::Hash::compute_from(&content.to_bytes_compact().unwrap());
    let signature = sign(&hash, &sender_priv);
    let endorsement = Endorsement {
        content: content.clone(),
        signature,
    };
    (content, endorsement, sender_priv)
}

#[test]
fn test_endorsement_serialization() {
    let ctx = context();
    let (content, endorsement, _) = sample_with(random_private_key());

    let ser_content = content.to_bytes_compact().unwrap();
    let (res_content, _) = EndorsementContent::from_bytes_compact(&ser_content, &ctx).unwrap();
    assert_eq!(format!("{:?}", res_content), format!("{:?}", content));

    let ser_endorsement = endorsement.to_bytes_compact().unwrap();
    let (res_endorsement, _) = Endorsement::from_bytes_compact(&ser_endorsement, &ctx).unwrap();
    assert_eq!(
        format!("{:?}", res_endorsement),
        format!("{:?}", endorsement)
    );
}

#[test]
fn content_compact_form_layout() {
    let (content, _, _) = sample(7);
    let bytes = content.to_bytes_compact().unwrap();
    // 33 key bytes, period 10 in one byte, thread 1, index 0 in one byte, 32 block bytes
    assert_eq!(bytes.len(), 33 + 1 + 1 + 1 + 32);
    assert_eq!(&bytes[..33], &content.sender_public_key.to_bytes()[..]);
    assert_eq!(bytes[33], 10);
    assert_eq!(bytes[34], 1);
    assert_eq!(bytes[35], 0);
    assert_eq!(&bytes[36..], &content.endorsed_block.to_bytes()[..]);
}

#[test]
fn content_with_large_period_and_index() {
    let ctx = context();
    let (mut content, _, _) = sample(9);
    content.slot = Slot::new(300, 2);
    content.index = 70000;
    let bytes = content.to_bytes_compact().unwrap();
    // 300 = 0xac 0x02, 70000 = 0xf0 0xa2 0x04
    assert_eq!(&bytes[33..36], &[0xac, 0x02, 2]);
    assert_eq!(&bytes[36..39], &[0xf0, 0xa2, 0x04]);
    let mut longer = bytes.clone();
    longer.extend_from_slice(&[1, 2, 3]);
    let (back, n) = EndorsementContent::from_bytes_compact(&longer, &ctx).unwrap();
    assert_eq!(n, bytes.len());
    assert_eq!(back.slot, Slot::new(300, 2));
    assert_eq!(back.index, 70000);
    assert_eq!(back.to_bytes_compact().unwrap(), bytes);
}

#[test]
fn content_reading_errors() {
    let ctx = context();
    let (content, _, _) = sample(7);
    let bytes = content.to_bytes_compact().unwrap();

    // too short for a key
    assert_eq!(
        EndorsementContent::from_bytes_compact(&bytes[..20], &ctx).unwrap_err(),
        ModelsError::BufferError
    );
    // not a key
    let mut bad_key = bytes.clone();
    bad_key[0] = 0x05;
    assert_eq!(
        EndorsementContent::from_bytes_compact(&bad_key, &ctx).unwrap_err(),
        ModelsError::CryptoError(CryptoError::ParsingError)
    );
    // thread out of range
    let mut bad_thread = bytes.clone();
    bad_thread[34] = 3;
    assert_eq!(
        EndorsementContent::from_bytes_compact(&bad_thread, &ctx).unwrap_err(),
        ModelsError::InvalidThreadNumber
    );
    // no thread byte
    assert_eq!(
        EndorsementContent::from_bytes_compact(&bytes[..34], &ctx).unwrap_err(),
        ModelsError::BufferError
    );
    // period not finished
    let mut unfinished = bytes[..33].to_vec();
    unfinished.push(0x80);
    assert_eq!(
        EndorsementContent::from_bytes_compact(&unfinished, &ctx).unwrap_err(),
        ModelsError::VarIntError(massa::varint::VarIntError::Insufficient)
    );
    // block identifier cut short
    assert_eq!(
        EndorsementContent::from_bytes_compact(&bytes[..50], &ctx).unwrap_err(),
        ModelsError::BufferError
    );
}

#[test]
fn endorsement_signature_errors() {
    let ctx = context();
    let (_, endorsement, _) = sample(7);
    let bytes = endorsement.to_bytes_compact().unwrap();
    assert_eq!(
        Endorsement::from_bytes_compact(&bytes[..bytes.len() - 1], &ctx).unwrap_err(),
        ModelsError::BufferError
    );
    let mut bad_sig = bytes.clone();
    let start = bytes.len() - 64;
    for b in bad_sig[start..].iter_mut() {
        *b = 0xff;
    }
    assert_eq!(
        Endorsement::from_bytes_compact(&bad_sig, &ctx).unwrap_err(),
        ModelsError::CryptoError(CryptoError::ParsingError)
    );
}

#[test]
fn verify_integrity_accepts_signed_endorsement() {
    let (_, endorsement, _) = sample(7);
    let id = endorsement.verify_integrity().unwrap();
    assert_eq!(id, endorsement.get_endorsement_id().unwrap());
    let expected = massa::hash::Hash::compute_from(&endorsement.to_bytes_compact().unwrap());
    assert_eq!(id.to_bytes(), expected.to_bytes());
}

#[test]
fn verify_integrity_refuses_other_signer() {
    let (content, _, _) = sample(7);
    let other = private_key(8);
    let hash = massa::hash::Hash::compute_from(&content.to_bytes_compact().unwrap());
    let endorsement = Endorsement {
        content,
        signature: sign(&hash, &other),
    };
    assert_eq!(
        endorsement.verify_integrity().unwrap_err(),
        ModelsError::CryptoError(CryptoError::SignatureError)
    );
}

#[test]
fn verify_integrity_refuses_changed_content() {
    let (_, mut endorsement, _) = sample(7);
    endorsement.content.index = 1;
    assert_eq!(
        endorsement.verify_integrity().unwrap_err(),
        ModelsError::CryptoError(CryptoError::SignatureError)
    );
}

#[test]
fn sha256_of_known_input() {
    // SHA-256("abc")
    let h = massa::hash::Hash::compute_from(b"abc");
    assert_eq!(
        h.to_bytes(),
        [
            0xba, 0x78, 0x16, 0xbf, 0x8f, 0x01, 0xcf, 0xea, 0x41, 0x41, 0x40, 0xde, 0x5d, 0xae,
            0x22, 0x23, 0xb0, 0x03, 0x61, 0xa3, 0x96, 0x17, 0x7a, 0x9c, 0xb4, 0x10, 0xff, 0x61,
            0xf2, 0x00, 0x15, 0xad
        ]
    );
}

#[test]
fn endorsement_id_text_roundtrip() {
    let (_, endorsement, _) = sample(7);
    let id = endorsement.get_endorsement_id().unwrap();
    let text = id.to_string();
    assert_eq!(EndorsementId::from_bs58_check(&text).unwrap(), id);
    let parsed: EndorsementId = text.parse().unwrap();
    assert_eq!(parsed, id);
    assert_eq!(id.into_bytes(), id.to_bytes());
    assert_eq!(EndorsementId::from_bytes(&id.to_bytes()).unwrap(), id);
}

#[test]
fn endorsement_id_text_errors() {
    assert_eq!(
        EndorsementId::from_bs58_check("not base58 0OIl").unwrap_err(),
        ModelsError::HashError
    );
    // a well-formed text of the wrong length
    let short = bs58::encode([1u8, 2, 3]).with_check().into_string();
    assert_eq!(
        EndorsementId::from_bs58_check(&short).unwrap_err(),
        ModelsError::HashError
    );
    let parsed: Result<EndorsementId, ModelsError> = short.parse();
    assert_eq!(
        parsed.unwrap_err(),
        ModelsError::CryptoError(CryptoError::ParsingError)
    );
}

#[test]
fn bs58_check_text_of_known_bytes() {
    // the text bs58 documents for these bytes
    let id = EndorsementId::from_bytes(&[0u8; 32]).unwrap();
    let text = id.to_string();
    assert_eq!(text, bs58::encode([0u8; 32]).with_check().into_string());
    assert!(text.starts_with("1111111111111111111111111111111"));
}

#[test]
fn hash_from_decoded_base58() {
    let ok = massa::hash::Hash::from_decoded_bs58(Ok(vec![5u8; 32])).unwrap();
    assert_eq!(ok.to_bytes(), [5u8; 32]);
    assert_eq!(
        massa::hash::Hash::from_decoded_bs58(Ok(vec![5u8; 31])).unwrap_err(),
        CryptoError::ParsingError
    );
    let failed = bs58::decode("0").with_check(None).into_vec();
    assert!(failed.is_err());
    assert_eq!(
        massa::hash::Hash::from_decoded_bs58(failed).unwrap_err(),
        CryptoError::ParsingError
    );
}

#[test]
fn endorsement_ids_equal_exactly_when_bytes_equal() {
    let a = EndorsementId::from_bytes(&[1u8; 32]).unwrap();
    let b = EndorsementId::from_bytes(&[1u8; 32]).unwrap();
    let mut other = [1u8; 32];
    other[31] = 2;
    let c = EndorsementId::from_bytes(&other).unwrap();
    assert_eq!(a, b);
    assert_eq!(a.to_bytes(), b.to_bytes());
    assert_ne!(a, c);
    assert_ne!(a.to_bytes(), c.to_bytes());
}
