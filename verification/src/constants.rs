//! Sizes and limits shared by the models.
use vstd::prelude::*;

verus! {

/// Size in bytes of the random data exchanged when bootstrapping.
pub const BOOTSTRAP_RANDOMNES_SIZE_BYTES: usize = 32;

/// Capacity of the channels between components.
pub const CHANNEL_SIZE: usize = 256;

/// Size in bytes of a hash.
pub const HASH_SIZE_BYTES: usize = 32;

/// Size in bytes of a private key.
pub const PRIVATE_KEY_SIZE_BYTES: usize = 32;

/// Size in bytes of a compressed public key.
pub const PUBLIC_KEY_SIZE_BYTES: usize = 33;

/// Size in bytes of a compact signature.
pub const SIGNATURE_SIZE_BYTES: usize = 64;

/// Size in bytes of an address.
pub const ADDRESS_SIZE_BYTES: usize = 32;

/// Number of smallest units in one coin.
pub const AMOUNT_DECIMAL_FACTOR: u64 = 1_000_000_000;

/// Size in bytes of a block identifier.
pub const BLOCK_ID_SIZE_BYTES: usize = 32;

/// Size in bytes of an endorsement identifier.
pub const ENDORSEMENT_ID_SIZE_BYTES: usize = 32;

/// Size in bytes of an operation identifier.
pub const OPERATION_ID_SIZE_BYTES: usize = 32;

/// Size in bytes of the key of a slot.
pub const SLOT_KEY_SIZE: usize = 9;

/// Capacity of the channel that sends to a node.
pub const NODE_SEND_CHANNEL_SIZE: usize = 1024;

/// Size in bytes of the random data exchanged in a handshake.
pub const HANDSHAKE_RANDOMNES_SIZE_BYTES: usize = 32;

} // verus!
