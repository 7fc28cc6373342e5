//! Massa block and endorsement models: compact binary forms, identifiers,
//! signatures and the block storage.
use vstd::prelude::*;

pub mod block;
pub mod constants;
pub mod endorsement;
pub mod hash;
pub mod network;
pub mod node;
pub mod serialization;
pub mod signature;
pub mod slot;
pub mod storage;
pub mod varint;

verus! {

} // verus!
