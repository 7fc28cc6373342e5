//! Node identifiers.
use crate::hash::{spec_bs58_check_decode, spec_bs58_check_encode};
use crate::signature::{PublicKey, Signature};
use vstd::prelude::*;

verus! {

/// A public key together with a signature made with it.
#[derive(Debug, Clone, Copy)]
pub struct PubkeySig {
    pub public_key: PublicKey,
    pub signature: Signature,
}

/// NodeId wraps a public key to uniquely identify a node.
#[derive(Clone, Copy, Debug, Hash, PartialEq, Eq, PartialOrd, Ord)]
pub struct NodeId(pub PublicKey);

impl View for NodeId {
    type V = Seq<u8>;

    open spec fn view(&self) -> Seq<u8> {
        self.0@
    }
}

/// A node identifier is its public key's bytes: two identifiers are the same
/// exactly when those bytes are.
pub proof fn lemma_node_id_determined_by_bytes(a: NodeId, b: NodeId)
    ensures
        a@ == b@ <==> a == b,
{
    crate::signature::lemma_public_key_determined_by_bytes(a.0, b.0);
}

impl NodeId {
    /// The text form of the node identifier: the Base58Check text of its
    /// public key's bytes, which reads back as those bytes.
    pub fn to_string(&self) -> (text: String)
        ensures
            text@ == spec_bs58_check_encode(self@),
            spec_bs58_check_decode(text@) == Some(self@),
    {
        self.0.to_bs58_check()
    }
}

} // verus!
