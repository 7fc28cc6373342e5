//! Block identifiers.
use crate::constants::BLOCK_ID_SIZE_BYTES;
use vstd::prelude::*;

verus! {

broadcast use crate::hash::lemma_hash_len;

/// A block identifier: the hash of the block's header.
#[derive(Clone, Copy, Debug, PartialEq, Eq, PartialOrd, Ord, Hash)]
pub struct BlockId(pub crate::hash::Hash);

impl View for BlockId {
    type V = Seq<u8>;

    open spec fn view(&self) -> Seq<u8> {
        self.0@
    }
}

/// A block identifier has 32 bytes.
pub broadcast proof fn lemma_block_id_len(id: BlockId)
    ensures
        #[trigger] id@.len() == BLOCK_ID_SIZE_BYTES,
{
}

/// A block identifier is its bytes: two identifiers are the same exactly
/// when their bytes are.
pub proof fn lemma_block_id_determined_by_bytes(a: BlockId, b: BlockId)
    ensures
        a@ == b@ <==> a == b,
{
    crate::hash::lemma_hash_determined_by_bytes(a.0, b.0);
}

impl BlockId {
    /// The bytes of the identifier.
    pub fn to_bytes(&self) -> (bytes: [u8; 32])
        ensures
            bytes@ == self@,
    {
        self.0.to_bytes()
    }

    /// The identifier with the given bytes; every 32 bytes are one.
    pub fn from_bytes(data: &[u8; 32]) -> (id: BlockId)
        ensures
            id@ == data@,
    {
        BlockId(crate::hash::Hash::from_bytes(data))
    }

    /// Whether two identifiers have the same bytes.
    pub fn same_as(&self, other: &BlockId) -> (same: bool)
        ensures
            same == (self@ == other@),
    {
        let a = self.to_bytes();
        let b = other.to_bytes();
        assert(a@.len() == 32 && b@.len() == 32);
        let mut i: usize = 0;
        while i < 32
            invariant
                i <= 32,
                a@ == self@,
                b@ == other@,
                a@.len() == 32,
                b@.len() == 32,
                forall|j: int| 0 <= j < i ==> a@[j] == b@[j],
            decreases 32 - i,
        {
            if a[i] != b[i] {
                assert(a@[i as int] != b@[i as int]);
                return false;
            }
            i = i + 1;
        }
        assert(a@ =~= b@);
        true
    }
}

} // verus!
