//! The storage of blocks, keyed by block identifier.
use crate::block::BlockId;
use vstd::prelude::*;

verus! {

/// A stored block, with its compact form and, once it has been propagated,
/// the compact form of its header.
#[derive(Debug)]
pub struct StoredBlock<B> {
    /// The block.
    pub block: B,
    /// The serialized representation of the block.
    pub serialized: Vec<u8>,
    /// The serialized representation of the header, if any.
    pub serialized_header: Option<Vec<u8>>,
}

impl<B> StoredBlock<B> {
    /// A block and its serialized representation, with no header stored yet.
    pub fn new(block: B, serialized: Vec<u8>) -> (stored: StoredBlock<B>)
        ensures
            stored == (StoredBlock { block: block, serialized: serialized, serialized_header: None }),
    {
        StoredBlock { block, serialized, serialized_header: None }
    }
}

/// Whether the identifiers of `ids` are pairwise distinct.
pub open spec fn distinct_ids(ids: Seq<BlockId>) -> bool {
    forall|i: int, j: int|
        0 <= i < ids.len() && 0 <= j < ids.len() && i != j ==> #[trigger] ids[i]@
            != #[trigger] ids[j]@
}

/// Whether some identifier of `ids` has the bytes `key`.
pub open spec fn has_id(ids: Seq<BlockId>, key: Seq<u8>) -> bool {
    exists|i: int| 0 <= i < ids.len() && #[trigger] ids[i]@ == key
}

/// The map from each identifier of `ids` to the entry at the same place in
/// `blocks`.
pub open spec fn entries_map<V>(ids: Seq<BlockId>, blocks: Seq<V>) -> Map<Seq<u8>, V> {
    Map::new(
        |key: Seq<u8>| has_id(ids, key),
        |key: Seq<u8>| blocks[choose|i: int| 0 <= i < ids.len() && #[trigger] ids[i]@ == key],
    )
}

/// The identifiers, as bytes, of a list of block identifiers.
pub open spec fn id_set(ids: Seq<BlockId>) -> Set<Seq<u8>> {
    Set::new(|key: Seq<u8>| exists|i: int| 0 <= i < ids.len() && #[trigger] ids[i]@ == key)
}

proof fn lemma_map_at<V>(ids: Seq<BlockId>, blocks: Seq<V>, i: int)
    requires
        distinct_ids(ids),
        0 <= i < ids.len(),
    ensures
        entries_map(ids, blocks).contains_key(ids[i]@),
        entries_map(ids, blocks)[ids[i]@] == blocks[i],
{
    let key = ids[i]@;
    assert(has_id(ids, key));
    let j = choose|j: int| 0 <= j < ids.len() && #[trigger] ids[j]@ == key;
    assert(j == i);
}

proof fn lemma_map_push<V>(
    ids: Seq<BlockId>,
    blocks: Seq<V>,
    id: BlockId,
    stored: V,
)
    requires
        distinct_ids(ids),
        ids.len() == blocks.len(),
        !has_id(ids, id@),
    ensures
        distinct_ids(ids.push(id)),
        entries_map(ids.push(id), blocks.push(stored)) == entries_map(ids, blocks).insert(
            id@,
            stored,
        ),
{
    let i2 = ids.push(id);
    let b2 = blocks.push(stored);
    assert forall|i: int, j: int|
        0 <= i < i2.len() && 0 <= j < i2.len() && i != j implies #[trigger] i2[i]@
        != #[trigger] i2[j]@ by {
        if i == ids.len() {
            assert(i2[j] == ids[j]);
            assert(ids[j]@ != id@);
        } else if j == ids.len() {
            assert(i2[i] == ids[i]);
            assert(ids[i]@ != id@);
        } else {
            assert(i2[i] == ids[i] && i2[j] == ids[j]);
        }
    }
    let m1 = entries_map(i2, b2);
    let m2 = entries_map(ids, blocks).insert(id@, stored);
    assert forall|key: Seq<u8>| m1.contains_key(key) <==> m2.contains_key(key) by {
        if has_id(i2, key) {
            let i = choose|i: int| 0 <= i < i2.len() && #[trigger] i2[i]@ == key;
            if i < ids.len() {
                assert(ids[i]@ == key);
            }
        }
        if has_id(ids, key) {
            let i = choose|i: int| 0 <= i < ids.len() && #[trigger] ids[i]@ == key;
            assert(i2[i]@ == key);
        }
        if key == id@ {
            assert(i2[ids.len() as int]@ == key);
        }
    }
    assert forall|key: Seq<u8>| m1.contains_key(key) implies m1[key] == m2[key] by {
        let i = choose|i: int| 0 <= i < i2.len() && #[trigger] i2[i]@ == key;
        lemma_map_at(i2, b2, i);
        if i < ids.len() {
            assert(i2[i] == ids[i] && b2[i] == blocks[i]);
            lemma_map_at(ids, blocks, i);
        }
    }
    assert(m1 =~= m2);
}

proof fn lemma_map_remove<V>(ids: Seq<BlockId>, blocks: Seq<V>, i: int)
    requires
        distinct_ids(ids),
        ids.len() == blocks.len(),
        0 <= i < ids.len(),
    ensures
        distinct_ids(ids.remove(i)),
        entries_map(ids.remove(i), blocks.remove(i)) == entries_map(ids, blocks).remove(ids[i]@),
{
    let i2 = ids.remove(i);
    let b2 = blocks.remove(i);
    let gone = ids[i]@;
    assert forall|a: int| 0 <= a < i2.len() implies #[trigger] i2[a] == ids[if a < i {
        a
    } else {
        a + 1
    }] && b2[a] == blocks[if a < i {
        a
    } else {
        a + 1
    }] by {}
    assert forall|a: int, b: int|
        0 <= a < i2.len() && 0 <= b < i2.len() && a != b implies #[trigger] i2[a]@
        != #[trigger] i2[b]@ by {
        let a1 = if a < i {
            a
        } else {
            a + 1
        };
        let b1 = if b < i {
            b
        } else {
            b + 1
        };
        assert(i2[a] == ids[a1] && i2[b] == ids[b1]);
    }
    let m1 = entries_map(i2, b2);
    let m2 = entries_map(ids, blocks).remove(gone);
    assert forall|key: Seq<u8>| m1.contains_key(key) <==> m2.contains_key(key) by {
        if has_id(i2, key) {
            let a = choose|a: int| 0 <= a < i2.len() && #[trigger] i2[a]@ == key;
            let a1 = if a < i {
                a
            } else {
                a + 1
            };
            assert(i2[a] == ids[a1]);
            assert(ids[a1]@ == key);
        }
        if has_id(ids, key) && key != gone {
            let a1 = choose|a: int| 0 <= a < ids.len() && #[trigger] ids[a]@ == key;
            assert(a1 != i);
            let a = if a1 < i {
                a1
            } else {
                a1 - 1
            };
            assert(i2[a] == ids[a1]);
        }
    }
    assert forall|key: Seq<u8>| m1.contains_key(key) implies m1[key] == m2[key] by {
        let a = choose|a: int| 0 <= a < i2.len() && #[trigger] i2[a]@ == key;
        let a1 = if a < i {
            a
        } else {
            a + 1
        };
        assert(i2[a] == ids[a1] && b2[a] == blocks[a1]);
        lemma_map_at(i2, b2, a);
        lemma_map_at(ids, blocks, a1);
    }
    assert(m1 =~= m2);
}

proof fn lemma_map_update<V>(
    ids: Seq<BlockId>,
    blocks: Seq<V>,
    i: int,
    stored: V,
)
    requires
        distinct_ids(ids),
        ids.len() == blocks.len(),
        0 <= i < ids.len(),
    ensures
        entries_map(ids, blocks.update(i, stored)) == entries_map(ids, blocks).insert(
            ids[i]@,
            stored,
        ),
{
    let b2 = blocks.update(i, stored);
    let m1 = entries_map(ids, b2);
    let m2 = entries_map(ids, blocks).insert(ids[i]@, stored);
    lemma_map_at(ids, blocks, i);
    assert forall|key: Seq<u8>| m1.contains_key(key) <==> m2.contains_key(key) by {}
    assert forall|key: Seq<u8>| m1.contains_key(key) implies m1[key] == m2[key] by {
        let a = choose|a: int| 0 <= a < ids.len() && #[trigger] ids[a]@ == key;
        lemma_map_at(ids, b2, a);
        if a != i {
            lemma_map_at(ids, blocks, a);
        }
    }
    assert(m1 =~= m2);
}

/// The stored blocks after storing `block` under `id`: a block already
/// stored under `id` is replaced, and no header is stored yet.
pub open spec fn spec_store_block<B>(
    stored: Map<Seq<u8>, StoredBlock<B>>,
    id: Seq<u8>,
    block: B,
    serialized: Vec<u8>,
) -> Map<Seq<u8>, StoredBlock<B>> {
    stored.insert(id, StoredBlock { block: block, serialized: serialized, serialized_header: None })
}

/// A stored block is what retrieving its identifier then gives, with no
/// header, whether or not a block was stored under that identifier before.
pub proof fn law_store_then_retrieve<B>(
    stored: Map<Seq<u8>, StoredBlock<B>>,
    id: Seq<u8>,
    block: B,
    serialized: Vec<u8>,
)
    ensures
        spec_store_block(stored, id, block, serialized).contains_key(id),
        spec_store_block(stored, id, block, serialized)[id] == (StoredBlock {
            block: block,
            serialized: serialized,
            serialized_header: None,
        }),
{
}

/// Storing a block leaves every other identifier as it was.
pub proof fn law_store_leaves_others<B>(
    stored: Map<Seq<u8>, StoredBlock<B>>,
    id: Seq<u8>,
    block: B,
    serialized: Vec<u8>,
    other: Seq<u8>,
)
    requires
        other != id,
    ensures
        spec_store_block(stored, id, block, serialized).contains_key(other)
            == stored.contains_key(other),
        stored.contains_key(other) ==> spec_store_block(stored, id, block, serialized)[other]
            == stored[other],
{
}

/// After removing a list of blocks, none of them can be retrieved, and every
/// block whose identifier is not in the list is still there, unchanged.
pub proof fn law_remove_then_retrieve<V>(stored: Map<Seq<u8>, V>, ids: Seq<BlockId>, key: Seq<u8>)
    ensures
        (exists|i: int| 0 <= i < ids.len() && #[trigger] ids[i]@ == key) ==> !stored.remove_keys(
            id_set(ids),
        ).contains_key(key),
        !(exists|i: int| 0 <= i < ids.len() && #[trigger] ids[i]@ == key) ==> (stored.remove_keys(
            id_set(ids),
        ).contains_key(key) == stored.contains_key(key)),
        !(exists|i: int| 0 <= i < ids.len() && #[trigger] ids[i]@ == key) && stored.contains_key(
            key,
        ) ==> stored.remove_keys(id_set(ids))[key] == stored[key],
{
    if exists|i: int| 0 <= i < ids.len() && #[trigger] ids[i]@ == key {
        assert(id_set(ids).contains(key));
    } else {
        assert(!id_set(ids).contains(key));
    }
}

/// A storage of blocks, shared by various components: one entry (a
/// `StoredBlock`, or a handle to one) per block identifier.
pub struct Storage<V> {
    ids: Vec<BlockId>,
    blocks: Vec<V>,
}

impl<V> View for Storage<V> {
    type V = Map<Seq<u8>, V>;

    closed spec fn view(&self) -> Map<Seq<u8>, V> {
        entries_map(self.ids@, self.blocks@)
    }
}

impl<V> Default for Storage<V> {
    /// An empty storage.
    fn default() -> (s: Storage<V>)
        ensures
            s@ == Map::<Seq<u8>, V>::empty(),
    {
        Storage::new()
    }
}

impl<V> Storage<V> {
    /// Each stored block has one identifier, and no two have the same.
    #[verifier::type_invariant]
    closed spec fn well_formed(self) -> bool {
        &&& self.ids@.len() == self.blocks@.len()
        &&& distinct_ids(self.ids@)
    }

    /// An empty storage.
    pub fn new() -> (s: Storage<V>)
        ensures
            s@ == Map::<Seq<u8>, V>::empty(),
    {
        let s = Storage { ids: Vec::new(), blocks: Vec::new() };
        assert(s@ =~= Map::<Seq<u8>, V>::empty());
        s
    }

    /// Where the block with identifier `block_id` stands.
    fn position(&self, block_id: &BlockId) -> (pos: Option<usize>)
        ensures
            match pos {
                Some(i) => i < self.ids@.len() && self.ids@[i as int]@ == block_id@,
                None => !has_id(self.ids@, block_id@),
            },
    {
        let mut i: usize = 0;
        while i < self.ids.len()
            invariant
                i <= self.ids@.len(),
                forall|j: int| 0 <= j < i ==> #[trigger] self.ids@[j]@ != block_id@,
            decreases self.ids@.len() - i,
        {
            if self.ids[i].same_as(block_id) {
                return Some(i);
            }
            i = i + 1;
        }
        None
    }

    /// Stores `entry` under `block_id`, replacing what was stored under it.
    pub fn store(&mut self, block_id: BlockId, entry: V)
        ensures
            final(self)@ == old(self)@.insert(block_id@, entry),
    {
        proof {
            use_type_invariant(&*self);
        }
        let pos = self.position(&block_id);
        let mut taken = Storage::new();
        std::mem::swap(&mut taken, self);
        proof {
            use_type_invariant(&taken);
        }
        let Storage { mut ids, mut blocks } = taken;
        match pos {
            Some(i) => {
                proof {
                    lemma_map_update(ids@, blocks@, i as int, entry);
                    assert(ids@[i as int]@ == block_id@);
                }
                blocks[i] = entry;
            },
            None => {
                proof {
                    lemma_map_push(ids@, blocks@, block_id, entry);
                }
                ids.push(block_id);
                blocks.push(entry);
            },
        }
        *self = Storage { ids, blocks };
    }

    /// The block stored under `block_id`, if any.
    pub fn retrieve_block(&self, block_id: &BlockId) -> (res: Option<&V>)
        ensures
            match res {
                Some(stored) => self@.contains_key(block_id@) && *stored == self@[block_id@],
                None => !self@.contains_key(block_id@),
            },
    {
        proof {
            use_type_invariant(self);
        }
        match self.position(block_id) {
            Some(i) => {
                proof {
                    lemma_map_at(self.ids@, self.blocks@, i as int);
                }
                Some(&self.blocks[i])
            },
            None => None,
        }
    }

    /// The block stored under `block_id`, if any, to be changed in place;
    /// whatever is written through it is what the storage then holds under
    /// `block_id`.
    pub fn retrieve_block_mut(&mut self, block_id: &BlockId) -> (res: Option<&mut V>)
        ensures
            match res {
                Some(stored) => old(self)@.contains_key(block_id@) && *stored == old(self)@[block_id@]
                    && final(self)@ == old(self)@.insert(block_id@, *final(stored)),
                None => !old(self)@.contains_key(block_id@) && final(self)@ == old(self)@,
            },
    {
        proof {
            use_type_invariant(&*self);
        }
        match self.position(block_id) {
            Some(i) => {
                let ghost ids = self.ids@;
                let ghost blocks = self.blocks@;
                proof {
                    lemma_map_at(ids, blocks, i as int);
                }
                let stored = &mut self.blocks[i];
                proof {
                    lemma_map_update(ids, blocks, i as int, *final(stored));
                }
                Some(stored)
            },
            None => None,
        }
    }

    /// Removes the blocks with the given identifiers; identifiers of blocks
    /// that are not stored are passed over.
    pub fn remove_blocks(&mut self, block_ids: &[BlockId])
        ensures
            final(self)@ == old(self)@.remove_keys(id_set(block_ids@)),
    {
        proof {
            use_type_invariant(&*self);
        }
        let ghost start = self@;
        let mut k: usize = 0;
        while k < block_ids.len()
            invariant
                k <= block_ids@.len(),
                self@ == start.remove_keys(id_set(block_ids@.take(k as int))),
            decreases block_ids@.len() - k,
        {
            proof {
                use_type_invariant(&*self);
            }
            let ghost before = self@;
            let id = &block_ids[k];
            match self.position(id) {
                Some(i) => {
                    let mut taken = Storage::new();
                    std::mem::swap(&mut taken, self);
                    proof {
                        use_type_invariant(&taken);
                    }
                    let Storage { mut ids, mut blocks } = taken;
                    proof {
                        lemma_map_remove(ids@, blocks@, i as int);
                    }
                    let _removed_id = ids.remove(i);
                    let _removed_block = blocks.remove(i);
                    *self = Storage { ids, blocks };
                },
                None => {
                    assert(!before.contains_key(id@));
                },
            }
            proof {
                assert(id_set(block_ids@.take(k + 1 as int)) =~= id_set(block_ids@.take(
                    k as int,
                )).insert(id@)) by {
                    assert forall|key: Seq<u8>| #[trigger]
                        id_set(block_ids@.take(k + 1 as int)).contains(key) implies id_set(
                        block_ids@.take(k as int),
                    ).insert(id@).contains(key) by {
                        let j = choose|j: int|
                            0 <= j < k + 1 && #[trigger] block_ids@.take(k + 1 as int)[j]@ == key;
                        if j < k {
                            assert(block_ids@.take(k as int)[j] == block_ids@[j]);
                        }
                    }
                    assert forall|key: Seq<u8>| #[trigger]
                        id_set(block_ids@.take(k as int)).contains(key) implies id_set(
                        block_ids@.take(k + 1 as int),
                    ).contains(key) by {
                        let j = choose|j: int|
                            0 <= j < k && #[trigger] block_ids@.take(k as int)[j]@ == key;
                        assert(block_ids@.take(k + 1 as int)[j] == block_ids@[j]);
                    }
                    assert(block_ids@.take(k + 1 as int)[k as int] == block_ids@[k as int]);
                }
                assert(self@ =~= start.remove_keys(id_set(block_ids@.take(k + 1 as int))));
            }
            k = k + 1;
        }
        assert(block_ids@.take(block_ids@.len() as int) =~= block_ids@);
    }
}

impl<B> Storage<StoredBlock<B>> {
    /// Stores a block, along with its serialized representation, under its
    /// identifier; a block already stored under that identifier is replaced,
    /// and no header is stored yet.
    pub fn store_block(&mut self, block_id: BlockId, block: B, serialized: Vec<u8>)
        ensures
            final(self)@ == spec_store_block(old(self)@, block_id@, block, serialized),
    {
        let stored = StoredBlock::new(block, serialized);
        self.store(block_id, stored);
    }
}

} // verus!
