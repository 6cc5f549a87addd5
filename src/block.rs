use vstd::prelude::*;

use std::collections::HashMap;

use crate::path::PathSplit;

verus! {

/// Identity of a block: minted once at allocation and never reused.
pub type BlockId = u64;

/// Identity of a storage node.
pub type StoreId = String;

/// The authoritative fingerprint of a block's content: its size in bytes.
#[derive(Debug, Clone, Copy, PartialEq, Eq, Structural)]
pub struct BlockBody {
    pub size: u32,
}

impl BlockBody {
    pub fn new(size: u32) -> (r: BlockBody)
        ensures
            r.size == size,
    {
        BlockBody { size }
    }

    pub fn size(&self) -> (r: u32)
        ensures
            r == self.size,
    {
        self.size
    }
}

/// A block as a storage node reports it.
#[derive(Debug, Clone, Copy)]
pub struct ReportedBlock {
    pub id: BlockId,
    pub body: BlockBody,
}

impl ReportedBlock {
    pub fn new(id: BlockId, body: BlockBody) -> (r: ReportedBlock)
        ensures
            r.id == id && r.body == body,
    {
        ReportedBlock { id, body }
    }

    pub fn id(&self) -> (r: BlockId)
        ensures
            r == self.id,
    {
        self.id
    }

    pub fn body(&self) -> (r: &BlockBody)
        ensures
            *r == self.body,
    {
        &self.body
    }
}

/// A store reported a block that is unknown or whose fingerprint differs from the
/// authoritative one.
#[derive(Debug)]
pub struct CorruptedBlockError {
    pub store: StoreId,
}

/// What the map knows of one block: its fingerprint, the stores that confirmed holding it, in the
/// order they reported, and the path of the file it belongs to.
pub ghost struct BlockRecord {
    pub body: BlockBody,
    pub stores: Seq<Seq<char>>,
    pub virt_path: Seq<Seq<char>>,
}

/// One block with its confirming stores.
#[derive(Debug)]
pub struct ReplicatedBlock {
    body: BlockBody,
    stores: Vec<StoreId>,
    virt_path: PathSplit,
}

impl View for ReplicatedBlock {
    type V = BlockRecord;

    closed spec fn view(&self) -> BlockRecord {
        BlockRecord {
            body: self.body,
            stores: self.stores@.map_values(|s: String| s@),
            virt_path: self.virt_path@,
        }
    }
}

impl ReplicatedBlock {
    /// A freshly allocated block: no store has confirmed it yet.
    pub fn new(body: BlockBody, virt_path: PathSplit) -> (r: ReplicatedBlock)
        ensures
            r@ == (BlockRecord { body, stores: Seq::empty(), virt_path: virt_path@ }),
    {
        let r = ReplicatedBlock { body, stores: Vec::new(), virt_path };
        assert(r@.stores =~= Seq::<Seq<char>>::empty());
        r
    }

    pub fn body(&self) -> (r: &BlockBody)
        ensures
            *r == self@.body,
    {
        &self.body
    }

    pub fn stores(&self) -> (r: &[StoreId])
        ensures
            r@.map_values(|s: String| s@) == self@.stores,
    {
        self.stores.as_slice()
    }

    pub fn virt_path(&self) -> (r: &PathSplit)
        ensures
            r@ == self@.virt_path,
    {
        &self.virt_path
    }

    /// Records that `store` holds the block, when the fingerprint it reports is the
    /// authoritative one; a different one is corruption and changes nothing.
    pub fn push(&mut self, store: StoreId, body: &BlockBody) -> (r: Result<(), CorruptedBlockError>)
        ensures
            r is Ok <==> *body == old(self)@.body,
            r matches Err(e) ==> e.store@ == store@,
            r is Err ==> final(self)@ == old(self)@,
            r is Ok ==> final(self)@ == (BlockRecord {
                stores: old(self)@.stores.push(store@),
                ..old(self)@
            }),
    {
        if self.body != *body {
            return Err(CorruptedBlockError { store });
        }
        let ghost s0 = self.stores@;
        self.stores.push(store);
        proof {
            assert(self.stores@.map_values(|s: String| s@) =~= s0.map_values(|s: String| s@).push(
                self.stores@.last()@,
            ));
        }
        Ok(())
    }

    /// Forgets every confirmation from `store`.
    pub fn drop_store(&mut self, store: &StoreId)
        ensures
            final(self)@ == (BlockRecord {
                stores: old(self)@.stores.filter(|s: Seq<char>| s != store@),
                ..old(self)@
            }),
    {
        let mut kept: Vec<StoreId> = Vec::new();
        let mut i: usize = 0;
        let ghost all = self.stores@.map_values(|s: String| s@);
        while i < self.stores.len()
            invariant
                i <= self.stores@.len(),
                all == self.stores@.map_values(|s: String| s@),
                kept@.map_values(|s: String| s@) == all.take(i as int).filter(
                    |s: Seq<char>| s != store@,
                ),
            decreases self.stores@.len() - i,
        {
            proof {
                assert(all.take(i + 1).drop_last() =~= all.take(i as int));
                all.take(i as int).lemma_filter_push(all[i as int], |s: Seq<char>| s != store@);
                assert(all.take(i + 1) =~= all.take(i as int).push(all[i as int]));
            }
            if self.stores[i] != *store {
                let ghost k0 = kept@;
                kept.push(self.stores[i].clone());
                proof {
                    assert(kept@.map_values(|s: String| s@) =~= k0.map_values(|s: String| s@).push(
                        all[i as int],
                    ));
                }
            }
            i = i + 1;
        }
        proof {
            assert(all.take(i as int) =~= all);
        }
        self.stores = kept;
    }
}

/// The authoritative record of every allocated block.
#[derive(Debug)]
pub struct ReplicatedBlocksMap {
    map: HashMap<BlockId, ReplicatedBlock>,
}

impl View for ReplicatedBlocksMap {
    type V = Map<BlockId, BlockRecord>;

    closed spec fn view(&self) -> Map<BlockId, BlockRecord> {
        self.map@.map_values(|b: ReplicatedBlock| b@)
    }
}

impl ReplicatedBlocksMap {
    pub fn new() -> (r: ReplicatedBlocksMap)
        ensures
            r@ == Map::<BlockId, BlockRecord>::empty(),
    {
        let r = ReplicatedBlocksMap { map: HashMap::new() };
        assert(r@ =~= Map::<BlockId, BlockRecord>::empty());
        r
    }

    pub fn contains(&self, id: BlockId) -> (r: bool)
        ensures
            r == self@.contains_key(id),
    {
        self.map.contains_key(&id)
    }

    /// Records a newly allocated block; its identity must be new.
    pub fn insert(&mut self, id: BlockId, block: ReplicatedBlock)
        requires
            !old(self)@.contains_key(id),
        ensures
            final(self)@ == old(self)@.insert(id, block@),
    {
        self.map.insert(id, block);
        assert(self@ =~= old(self)@.insert(id, block@));
    }

    /// Forgets a block that is known.
    pub fn remove(&mut self, id: BlockId)
        requires
            old(self)@.contains_key(id),
        ensures
            final(self)@ == old(self)@.remove(id),
    {
        let _ = self.map.remove(&id);
        assert(self@ =~= old(self)@.remove(id));
    }

    /// Checks a reported block against the authoritative one and, when they agree, appends
    /// `store` to its confirming stores. An unknown block or a different fingerprint is
    /// corruption and changes nothing.
    pub fn push_store(&mut self, store: StoreId, block: ReportedBlock) -> (r: Result<
        (),
        CorruptedBlockError,
    >)
        ensures
            r is Ok <==> old(self)@.contains_key(block.id) && old(self)@[block.id].body
                == block.body,
            r matches Err(e) ==> e.store@ == store@,
            r is Err ==> final(self)@ == old(self)@,
            r is Ok ==> final(self)@ == old(self)@.insert(
                block.id,
                BlockRecord {
                    stores: old(self)@[block.id].stores.push(store@),
                    ..old(self)@[block.id]
                },
            ),
    {
        let id = block.id;
        match self.map.remove(&id) {
            None => {
                assert(!old(self)@.contains_key(id));
                Err(CorruptedBlockError { store })
            },
            Some(b) => {
                let mut b = b;
                let res = b.push(store, &block.body);
                self.map.insert(id, b);
                proof {
                    assert(old(self).map@.remove(id).insert(id, b) =~= old(self).map@.insert(id, b));
                    if res is Err {
                        assert(self@ =~= old(self)@);
                    } else {
                        assert(self@ =~= old(self)@.insert(id, b@));
                    }
                }
                res
            },
        }
    }

    /// Forgets the confirmation of block `id` by `store`; an unknown block is left alone.
    pub fn remove_store(&mut self, id: BlockId, store: &StoreId)
        ensures
            !old(self)@.contains_key(id) ==> final(self)@ == old(self)@,
            old(self)@.contains_key(id) ==> final(self)@ == old(self)@.insert(
                id,
                BlockRecord {
                    stores: old(self)@[id].stores.filter(|s: Seq<char>| s != store@),
                    ..old(self)@[id]
                },
            ),
    {
        match self.map.remove(&id) {
            None => {
                assert(self@ =~= old(self)@);
            },
            Some(b) => {
                let mut b = b;
                b.drop_store(store);
                self.map.insert(id, b);
                assert(self@ =~= old(self)@.insert(id, b@));
            },
        }
    }

    /// Whether block `b.id` is known with the fingerprint that `b` carries.
    pub fn matches(&self, b: &ReportedBlock) -> (r: bool)
        ensures
            r == (self@.contains_key(b.id) && self@[b.id].body == b.body),
    {
        match self.map.get(&b.id) {
            Some(rb) => rb.body == b.body,
            None => false,
        }
    }

    /// Whether `store` is among the confirming stores of block `id`.
    pub fn confirmed_by(&self, id: BlockId, store: &StoreId) -> (r: bool)
        ensures
            r == (self@.contains_key(id) && self@[id].stores.contains(store@)),
    {
        let stores = self.stores(id);
        let mut i: usize = 0;
        while i < stores.len()
            invariant
                i <= stores@.len(),
                self@.contains_key(id) ==> stores@.map_values(|s: String| s@) == self@[id].stores,
                !self@.contains_key(id) ==> stores@.len() == 0,
                forall|j: int| 0 <= j < i ==> (#[trigger] stores@[j])@ != store@,
            decreases stores@.len() - i,
        {
            if stores[i] == *store {
                proof {
                    assert(self@.contains_key(id));
                    assert(stores@.map_values(|s: String| s@)[i as int] == store@);
                    assert(self@[id].stores[i as int] == store@);
                }
                return true;
            }
            i = i + 1;
        }
        proof {
            if self@.contains_key(id) && self@[id].stores.contains(store@) {
                let k = choose|k: int| 0 <= k < self@[id].stores.len() && self@[id].stores[k] == store@;
                assert(stores@.map_values(|s: String| s@)[k] == store@);
            }
        }
        false
    }

    /// The stores that confirmed block `id`; none for an unknown block.
    pub fn stores(&self, id: BlockId) -> (r: &[StoreId])
        ensures
            self@.contains_key(id) ==> r@.map_values(|s: String| s@) == self@[id].stores,
            !self@.contains_key(id) ==> r@.len() == 0,
    {
        match self.map.get(&id) {
            Some(b) => b.stores(),
            None => &[],
        }
    }
}

/// The kind of a block report: blocks gained, blocks lost, or everything held.
#[derive(Debug, Clone, Copy, PartialEq, Eq, Structural)]
pub enum BlockReportType {
    Add,
    Remove,
    Full,
}

/// The blocks listed in a report, in order.
#[derive(Debug, Clone)]
pub struct BlockList {
    pub blocks: Vec<ReportedBlock>,
}

impl BlockList {
    pub fn new() -> (r: BlockList)
        ensures
            r.blocks@.len() == 0,
    {
        BlockList { blocks: Vec::new() }
    }

    pub fn push(&mut self, block: ReportedBlock)
        ensures
            final(self).blocks@ == old(self).blocks@.push(block),
    {
        self.blocks.push(block);
    }
}

/// A storage node's declaration of blocks it holds.
#[derive(Debug, Clone)]
pub struct BlockReport {
    pub ty: BlockReportType,
    pub body: BlockList,
}

impl BlockReport {
    pub fn new(ty: BlockReportType, body: BlockList) -> (r: BlockReport)
        ensures
            r.ty == ty,
            r.body.blocks@ == body.blocks@,
    {
        BlockReport { ty, body }
    }

    pub fn ty(&self) -> (r: BlockReportType)
        ensures
            r == self.ty,
    {
        self.ty
    }

    pub fn body(&self) -> (r: &BlockList)
        ensures
            r.blocks@ == self.body.blocks@,
    {
        &self.body
    }
}

impl Default for ReplicatedBlocksMap {
    fn default() -> (r: ReplicatedBlocksMap)
        ensures
            r@ == Map::<BlockId, BlockRecord>::empty(),
    {
        ReplicatedBlocksMap::new()
    }
}

impl Default for BlockList {
    fn default() -> (r: BlockList)
        ensures
            r.blocks@.len() == 0,
    {
        BlockList::new()
    }
}

} // verus!
