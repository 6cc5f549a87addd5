use vstd::prelude::*;

use crate::block::BlockId;

verus! {

/// The kind of a report made of block identities alone.
#[derive(Debug, Clone, Copy, PartialEq, Eq, Structural)]
pub enum BlockReportType {
    Add,
    Remove,
    Full,
}

/// Block identities, in order.
#[derive(Debug, Clone)]
pub struct BlockList {
    pub blocks: Vec<BlockId>,
}

impl BlockList {
    pub fn new() -> (r: BlockList)
        ensures
            r.blocks@.len() == 0,
    {
        BlockList { blocks: Vec::new() }
    }

    pub fn push(&mut self, block: BlockId)
        ensures
            final(self).blocks@ == old(self).blocks@.push(block),
    {
        self.blocks.push(block);
    }
}

/// A report that names blocks by identity alone.
#[derive(Debug, Clone)]
pub struct BlockReport {
    pub ty: BlockReportType,
    pub body: BlockList,
}

impl BlockReport {
    pub fn new(ty: BlockReportType, body: BlockList) -> (r: BlockReport)
        ensures
            r.ty == ty,
            r.body.blocks@ == body.blocks@,
    {
        BlockReport { ty, body }
    }

    pub fn ty(&self) -> (r: BlockReportType)
        ensures
            r == self.ty,
    {
        self.ty
    }

    pub fn body(&self) -> (r: &BlockList)
        ensures
            r.blocks@ == self.body.blocks@,
    {
        &self.body
    }
}

impl Default for BlockList {
    fn default() -> (r: BlockList)
        ensures
            r.blocks@.len() == 0,
    {
        BlockList::new()
    }
}

} // verus!
