use vstd::prelude::*;

use crate::block::{BlockId, StoreId};
use crate::block::BlockReport;

verus! {

/// Messages between clients and the control node.
#[derive(Debug)]
pub enum ControlProto {
    OpenReq(OpenReq),
    OpenResp(OpenResp),
    OpenLeaseReq(OpenLeaseReq),
    CloseReq(CloseReq),
    AddBlockReq(AddBlockReq),
    BlockReportReq(BlockReportReq),
}

#[derive(Debug, Clone)]
pub struct OpenReq {
    pub write: bool,
    pub path: String,
}

/// The answer to an open that was refused.
#[derive(Debug, Clone, Copy)]
pub struct OpenResp {}

#[derive(Debug, Clone)]
pub struct OpenLeaseReq {
    pub path: String,
}

#[derive(Debug, Clone, Copy)]
pub struct OpenLeaseResp {
    pub permitted: bool,
}

#[derive(Debug, Clone)]
pub struct CloseReq {
    pub path: String,
}

#[derive(Debug, Clone)]
pub struct DeleteFile {
    pub path: String,
}

#[derive(Debug, Clone)]
pub struct DeleteDirectory {
    pub path: String,
}

/// Asks for a new block holding the byte range `off_range` of the file at `path`.
#[derive(Debug)]
pub struct AddBlockReq {
    pub path: String,
    pub off_range: (u64, u64),
}

#[derive(Debug, Clone)]
pub enum AddBlockResp {
    Allocated(AddBlockRespOk),
    Rejected,
}

/// The new block and the address of the storage node to write it to.
#[derive(Debug, Clone)]
pub struct AddBlockRespOk {
    pub block: BlockId,
    pub store_addr: String,
}

/// A storage node's report of the blocks it holds.
#[derive(Debug)]
pub struct BlockReportReq {
    pub store: StoreId,
    pub report: BlockReport,
}

} // verus!
