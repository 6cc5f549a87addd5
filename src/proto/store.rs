use vstd::prelude::*;

use crate::block::BlockId;
use crate::block::BlockReport;

verus! {

/// Messages between the control node and storage nodes.
#[derive(Debug)]
pub enum StoreProto {
    OpenBlockReq(OpenBlockReq),
    OpenBlockResp(OpenBlockResp),
    ReplicateBlockReq(ReplicateBlockReq),
    ReplicateBlockResp(ReplicateBlockResp),
    RemoveBlockReq(RemoveBlockReq),
    RemoveBlockResp(RemoveBlockResp),
    HeartbeatReq(HeartbeatReq),
    HeartbeatResp(HeartbeatResp),
    FullBlockReportReq(FullBlockReportReq),
    FullBlockReportResp(FullBlockReportResp),
}

#[derive(Debug, Clone, Copy)]
pub struct OpenBlockReq {
    pub block: BlockId,
    pub write: bool,
}

#[derive(Debug, Clone, Copy)]
pub struct OpenBlockResp {
    pub permitted: bool,
}

#[derive(Debug, Clone)]
pub struct ReplicateBlockReq {
    pub block: BlockId,
    pub store_addr: String,
}

#[derive(Debug, Clone, Copy)]
pub struct ReplicateBlockResp {}

#[derive(Debug, Clone, Copy)]
pub struct RemoveBlockReq {
    pub block: BlockId,
}

#[derive(Debug, Clone, Copy)]
pub struct RemoveBlockResp {}

#[derive(Debug, Clone, Copy)]
pub struct HeartbeatReq {}

#[derive(Debug, Clone, Copy)]
pub struct HeartbeatResp {}

#[derive(Debug, Clone, Copy)]
pub struct FullBlockReportReq {}

#[derive(Debug)]
pub struct FullBlockReportResp {
    pub report: BlockReport,
}

} // verus!
