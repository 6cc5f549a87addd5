use vstd::prelude::*;

use crate::block::{
    BlockBody, BlockId, BlockRecord, BlockReport, BlockReportType, ReplicatedBlock,
    ReplicatedBlocksMap, StoreId,
};
use crate::open_table::{OpenFileAttribute, OpenFileTable};
use crate::path::{parse, PathCursor, PathSplit};
use crate::proto::control::{
    AddBlockResp, AddBlockRespOk, ControlProto, OpenLeaseResp, OpenResp,
};
use crate::reconcile::{
    apply_add, apply_remove, corrupt_ids, lemma_add_keeps_bodies, lemma_remove_keeps_bodies,
    report_add, report_remove, strip, strip_below, strip_store,
};
use crate::store::{alive, StoreStatusesMap};
use crate::time::Tick;
use crate::tree::{
    add_block_outcome, changed_at, create_outcome, lookup, Change, CreateOutcome, FileBlock,
    FsNode, FsNodeBody, Lookup,
};

verus! {

/// How long an open entry survives without a lease, in milliseconds.
pub const OPEN_LEASE_TTL: u64 = 60000;

/// How long a storage node counts as alive after its last heartbeat, in milliseconds.
pub const STORE_LIVENESS_TTL: u64 = 30000;

/// The replication factor of files created by an open for writing.
pub const REPLICATION: usize = 3;

/// The answer to a control request.
#[derive(Debug)]
pub enum Resp {
    Empty,
    OpenResp(OpenResp),
    OpenLeaseResp(OpenLeaseResp),
    AllocBlockResp(AddBlockResp),
    BlockReportResp(Vec<BlockId>),
}

/// The control plane's whole state: namespace, open files, storage nodes and block replicas.
#[derive(Debug)]
pub struct Handler {
    pub virt_fs: FsNode,
    pub open_table: OpenFileTable,
    pub store_statuses: StoreStatusesMap,
    pub replicated_blocks: ReplicatedBlocksMap,
    pub next_block: BlockId,
}

/// The entry table after an open of `p` that was permitted.
pub open spec fn opened(
    t: Map<Seq<Seq<char>>, OpenFileAttribute>,
    p: Seq<Seq<char>>,
    write: bool,
    now: Tick,
) -> Map<Seq<Seq<char>>, OpenFileAttribute> {
    if t.contains_key(p) {
        t.insert(
            p,
            OpenFileAttribute {
                holders: if t[p].holders < usize::MAX {
                    (t[p].holders + 1) as usize
                } else {
                    t[p].holders
                },
                ..t[p]
            },
        )
    } else {
        t.insert(p, OpenFileAttribute { write, last_lease: now, holders: 1 })
    }
}

/// The namespace lets `p` be opened: for writing, the path is not the root and names an existing
/// file or can be created as one; for reading, it names an existing file.
pub open spec fn open_node_ok(fs: FsNode, p: Seq<Seq<char>>, write: bool) -> bool {
    match lookup(fs, p) {
        Lookup::Found(n) => n.body is File,
        _ => write && p.len() > 0 && create_outcome(fs, p) == CreateOutcome::Created,
    }
}

/// The holders of `p` admit the request: a writer excludes everyone, and anyone excludes a writer.
pub open spec fn open_table_ok(
    t: Map<Seq<Seq<char>>, OpenFileAttribute>,
    p: Seq<Seq<char>>,
    write: bool,
) -> bool {
    !(t.contains_key(p) && (t[p].write || write))
}

/// `new` is `old` with an empty file of replication `REPLICATION` added at `p`.
pub open spec fn file_created(old: FsNode, new: FsNode, p: Seq<Seq<char>>) -> bool {
    exists|n: FsNode|
        changed_at(old, new, p.drop_last(), Change::AddChild(p.last(), n)) && #[trigger] empty_file(n)
}

/// A well-formed file with no extents and replication `REPLICATION`.
pub open spec fn empty_file(n: FsNode) -> bool {
    &&& n.wf()
    &&& n.body matches FsNodeBody::File(f) && f.blocks@.len() == 0 && f.attr.spec_replication()
        == REPLICATION
}

/// Some registered storage node is alive at `now`.
pub open spec fn some_store_alive(h: Handler, now: Tick) -> bool {
    exists|k: Seq<char>|
        #[trigger] h.store_statuses.view().contains_key(k) && alive(
            h.store_statuses.view()[k].last_heartbeat,
            STORE_LIVENESS_TTL,
            now,
        )
}

/// An allocation of the extent `r` for the file at `p` can be granted.
pub open spec fn alloc_ok(h: Handler, p: Seq<Seq<char>>, r: (u64, u64), now: Tick) -> bool {
    &&& add_block_outcome(h.virt_fs, p, r) is None
    &&& r.1 - r.0 <= u32::MAX
    &&& h.next_block < u64::MAX
    &&& some_store_alive(h, now)
}

/// What an open of `path` does: it is permitted exactly when the namespace and the holders
/// admit it; a write to a missing file creates the file first.
pub open spec fn open_post(
    old: Handler,
    new: Handler,
    path: Seq<char>,
    write: bool,
    now: Tick,
    r: bool,
) -> bool {
    &&& r == (open_node_ok(old.virt_fs, parse(path), write) && open_table_ok(
            old.open_table.view(),
            parse(path),
            write,
        ))
    &&& r ==> new.open_table.view() == opened(
            old.open_table.view(),
            parse(path),
            write,
            now,
        )
    &&& !r ==> new.open_table.view() == old.open_table.view()
    &&& open_node_ok(old.virt_fs, parse(path), write) && !(lookup(
            old.virt_fs,
            parse(path),
        ) is Found) ==> file_created(old.virt_fs, new.virt_fs, parse(path))
    &&& !(open_node_ok(old.virt_fs, parse(path), write) && !(lookup(
            old.virt_fs,
            parse(path),
        ) is Found)) ==> new.virt_fs == old.virt_fs
    &&& new.store_statuses == old.store_statuses
    &&& new.replicated_blocks == old.replicated_blocks
    &&& new.next_block == old.next_block
}

/// What a lease on `path` does: it refreshes an open entry, and reports whether there was one.
pub open spec fn open_lease_post(
    old: Handler,
    new: Handler,
    path: Seq<char>,
    now: Tick,
    r: bool,
) -> bool {
    &&& r == old.open_table.view().contains_key(parse(path))
    &&& r ==> new.open_table.view() == old.open_table.view().insert(
            parse(path),
            OpenFileAttribute { last_lease: now, ..old.open_table.view()[parse(path)] },
        )
    &&& !r ==> new.open_table.view() == old.open_table.view()
    &&& new.virt_fs == old.virt_fs
    &&& new.store_statuses == old.store_statuses
    &&& new.replicated_blocks == old.replicated_blocks
    &&& new.next_block == old.next_block
}

/// What a close of `path` does: one holder fewer, the entry gone with the last.
pub open spec fn close_post(old: Handler, new: Handler, path: Seq<char>) -> bool {
    &&& !old.open_table.view().contains_key(parse(path)) ==> new.open_table.view() == old.open_table.view()
    &&& old.open_table.view().contains_key(parse(path)) && old.open_table.view()[parse(path)].holders == 1 ==> new.open_table.view()
            == old.open_table.view().remove(parse(path))
    &&& old.open_table.view().contains_key(parse(path)) && old.open_table.view()[parse(path)].holders > 1 ==> new.open_table.view()
            == old.open_table.view().insert(
            parse(path),
            OpenFileAttribute {
                holders: (old.open_table.view()[parse(path)].holders - 1) as usize,
                ..old.open_table.view()[parse(path)]
            },
        )
    &&& new.virt_fs == old.virt_fs
    &&& new.store_statuses == old.store_statuses
    &&& new.replicated_blocks == old.replicated_blocks
    &&& new.next_block == old.next_block
}

/// What an allocation does: a fresh identity, an extent appended to the file, and a new record
/// with no confirming store.
pub open spec fn alloc_block_post(old: Handler, new: Handler, path: Seq<char>, off_range: (u64, u64), now: Tick, r: AddBlockResp) -> bool {
    &&& r is Allocated <==> alloc_ok(old, parse(path), off_range, now)
    &&& r matches AddBlockResp::Allocated(ok) ==> {
            &&& ok.block == old.next_block
            &&& new.next_block == old.next_block + 1
            &&& changed_at(
                old.virt_fs,
                new.virt_fs,
                parse(path),
                Change::AddBlock(FileBlock { off_range, id: ok.block }),
            )
            &&& new.replicated_blocks@ == old.replicated_blocks@.insert(
                ok.block,
                BlockRecord {
                    body: BlockBody { size: (off_range.1 - off_range.0) as u32 },
                    stores: Seq::empty(),
                    virt_path: parse(path),
                },
            )
            &&& exists|k: Seq<char>|
                #[trigger] old.store_statuses.view().contains_key(k) && alive(
                    old.store_statuses.view()[k].last_heartbeat,
                    STORE_LIVENESS_TTL,
                    now,
                ) && old.store_statuses.view()[k].config.addr@ == ok.store_addr@
        }
    &&& r is Rejected ==> new.virt_fs == old.virt_fs && new.next_block
            == old.next_block && new.replicated_blocks@ == old.replicated_blocks@
    &&& new.open_table == old.open_table
    &&& new.store_statuses == old.store_statuses
}

/// What a block report from `store` does to the replica records, and the corrupt identities it
/// yields.
pub open spec fn block_report_post(
    old: Handler,
    new: Handler,
    store: Seq<char>,
    report: BlockReport,
    r: Seq<BlockId>,
) -> bool {
    &&& report.ty == BlockReportType::Add ==> new.replicated_blocks@ == apply_add(
            old.replicated_blocks@,
            store,
            report.body.blocks@,
        ) && r == corrupt_ids(old.replicated_blocks@, report.body.blocks@)
    &&& report.ty == BlockReportType::Remove ==> new.replicated_blocks@
            == apply_remove(old.replicated_blocks@, store, report.body.blocks@)
            && r.len() == 0
    &&& report.ty == BlockReportType::Full ==> new.replicated_blocks@ == apply_add(
            strip(old.replicated_blocks@, store),
            store,
            report.body.blocks@,
        ) && r == corrupt_ids(strip(old.replicated_blocks@, store), report.body.blocks@)
    &&& new.virt_fs == old.virt_fs
    &&& new.open_table == old.open_table
    &&& new.store_statuses == old.store_statuses
    &&& new.next_block == old.next_block
}

impl Handler {
    /// Each component is well formed and every known block has an identity below the next one
    /// to be minted.
    pub open spec fn wf(&self) -> bool {
        &&& self.virt_fs.wf()
        &&& self.open_table.wf()
        &&& self.store_statuses.wf()
        &&& forall|id: BlockId| #[trigger]
            self.replicated_blocks@.contains_key(id) ==> id < self.next_block
    }

    /// A handler over the given namespace, open files and storage nodes, with no block known yet.
    pub fn new(
        virt_fs: FsNode,
        open_table: OpenFileTable,
        store_statuses: StoreStatusesMap,
        replicated_blocks: ReplicatedBlocksMap,
    ) -> (r: Handler)
        requires
            virt_fs.wf(),
            open_table.wf(),
            store_statuses.wf(),
            replicated_blocks@ == Map::<BlockId, BlockRecord>::empty(),
        ensures
            r.wf(),
            r.virt_fs == virt_fs,
            r.open_table == open_table,
            r.store_statuses == store_statuses,
            r.replicated_blocks@ == replicated_blocks@,
            r.next_block == 0,
    {
        Handler { virt_fs, open_table, store_statuses, replicated_blocks, next_block: 0 }
    }

    /// Opens the file at `path`; an open for writing creates it when it is missing.
    pub fn open(&mut self, path: &str, write: bool, now: Tick) -> (r: bool)
        requires
            old(self).wf(),
        ensures
            final(self).wf(),
            open_post(*old(self), *final(self), path@, write, now, r),
    {
        let split = PathSplit::from_uri(path);
        let ghost p = split@;
        let probe = PathCursor::new(split.copied());
        let is_file = match self.virt_fs.get(probe) {
            Ok(n) => Some(n.is_file()),
            Err(_) => None,
        };
        match is_file {
            Some(true) => {},
            Some(false) => {
                return false;
            },
            None => {
                if !write {
                    return false;
                }
                let cursor = match PathCursor::new(split.copied()) {
                    Some(c) => c,
                    None => {
                        return false;
                    },
                };
                let node = FsNode::new_file(REPLICATION);
                let ghost n = node;
                let ghost cr = cursor.rest();
                match self.virt_fs.create_node(cursor, node) {
                    Ok(()) => {
                        assert(cr == p);
                        assert(empty_file(n));
                        assert(file_created(old(self).virt_fs, self.virt_fs, p));
                    },
                    Err(_) => {
                        return false;
                    },
                }
            },
        }
        self.open_table.open(split, write, now).is_ok()
    }

    /// Refreshes the lease on `path`; whether the path was open.
    pub fn open_lease(&mut self, path: &str, now: Tick) -> (r: bool)
        requires
            old(self).wf(),
        ensures
            final(self).wf(),
            open_lease_post(*old(self), *final(self), path@, now, r),
    {
        let split = PathSplit::from_uri(path);
        self.open_table.lease(&split, now).is_ok()
    }

    /// Releases one hold on `path`; a path that is not open is left alone.
    pub fn close(&mut self, path: &str)
        requires
            old(self).wf(),
        ensures
            final(self).wf(),
            close_post(*old(self), *final(self), path@),
    {
        let split = PathSplit::from_uri(path);
        self.open_table.close(&split);
    }

    /// Allocates a block for the extent `off_range` of the file at `path`: the extent must start
    /// where the file ends, its length must fit the 32-bit size that fingerprints the block, and
    /// a storage node must be alive to receive it. The first live node in registration order is
    /// chosen, and block identities are minted in increasing order.
    pub fn alloc_block(&mut self, path: &str, off_range: (u64, u64), now: Tick) -> (r: AddBlockResp)
        requires
            old(self).wf(),
        ensures
            final(self).wf(),
            alloc_block_post(*old(self), *final(self), path@, off_range, now, r),
    {
        let split = PathSplit::from_uri(path);
        if off_range.0 > off_range.1 || off_range.1 - off_range.0 > 0xffff_ffff {
            return AddBlockResp::Rejected;
        }
        if self.next_block == u64::MAX {
            return AddBlockResp::Rejected;
        }
        let store_addr = match self.store_statuses.first_alive(STORE_LIVENESS_TTL, now) {
            Some(a) => a,
            None => {
                return AddBlockResp::Rejected;
            },
        };
        let id = self.next_block;
        let cursor = PathCursor::new(split.copied());
        match self.virt_fs.add_block(cursor, off_range, id) {
            Ok(()) => {},
            Err(_) => {
                return AddBlockResp::Rejected;
            },
        }
        let size = (off_range.1 - off_range.0) as u32;
        self.replicated_blocks.insert(id, ReplicatedBlock::new(BlockBody::new(size), split));
        self.next_block = id + 1;
        AddBlockResp::Allocated(AddBlockRespOk { block: id, store_addr })
    }

    /// Takes a storage node's block report into account and returns the identities of the
    /// corrupt blocks it listed. An addition confirms each sound block once; a removal withdraws
    /// the node from each listed block; a full report withdraws it from every block and then
    /// confirms the listed ones.
    pub fn block_report(&mut self, store: &StoreId, report: &BlockReport) -> (r: Vec<BlockId>)
        requires
            old(self).wf(),
        ensures
            final(self).wf(),
            block_report_post(*old(self), *final(self), store@, *report, r@),
    {
        let ghost m0 = self.replicated_blocks@;
        match report.ty {
            BlockReportType::Add => {
                let r = report_add(&mut self.replicated_blocks, store, &report.body.blocks);
                proof {
                    lemma_add_keeps_bodies(m0, store@, report.body.blocks@);
                }
                r
            },
            BlockReportType::Remove => {
                report_remove(&mut self.replicated_blocks, store, &report.body.blocks);
                proof {
                    lemma_remove_keeps_bodies(m0, store@, report.body.blocks@);
                }
                Vec::new()
            },
            BlockReportType::Full => {
                strip_store(&mut self.replicated_blocks, store, self.next_block);
                proof {
                    assert(strip_below(m0, store@, self.next_block as int) =~= strip(m0, store@));
                }
                let ghost m1 = self.replicated_blocks@;
                let r = report_add(&mut self.replicated_blocks, store, &report.body.blocks);
                proof {
                    lemma_add_keeps_bodies(m1, store@, report.body.blocks@);
                }
                r
            },
        }
    }

    /// Stamps a heartbeat from `store`; a node that is not registered is ignored.
    pub fn heartbeat(&mut self, store: &StoreId, now: Tick) -> (r: bool)
        requires
            old(self).wf(),
        ensures
            final(self).wf(),
            r == old(self).store_statuses.view().contains_key(store@),
            r ==> final(self).store_statuses.view()[store@].last_heartbeat == Some(now),
            r ==> final(self).store_statuses.view() == old(self).store_statuses.view().insert(
                store@,
                crate::store::StoreStatus {
                    last_heartbeat: Some(now),
                    ..old(self).store_statuses.view()[store@]
                },
            ),
            !r ==> final(self).store_statuses.view() == old(self).store_statuses.view(),
            final(self).virt_fs == old(self).virt_fs,
            final(self).open_table == old(self).open_table,
            final(self).replicated_blocks == old(self).replicated_blocks,
            final(self).next_block == old(self).next_block,
    {
        self.store_statuses.heartbeat(store, now)
    }

    /// Whether `store` is registered and has beaten within the liveness window before `now`.
    pub fn is_alive(&self, store: &StoreId, now: Tick) -> (r: bool)
        requires
            self.wf(),
        ensures
            r == (self.store_statuses.view().contains_key(store@) && alive(
                self.store_statuses.view()[store@].last_heartbeat,
                STORE_LIVENESS_TTL,
                now,
            )),
    {
        self.store_statuses.is_alive(store, STORE_LIVENESS_TTL, now)
    }

    /// The periodic sweep: every open entry whose lease has lapsed is dropped.
    pub fn handle_timer(&mut self, now: Tick)
        requires
            old(self).wf(),
        ensures
            final(self).wf(),
            forall|k: Seq<Seq<char>>|
                #[trigger] final(self).open_table.view().contains_key(k) <==> old(self).open_table.view().contains_key(k) && !crate::open_table::timed_out(
                    old(self).open_table.view()[k],
                    OPEN_LEASE_TTL,
                    now,
                ),
            forall|k: Seq<Seq<char>>| #[trigger]
                final(self).open_table.view().contains_key(k) ==> final(self).open_table.view()[k]
                    == old(self).open_table.view()[k],
            final(self).virt_fs == old(self).virt_fs,
            final(self).store_statuses == old(self).store_statuses,
            final(self).replicated_blocks == old(self).replicated_blocks,
            final(self).next_block == old(self).next_block,
    {
        self.open_table.clear_timeout(OPEN_LEASE_TTL, now);
    }

    /// Answers one control request received at `now`.
    pub fn handle_req(&mut self, msg: ControlProto, now: Tick) -> (r: Resp)
        requires
            old(self).wf(),
        ensures
            final(self).wf(),
            msg matches ControlProto::OpenReq(q) ==> open_post(
                *old(self),
                *final(self),
                q.path@,
                q.write,
                now,
                r is Empty,
            ),
            msg matches ControlProto::OpenLeaseReq(q) ==> open_lease_post(
                *old(self),
                *final(self),
                q.path@,
                now,
                r matches Resp::OpenLeaseResp(x) && x.permitted,
            ),
            msg matches ControlProto::CloseReq(q) ==> close_post(*old(self), *final(self), q.path@),
            msg matches ControlProto::AddBlockReq(q) ==> r matches Resp::AllocBlockResp(a)
                && alloc_block_post(*old(self), *final(self), q.path@, q.off_range, now, a),
            msg matches ControlProto::BlockReportReq(q) ==> r matches Resp::BlockReportResp(v)
                && block_report_post(*old(self), *final(self), q.store@, q.report, v@),
            msg is OpenReq ==> r is Empty || r is OpenResp,
            msg is OpenLeaseReq ==> r is OpenLeaseResp,
            msg is CloseReq ==> r is Empty,
            msg is OpenResp ==> r is Empty && *final(self) == *old(self),
    {
        match msg {
            ControlProto::OpenReq(q) => {
                if self.open(&q.path, q.write, now) {
                    Resp::Empty
                } else {
                    Resp::OpenResp(OpenResp {  })
                }
            },
            ControlProto::OpenResp(_) => Resp::Empty,
            ControlProto::OpenLeaseReq(q) => {
                let permitted = self.open_lease(&q.path, now);
                Resp::OpenLeaseResp(OpenLeaseResp { permitted })
            },
            ControlProto::CloseReq(q) => {
                self.close(&q.path);
                Resp::Empty
            },
            ControlProto::AddBlockReq(q) => Resp::AllocBlockResp(
                self.alloc_block(&q.path, q.off_range, now),
            ),
            ControlProto::BlockReportReq(q) => Resp::BlockReportResp(
                self.block_report(&q.store, &q.report),
            ),
        }
    }
}

} // verus!
