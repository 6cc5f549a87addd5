use blockfs::block::{
    BlockBody, BlockList, BlockReport, BlockReportType, ReplicatedBlock, ReplicatedBlocksMap,
    ReportedBlock,
};
use blockfs::handler::{Handler, Resp, OPEN_LEASE_TTL};
use blockfs::open_table::{OpenFileAttribute, OpenFileTable};
use blockfs::path::{PathCursor, PathSplit};
use blockfs::proto::control::{
    AddBlockReq, AddBlockResp, BlockReportReq, CloseReq, ControlProto, OpenLeaseReq, OpenReq,
};
use blockfs::store::{StoreConfig, StoreStatus, StoreStatusesMap};
use blockfs::tree::FsNode;

fn p(s: &str) -> PathSplit {
    PathSplit::from_uri(s)
}

fn handler_with_a_f() -> Handler {
    let mut root = FsNode::new_directory();
    root.create_node(PathCursor::new(p("a")).unwrap(), FsNode::new_directory()).unwrap();
    root.create_node(PathCursor::new(p("a/f")).unwrap(), FsNode::new_file(3)).unwrap();
    let mut stores = StoreStatusesMap::new();
    stores.insert("s1".to_string(), StoreConfig::new("10.0.0.1:7000".to_string()));
    Handler::new(root, OpenFileTable::new(), stores, ReplicatedBlocksMap::new())
}

#[test]
fn allocation_scenario() {
    let mut h = handler_with_a_f();
    assert!(h.heartbeat(&"s1".to_string(), 0));
    let first = match h.alloc_block("a/f", (0, 100), 1) {
        AddBlockResp::Allocated(ok) => {
            assert_eq!(ok.store_addr, "10.0.0.1:7000");
            ok.block
        }
        AddBlockResp::Rejected => panic!("first block refused"),
    };
    assert!(matches!(h.alloc_block("a/f", (50, 150), 2), AddBlockResp::Rejected));
    match h.alloc_block("a/f", (100, 200), 3) {
        AddBlockResp::Allocated(ok) => assert_ne!(ok.block, first),
        AddBlockResp::Rejected => panic!("contiguous block refused"),
    }
    assert!(h.replicated_blocks.contains(first));
    assert!(h.replicated_blocks.stores(first).is_empty());
}

#[test]
fn allocation_needs_a_live_store_and_a_file() {
    let mut h = handler_with_a_f();
    assert!(matches!(h.alloc_block("a/f", (0, 100), 1), AddBlockResp::Rejected));
    h.heartbeat(&"s1".to_string(), 0);
    assert!(matches!(h.alloc_block("a/f", (0, 100), 40_000), AddBlockResp::Rejected));
    assert!(matches!(h.alloc_block("a", (0, 100), 1), AddBlockResp::Rejected));
    assert!(matches!(h.alloc_block("a/f", (0, 1 << 40), 1), AddBlockResp::Rejected));
    assert!(matches!(h.alloc_block("a/f", (0, 100), 1), AddBlockResp::Allocated(_)));
}

#[test]
fn liveness_scenario() {
    let mut stores = StoreStatusesMap::new();
    stores.insert("s1".to_string(), StoreConfig::new("h:1".to_string()));
    assert!(!stores.is_alive(&"s1".to_string(), 30_000, 0));
    assert!(stores.heartbeat(&"s1".to_string(), 0));
    assert!(!stores.is_alive(&"s1".to_string(), 30_000, 31_000));
    assert!(stores.is_alive(&"s1".to_string(), 30_000, 29_000));
    assert!(stores.is_alive(&"s1".to_string(), 30_000, 30_000));
    assert!(!stores.heartbeat(&"s2".to_string(), 0));
    assert!(!stores.is_alive(&"s2".to_string(), 30_000, 0));
}

#[test]
fn store_status_beats() {
    let mut s = StoreStatus::new(StoreConfig::new("h:1".to_string()));
    assert!(!s.is_alive(10, 0));
    s.beat(100);
    assert!(s.is_alive(10, 110));
    assert!(!s.is_alive(10, 111));
    assert!(s.is_alive(10, 50));
    assert_eq!(s.config().addr(), "h:1");
}

#[test]
fn write_exclusion_scenario() {
    let mut h = handler_with_a_f();
    assert!(h.open("a/f", true, 0));
    assert!(!h.open("a/f", true, 0));
    h.close("a/f");
    assert!(h.open("a/f", true, 2));
}

#[test]
fn open_for_write_creates_missing_file() {
    let mut h = handler_with_a_f();
    assert!(h.open("a/new", true, 0));
    assert!(h.virt_fs.get(PathCursor::new(p("a/new"))).unwrap().is_file());
    assert!(!h.open("b/new", true, 0));
    assert!(!h.open("a", true, 0));
    assert!(!h.open("/", true, 0));
    assert!(!h.open("a/missing", false, 0));
    assert!(!h.open("a", false, 0));
}

#[test]
fn readers_share_and_exclude_writers() {
    let mut t = OpenFileTable::new();
    assert!(t.open(p("x"), false, 0).is_ok());
    assert!(t.open(p("x"), false, 1).is_ok());
    assert_eq!(t.get(&p("x")).unwrap().holders, 2);
    assert!(t.open(p("x"), true, 1).is_err());
    assert!(t.open(p("y"), true, 1).is_ok());
    assert!(t.open(p("y"), false, 1).is_err());
    assert!(t.open(p("y"), true, 1).is_err());
}

#[test]
fn close_counts_down_and_ignores_unknown() {
    let mut t = OpenFileTable::new();
    t.close(&p("x"));
    assert!(t.get(&p("x")).is_none());
    t.open(p("x"), false, 0).unwrap();
    t.open(p("x"), false, 0).unwrap();
    t.close(&p("x"));
    assert_eq!(t.get(&p("x")).unwrap().holders, 1);
    t.close(&p("x"));
    assert!(t.get(&p("x")).is_none());
    t.close(&p("x"));
    assert!(t.get(&p("x")).is_none());
}

#[test]
fn sweep_evicts_lapsed_leases_only() {
    let mut t = OpenFileTable::new();
    t.open(p("old"), false, 0).unwrap();
    t.open(p("old"), false, 0).unwrap();
    t.open(p("fresh"), true, 0).unwrap();
    assert!(t.lease(&p("fresh"), 50).is_ok());
    assert!(t.lease(&p("none"), 50).is_err());
    t.clear_timeout(60, 100);
    assert!(t.get(&p("old")).is_none());
    assert_eq!(t.get(&p("fresh")).unwrap().last_lease, 50);
    t.clear_timeout(60, 110);
    assert!(t.get(&p("fresh")).is_some());
    t.clear_timeout(60, 111);
    assert!(t.get(&p("fresh")).is_none());
}

#[test]
fn attribute_holders() {
    let mut a = OpenFileAttribute::new(false, 5);
    a.read();
    assert_eq!(a.holders, 2);
    a.close();
    a.close();
    assert!(a.is_free());
    a.close();
    assert_eq!(a.holders, 0);
    let mut w = OpenFileAttribute::new(true, 5);
    w.read();
    assert_eq!(w.holders, 1);
    assert!(w.write());
    w.lease(9);
    assert!(!w.is_timeout(3, 12));
    assert!(w.is_timeout(3, 13));
    assert!(!w.is_timeout(3, 0));
}

fn sized(id: u64, size: u32) -> ReportedBlock {
    ReportedBlock::new(id, BlockBody::new(size))
}

#[test]
fn push_store_checks_fingerprint() {
    let mut m = ReplicatedBlocksMap::new();
    m.insert(1, ReplicatedBlock::new(BlockBody::new(100), p("a/f")));
    assert!(m.push_store("s1".to_string(), sized(1, 100)).is_ok());
    assert_eq!(m.stores(1), &["s1".to_string()]);
    match m.push_store("s2".to_string(), sized(1, 99)) {
        Err(e) => assert_eq!(e.store, "s2"),
        Ok(()) => panic!("mismatch accepted"),
    }
    assert!(m.push_store("s3".to_string(), sized(2, 100)).is_err());
    assert_eq!(m.stores(1).len(), 1);
    assert!(m.stores(2).is_empty());
    assert!(m.push_store("s1".to_string(), sized(1, 100)).is_ok());
    assert_eq!(m.stores(1).len(), 2);
    m.remove_store(1, &"s1".to_string());
    assert!(m.stores(1).is_empty());
    m.remove(1);
    assert!(!m.contains(1));
}

#[test]
fn replicated_block_push() {
    let mut b = ReplicatedBlock::new(BlockBody::new(8), p("x/y"));
    assert!(b.push("s".to_string(), &BlockBody::new(8)).is_ok());
    assert!(b.push("t".to_string(), &BlockBody::new(9)).is_err());
    assert_eq!(b.stores().len(), 1);
    assert_eq!(b.body().size(), 8);
    assert_eq!(b.virt_path(), &p("x/y"));
}

fn report(ty: BlockReportType, blocks: &[ReportedBlock]) -> BlockReport {
    let mut l = BlockList::new();
    for b in blocks {
        l.push(*b);
    }
    BlockReport::new(ty, l)
}

#[test]
fn block_reports_reconcile() {
    let mut h = handler_with_a_f();
    h.heartbeat(&"s1".to_string(), 0);
    let id = match h.alloc_block("a/f", (0, 100), 0) {
        AddBlockResp::Allocated(ok) => ok.block,
        AddBlockResp::Rejected => panic!("refused"),
    };
    let s1 = "s1".to_string();
    let bad = h.block_report(&s1, &report(BlockReportType::Add, &[sized(id, 100), sized(id, 100), sized(id, 5), sized(77, 1)]));
    assert_eq!(bad, vec![id, 77]);
    assert_eq!(h.replicated_blocks.stores(id).len(), 1);
    h.block_report(&s1, &report(BlockReportType::Remove, &[sized(id, 100)]));
    assert!(h.replicated_blocks.stores(id).is_empty());
    h.block_report(&s1, &report(BlockReportType::Full, &[sized(id, 100)]));
    assert_eq!(h.replicated_blocks.stores(id).len(), 1);
    h.block_report(&s1, &report(BlockReportType::Full, &[]));
    assert!(h.replicated_blocks.stores(id).is_empty());
}

#[test]
fn requests_dispatch() {
    let mut h = handler_with_a_f();
    h.heartbeat(&"s1".to_string(), 0);
    let r = h.handle_req(ControlProto::OpenReq(OpenReq { write: true, path: "a/f".to_string() }), 0);
    assert!(matches!(r, Resp::Empty));
    let r = h.handle_req(ControlProto::OpenReq(OpenReq { write: false, path: "a/f".to_string() }), 0);
    assert!(matches!(r, Resp::OpenResp(_)));
    let r = h.handle_req(ControlProto::OpenLeaseReq(OpenLeaseReq { path: "a/f".to_string() }), 5);
    assert!(matches!(r, Resp::OpenLeaseResp(x) if x.permitted));
    let r = h.handle_req(ControlProto::AddBlockReq(AddBlockReq { path: "a/f".to_string(), off_range: (0, 10) }), 5);
    assert!(matches!(r, Resp::AllocBlockResp(AddBlockResp::Allocated(_))));
    let r = h.handle_req(
        ControlProto::BlockReportReq(BlockReportReq { store: "s1".to_string(), report: report(BlockReportType::Add, &[sized(0, 10)]) }),
        5,
    );
    assert!(matches!(r, Resp::BlockReportResp(v) if v.is_empty()));
    h.handle_timer(5 + OPEN_LEASE_TTL + 1);
    let r = h.handle_req(ControlProto::OpenLeaseReq(OpenLeaseReq { path: "a/f".to_string() }), 70_000);
    assert!(matches!(r, Resp::OpenLeaseResp(x) if !x.permitted));
    let r = h.handle_req(ControlProto::CloseReq(CloseReq { path: "a/f".to_string() }), 70_000);
    assert!(matches!(r, Resp::Empty));
}

#[test]
fn store_get_mut_updates_in_place() {
    let mut stores = StoreStatusesMap::new();
    stores.insert("s1".to_string(), StoreConfig::new("h:1".to_string()));
    assert!(stores.get_mut(&"s9".to_string()).is_none());
    stores.get_mut(&"s1".to_string()).unwrap().beat(7);
    assert_eq!(stores.get(&"s1".to_string()).unwrap().last_heartbeat, Some(7));
    assert!(stores.contains(&"s1".to_string()));
}
