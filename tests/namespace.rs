use blockfs::path::{PathCursor, PathSplit};
use blockfs::tree::{
    FileAttribute, FsNode, FsNodeAddBlockError, FsNodeBody, FsNodeCreateFileError,
    FsNodeQueryError, File, Directory, DirectoryAttribute,
};

fn cursor(s: &str) -> Option<PathCursor> {
    PathCursor::new(PathSplit::from_uri(s))
}

fn segs(s: &str) -> Vec<String> {
    PathSplit::from_uri(s).segs().clone()
}

#[test]
fn parse_drops_blank_segments() {
    assert_eq!(segs("/a/b/c"), vec!["a", "b", "c"]);
    assert_eq!(segs("  /a//b / "), vec!["a", "b "]);
    assert_eq!(segs("a/ /b"), vec!["a", "b"]);
    assert!(segs("").is_empty());
    assert!(segs(" / // ").is_empty());
    assert_eq!(segs("\u{3000}x\u{3000}"), vec!["x"]);
}

#[test]
fn path_equality_is_by_segments() {
    assert_eq!(PathSplit::from_uri("/a/b"), PathSplit::from_uri("a//b/"));
    assert_ne!(PathSplit::from_uri("/a/b"), PathSplit::from_uri("a/c"));
}

#[test]
fn cursor_walks_segments() {
    assert!(cursor("  ").is_none());
    let c = cursor("x/y").unwrap();
    assert_eq!(c.curr(), "x");
    let n = c.next().unwrap();
    assert_eq!(n.curr(), "y");
    assert!(n.next().is_none());
}

fn sample_tree() -> FsNode {
    let mut root = FsNode::new_directory();
    root.create_node(cursor("a").unwrap(), FsNode::new_directory()).unwrap();
    root.create_node(cursor("a/f").unwrap(), FsNode::new_file(3)).unwrap();
    root
}

#[test]
fn create_refuses_duplicate_names() {
    let mut root = sample_tree();
    let r = root.create_node(cursor("a/f").unwrap(), FsNode::new_directory());
    assert!(matches!(r, Err(FsNodeCreateFileError::FileExist(_))));
    let r = root.create_node(cursor("a").unwrap(), FsNode::new_file(1));
    assert!(matches!(r, Err(FsNodeCreateFileError::FileExist(_))));
    let names: Vec<usize> = root.list(None).unwrap().iter().map(|_| 1).collect();
    assert_eq!(names.len(), 1);
}

#[test]
fn create_needs_existing_directories() {
    let mut root = sample_tree();
    let r = root.create_node(cursor("b/g").unwrap(), FsNode::new_file(3));
    match r {
        Err(FsNodeCreateFileError::DirectoryNotExist(e)) => assert_eq!(e.path.curr(), "b"),
        _ => panic!("expected a missing directory"),
    }
    let r = root.create_node(cursor("a/f/g").unwrap(), FsNode::new_file(3));
    match r {
        Err(FsNodeCreateFileError::DirectoryNotExist(e)) => assert_eq!(e.path.curr(), "g"),
        _ => panic!("expected a file in the way"),
    }
}

#[test]
fn get_reports_where_descent_fails() {
    let root = sample_tree();
    assert!(root.get(cursor("a/f")).unwrap().is_file());
    assert!(!root.get(cursor("a")).unwrap().is_file());
    assert!(!root.get(None).unwrap().is_file());
    match root.get(cursor("a/x")) {
        Err(FsNodeQueryError::FileNotExist(e)) => assert_eq!(e.path.curr(), "x"),
        _ => panic!("expected a missing child"),
    }
    match root.get(cursor("a/f/z")) {
        Err(FsNodeQueryError::DirectoryNotExist(e)) => assert_eq!(e.path.curr(), "z"),
        _ => panic!("expected a file in the way"),
    }
}

#[test]
fn list_visits_children_or_file() {
    let mut root = sample_tree();
    root.create_node(cursor("a/g").unwrap(), FsNode::new_file(2)).unwrap();
    assert_eq!(root.list(cursor("a")).unwrap().len(), 2);
    let files = root.list(cursor("a/g")).unwrap();
    assert_eq!(files.len(), 1);
    assert!(files[0].is_file());
    assert!(root.list(cursor("q")).is_err());
}

#[test]
fn extents_must_be_contiguous() {
    let mut root = sample_tree();
    assert!(root.add_block(cursor("a/f"), (0, 100), 7).is_ok());
    match root.add_block(cursor("a/f"), (50, 150), 8) {
        Err(FsNodeAddBlockError::NonContiguous(e)) => assert_eq!(e.expected_start, 100),
        _ => panic!("expected a gap or overlap"),
    }
    assert!(matches!(root.add_block(cursor("a/f"), (150, 140), 8), Err(FsNodeAddBlockError::NonContiguous(_))));
    assert!(root.add_block(cursor("a/f"), (100, 200), 8).is_ok());
    assert!(matches!(root.add_block(cursor("a"), (0, 10), 9), Err(FsNodeAddBlockError::NotAFile)));
    assert!(matches!(root.add_block(cursor("a/zz"), (0, 10), 9), Err(FsNodeAddBlockError::Query(_))));
    match root.get(cursor("a/f")).unwrap().body() {
        FsNodeBody::File(f) => {
            let ranges: Vec<(u64, u64)> = f.blocks().iter().map(|b| b.off_range()).collect();
            assert_eq!(ranges, vec![(0, 100), (100, 200)]);
            assert_eq!(f.blocks()[1].id(), 8);
            assert_eq!(f.attr().replication(), 3);
        }
        FsNodeBody::Directory(_) => panic!("expected a file"),
    }
}

#[test]
fn first_extent_starts_at_zero() {
    let mut f = File::new(FileAttribute::new(2));
    assert!(f.append_block((5, 10), 1).is_err());
    assert!(f.append_block((0, 0), 1).is_ok());
    assert!(f.append_block((0, 10), 2).is_ok());
    assert_eq!(f.blocks().len(), 2);
}

#[test]
fn directory_insert_hands_node_back() {
    let mut d = Directory::new(DirectoryAttribute {});
    assert!(d.insert("x".to_string(), FsNode::new_file(1)).is_ok());
    match d.insert("x".to_string(), FsNode::new_file(5)) {
        Err(e) => assert!(e.node.is_file()),
        Ok(()) => panic!("duplicate accepted"),
    }
    assert_eq!(d.nodes().len(), 1);
}

#[test]
fn replication_can_change() {
    let mut a = FileAttribute::new(3);
    a.set_replication(5);
    assert_eq!(a.replication(), 5);
}

#[test]
fn get_mut_reaches_the_node() {
    let mut root = sample_tree();
    match root.get_mut(cursor("a/f")).unwrap().body_mut() {
        FsNodeBody::File(f) => f.blocks_mut().push(blockfs::tree::FileBlock::new((0, 4), 11)),
        FsNodeBody::Directory(_) => panic!("expected a file"),
    }
    match root.get(cursor("a/f")).unwrap().body() {
        FsNodeBody::File(f) => assert_eq!(f.blocks()[0].id(), 11),
        FsNodeBody::Directory(_) => panic!("expected a file"),
    }
    assert!(matches!(root.get_mut(cursor("a/q")), Err(FsNodeQueryError::FileNotExist(_))));
    assert!(matches!(root.get_mut(cursor("a/f/q")), Err(FsNodeQueryError::DirectoryNotExist(_))));
    match root.get_mut(cursor("a")).unwrap().body_mut() {
        FsNodeBody::Directory(d) => assert_eq!(d.nodes_mut().len(), 1),
        FsNodeBody::File(_) => panic!("expected a directory"),
    }
}
