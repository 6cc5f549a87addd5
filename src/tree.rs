use vstd::prelude::*;

use crate::block::BlockId;
use crate::path::{remaining, PathCursor};

verus! {

/// Attributes of a namespace node; none are tracked yet.
#[derive(Debug, Clone, Copy)]
pub struct FsNodeAttribute {}

impl FsNodeAttribute {
    pub fn new() -> (r: FsNodeAttribute) {
        FsNodeAttribute {  }
    }
}

/// Attributes of a directory; none are tracked yet.
#[derive(Debug, Clone, Copy)]
pub struct DirectoryAttribute {}

/// Attributes of a file: its intended replication factor, always positive.
#[derive(Debug, Clone, Copy)]
pub struct FileAttribute {
    replication: usize,
}

impl FileAttribute {
    #[verifier::type_invariant]
    spec fn inv(self) -> bool {
        self.replication > 0
    }

    pub closed spec fn spec_replication(self) -> usize {
        self.replication
    }

    pub fn new(replication: usize) -> (r: FileAttribute)
        requires
            replication > 0,
        ensures
            r.spec_replication() == replication,
    {
        FileAttribute { replication }
    }

    pub fn replication(&self) -> (r: usize)
        ensures
            r == self.spec_replication(),
            r > 0,
    {
        proof {
            use_type_invariant(self);
        }
        self.replication
    }

    pub fn set_replication(&mut self, replication: usize)
        requires
            replication > 0,
        ensures
            final(self).spec_replication() == replication,
    {
        self.replication = replication;
    }
}

/// One extent of a file: the half-open byte range `[start, end)` and the block that holds it.
#[derive(Debug, Clone, Copy)]
pub struct FileBlock {
    pub off_range: (u64, u64),
    pub id: BlockId,
}

impl FileBlock {
    pub fn new(off_range: (u64, u64), id: BlockId) -> (r: FileBlock)
        ensures
            r.off_range == off_range,
            r.id == id,
    {
        FileBlock { off_range, id }
    }

    pub fn off_range(&self) -> (r: (u64, u64))
        ensures
            r == self.off_range,
    {
        self.off_range
    }

    pub fn id(&self) -> (r: BlockId)
        ensures
            r == self.id,
    {
        self.id
    }
}

/// Where the next extent of a file with these blocks must start.
pub open spec fn next_offset(blocks: Seq<FileBlock>) -> u64 {
    if blocks.len() == 0 {
        0
    } else {
        blocks.last().off_range.1
    }
}

/// The extents start at offset zero, each is ordered, and each starts where the one before ends.
pub open spec fn contiguous(blocks: Seq<FileBlock>) -> bool {
    &&& blocks.len() > 0 ==> blocks[0].off_range.0 == 0
    &&& forall|i: int| 0 <= i < blocks.len() ==> (#[trigger] blocks[i]).off_range.0 <= blocks[i].off_range.1
    &&& forall|i: int|
        0 <= i < blocks.len() - 1 ==> (#[trigger] blocks[i]).off_range.1 == blocks[i + 1].off_range.0
}

/// Whether `r` may be appended to a file with these blocks.
pub open spec fn fits(blocks: Seq<FileBlock>, r: (u64, u64)) -> bool {
    r.0 <= r.1 && r.0 == next_offset(blocks)
}

/// Why an extent was not appended to a file.
#[derive(Debug, Clone, Copy)]
pub struct NonContiguousRange {
    pub off_range: (u64, u64),
    pub expected_start: u64,
}

/// A file: its attributes and its extents in offset order.
#[derive(Debug, Clone)]
pub struct File {
    pub attr: FileAttribute,
    pub blocks: Vec<FileBlock>,
}

impl File {
    pub fn new(attr: FileAttribute) -> (r: File)
        ensures
            r.attr == attr,
            r.blocks@.len() == 0,
    {
        File { attr, blocks: Vec::new() }
    }

    pub fn attr(&self) -> (r: &FileAttribute)
        ensures
            *r == self.attr,
    {
        &self.attr
    }

    pub fn blocks(&self) -> (r: &Vec<FileBlock>)
        ensures
            r@ == self.blocks@,
    {
        &self.blocks
    }

    /// A mutable borrow of the extents; whoever changes them answers for keeping them
    /// contiguous.
    pub fn blocks_mut(&mut self) -> (r: &mut Vec<FileBlock>)
        ensures
            *r == old(self).blocks,
            *final(self) == (File { attr: old(self).attr, blocks: *final(r) }),
    {
        &mut self.blocks
    }

    /// Appends the extent `off_range` held by block `id`, when it starts where the file ends.
    pub fn append_block(&mut self, off_range: (u64, u64), id: BlockId) -> (r: Result<
        (),
        NonContiguousRange,
    >)
        ensures
            r is Ok <==> fits(old(self).blocks@, off_range),
            r is Ok ==> final(self).blocks@ == old(self).blocks@.push(FileBlock { off_range, id }),
            r is Err ==> *final(self) == *old(self),
            r matches Err(e) ==> e.off_range == off_range && e.expected_start == next_offset(
                old(self).blocks@,
            ),
            final(self).attr == old(self).attr,
            contiguous(old(self).blocks@) ==> contiguous(final(self).blocks@),
    {
        let n = self.blocks.len();
        let expected_start: u64 = if n == 0 {
            0
        } else {
            self.blocks[n - 1].off_range.1
        };
        if off_range.0 != expected_start || off_range.0 > off_range.1 {
            return Err(NonContiguousRange { off_range, expected_start });
        }
        self.blocks.push(FileBlock { off_range, id });
        proof {
            let o = old(self).blocks@;
            let b = self.blocks@;
            if contiguous(o) {
                assert forall|i: int| 0 <= i < b.len() implies (#[trigger] b[i]).off_range.0
                    <= b[i].off_range.1 by {
                    if i < o.len() {
                        assert(b[i] == o[i]);
                    } else {
                        assert(b[i] == FileBlock { off_range, id });
                    }
                }
                assert forall|i: int| 0 <= i < b.len() - 1 implies (#[trigger] b[i]).off_range.1
                    == b[i + 1].off_range.0 by {
                    assert(b[i] == o[i]);
                    if i + 1 < o.len() {
                        assert(b[i + 1] == o[i + 1]);
                    }
                }
            }
        }
        Ok(())
    }
}

/// A directory: its children, each under a name of its own.
#[derive(Debug)]
pub struct Directory {
    pub attr: DirectoryAttribute,
    pub nodes: Vec<DirEntry>,
}

/// A child of a directory and its name.
#[derive(Debug)]
pub struct DirEntry {
    pub name: String,
    pub node: FsNode,
}

/// What a directory refused to take, handed back to the caller.
#[derive(Debug)]
pub struct DirectoryInsertError {
    pub node: FsNode,
}

/// No two entries carry the same name.
#[verifier::opaque]
pub open spec fn names_unique(e: Seq<DirEntry>) -> bool {
    forall|i: int, j: int|
        0 <= i < e.len() && 0 <= j < e.len() && i != j ==> (#[trigger] e[i]).name@ != (#[trigger] e[j]).name@
}

/// Whether some entry carries `name`.
pub open spec fn has_name(e: Seq<DirEntry>, name: Seq<char>) -> bool {
    exists|i: int| 0 <= i < e.len() && (#[trigger] e[i]).name@ == name
}

/// The first entry that carries `name`, where one does.
#[verifier::opaque]
pub open spec fn index_of(e: Seq<DirEntry>, name: Seq<char>) -> int {
    choose|i: int|
        0 <= i < e.len() && (#[trigger] e[i]).name@ == name && forall|j: int|
            0 <= j < i ==> (#[trigger] e[j]).name@ != name
}

proof fn lemma_index_of(e: Seq<DirEntry>, name: Seq<char>, k: int)
    requires
        0 <= k < e.len(),
        e[k].name@ == name,
        forall|j: int| 0 <= j < k ==> (#[trigger] e[j]).name@ != name,
    ensures
        index_of(e, name) == k,
        has_name(e, name),
{
    reveal(index_of);
    let i = index_of(e, name);
    assert(0 <= k < e.len() && e[k].name@ == name && forall|j: int|
        0 <= j < k ==> (#[trigger] e[j]).name@ != name);
    assert(0 <= i < e.len() && e[i].name@ == name);
    if i < k {
        assert(e[i].name@ != name);
    }
    if k < i {
        assert(e[k].name@ != name);
    }
}

/// Position of the entry named `name`.
fn find_entry(nodes: &Vec<DirEntry>, name: &String) -> (r: Option<usize>)
    ensures
        r is None <==> !has_name(nodes@, name@),
        r matches Some(i) ==> i == index_of(nodes@, name@) && i < nodes@.len(),
{
    let mut i: usize = 0;
    while i < nodes.len()
        invariant
            i <= nodes@.len(),
            forall|j: int| 0 <= j < i ==> (#[trigger] nodes@[j]).name@ != name@,
        decreases nodes@.len() - i,
    {
        if nodes[i].name == *name {
            proof {
                lemma_index_of(nodes@, name@, i as int);
            }
            return Some(i);
        }
        i = i + 1;
    }
    None
}

impl Directory {
    pub fn new(attr: DirectoryAttribute) -> (r: Directory)
        ensures
            r.nodes@.len() == 0,
    {
        Directory { attr, nodes: Vec::new() }
    }

    /// Position of the child named `name`.
    pub fn find(&self, name: &String) -> (r: Option<usize>)
        ensures
            r is None <==> !has_name(self.nodes@, name@),
            r matches Some(i) ==> i == index_of(self.nodes@, name@) && i < self.nodes@.len(),
    {
        find_entry(&self.nodes, name)
    }

    /// Adds `node` under `key`; a name already present is refused and the node handed back.
    pub fn insert(&mut self, key: String, node: FsNode) -> (r: Result<(), DirectoryInsertError>)
        ensures
            r is Ok <==> !has_name(old(self).nodes@, key@),
            r is Ok ==> final(self).nodes@ == old(self).nodes@.push(DirEntry { name: key, node }),
            r matches Err(e) ==> e.node == node && *final(self) == *old(self),
            final(self).attr == old(self).attr,
            names_unique(old(self).nodes@) ==> names_unique(final(self).nodes@),
    {
        if self.find(&key).is_some() {
            return Err(DirectoryInsertError { node });
        }
        self.nodes.push(DirEntry { name: key, node });
        proof {
            reveal(names_unique);
            let e = final(self).nodes@;
            assert forall|i: int, j: int|
                names_unique(old(self).nodes@) && 0 <= i < e.len() && 0 <= j < e.len() && i
                    != j implies (#[trigger] e[i]).name@ != (#[trigger] e[j]).name@ by {
                if i == e.len() - 1 {
                    assert(old(self).nodes@[j] == e[j]);
                } else if j == e.len() - 1 {
                    assert(old(self).nodes@[i] == e[i]);
                } else {
                    assert(old(self).nodes@[i] == e[i] && old(self).nodes@[j] == e[j]);
                }
            }
        }
        Ok(())
    }

    pub fn nodes(&self) -> (r: &Vec<DirEntry>)
        ensures
            r@ == self.nodes@,
    {
        &self.nodes
    }

    /// A mutable borrow of the children; whoever changes them answers for keeping their names
    /// distinct.
    pub fn nodes_mut(&mut self) -> (r: &mut Vec<DirEntry>)
        ensures
            *r == old(self).nodes,
            *final(self) == (Directory { attr: old(self).attr, nodes: *final(r) }),
    {
        &mut self.nodes
    }
}

#[derive(Debug)]
pub enum FsNodeBody {
    Directory(Directory),
    File(File),
}

/// A node of the namespace tree: a directory of named children, or a file.
#[derive(Debug)]
pub struct FsNode {
    pub attr: FsNodeAttribute,
    pub body: FsNodeBody,
}

/// The terminal segment already names a child.
#[derive(Debug)]
pub struct FileExist {
    pub path: PathCursor,
}

/// No child carries the current segment.
#[derive(Debug)]
pub struct FileNotExist {
    pub path: PathCursor,
}

/// The descent met a file, or a missing directory, where a directory was needed.
#[derive(Debug)]
pub struct DirectoryNotExist {
    pub path: PathCursor,
}

#[derive(Debug)]
pub enum FsNodeQueryError {
    FileNotExist(FileNotExist),
    DirectoryNotExist(DirectoryNotExist),
}

#[derive(Debug)]
pub enum FsNodeCreateFileError {
    FileExist(FileExist),
    DirectoryNotExist(DirectoryNotExist),
}

/// Why no extent was appended at a path.
#[derive(Debug)]
pub enum FsNodeAddBlockError {
    Query(FsNodeQueryError),
    NotAFile,
    NonContiguous(NonContiguousRange),
}

/// Where a descent ends: at a node, or on the remaining segments where it failed.
pub ghost enum Lookup {
    Found(FsNode),
    Missing(Seq<Seq<char>>),
    NotADir(Seq<Seq<char>>),
}

/// How a creation at a path ends.
pub ghost enum CreateOutcome {
    Created,
    Exists(Seq<Seq<char>>),
    NoDir(Seq<Seq<char>>),
}

/// A change made at the end of a path.
pub ghost enum Change {
    AddChild(Seq<char>, FsNode),
    AddBlock(FileBlock),
}

/// The node that `segs` leads to from `node`, or where the descent fails.
pub open spec fn lookup(node: FsNode, segs: Seq<Seq<char>>) -> Lookup
    decreases segs.len(),
{
    if segs.len() == 0 {
        Lookup::Found(node)
    } else {
        match node.body {
            FsNodeBody::File(_) => Lookup::NotADir(segs),
            FsNodeBody::Directory(d) => {
                if has_name(d.nodes@, segs[0]) {
                    lookup(d.nodes@[index_of(d.nodes@, segs[0])].node, segs.drop_first())
                } else {
                    Lookup::Missing(segs)
                }
            },
        }
    }
}

/// How creating a node at the non-empty path `segs` below `node` ends.
pub open spec fn create_outcome(node: FsNode, segs: Seq<Seq<char>>) -> CreateOutcome
    decreases segs.len(),
{
    match node.body {
        FsNodeBody::File(_) => CreateOutcome::NoDir(segs),
        FsNodeBody::Directory(d) => {
            if segs.len() <= 1 {
                if segs.len() == 1 && !has_name(d.nodes@, segs[0]) {
                    CreateOutcome::Created
                } else {
                    CreateOutcome::Exists(segs)
                }
            } else if has_name(d.nodes@, segs[0]) {
                create_outcome(d.nodes@[index_of(d.nodes@, segs[0])].node, segs.drop_first())
            } else {
                CreateOutcome::NoDir(segs)
            }
        },
    }
}

/// `new` is `old` with the change `c` applied to it.
pub open spec fn applied(old: FsNode, new: FsNode, c: Change) -> bool {
    match c {
        Change::AddChild(name, child) => match (old.body, new.body) {
            (FsNodeBody::Directory(od), FsNodeBody::Directory(nd)) => {
                &&& nd.nodes@.len() == od.nodes@.len() + 1
                &&& nd.nodes@.drop_last() == od.nodes@
                &&& nd.nodes@.last().name@ == name
                &&& nd.nodes@.last().node == child
            },
            _ => false,
        },
        Change::AddBlock(b) => match (old.body, new.body) {
            (FsNodeBody::File(of), FsNodeBody::File(nf)) => {
                &&& nf.attr == of.attr
                &&& nf.blocks@ == of.blocks@.push(b)
            },
            _ => false,
        },
    }
}

/// `new` is `old` with the change `c` applied at the end of the existing path `segs`, and
/// every other node left as it was.
pub open spec fn changed_at(old: FsNode, new: FsNode, segs: Seq<Seq<char>>, c: Change) -> bool
    decreases segs.len(),
{
    if segs.len() == 0 {
        applied(old, new, c)
    } else {
        match (old.body, new.body) {
            (FsNodeBody::Directory(od), FsNodeBody::Directory(nd)) => {
                let i = index_of(od.nodes@, segs[0]);
                &&& has_name(od.nodes@, segs[0])
                &&& nd.nodes@.len() == od.nodes@.len()
                &&& nd.nodes@[i].name == od.nodes@[i].name
                &&& forall|j: int| 0 <= j < od.nodes@.len() && j != i ==> nd.nodes@[j] == od.nodes@[j]
                &&& changed_at(od.nodes@[i].node, nd.nodes@[i].node, segs.drop_first(), c)
            },
            _ => false,
        }
    }
}

impl FsNode {
    /// Every directory below has children of distinct names, and every file contiguous extents.
    #[verifier::opaque]
    pub open spec fn wf(self) -> bool
        decreases self,
    {
        match self.body {
            FsNodeBody::Directory(d) => {
                &&& names_unique(d.nodes@)
                &&& forall|i: int| 0 <= i < d.nodes@.len() ==> (#[trigger] d.nodes@[i]).node.wf()
            },
            FsNodeBody::File(f) => contiguous(f.blocks@),
        }
    }

    pub fn new(attr: FsNodeAttribute, body: FsNodeBody) -> (r: FsNode)
        ensures
            r.attr == attr,
            r.body == body,
    {
        FsNode { attr, body }
    }

    /// An empty directory.
    pub fn new_directory() -> (r: FsNode)
        ensures
            r.wf(),
            r.body matches FsNodeBody::Directory(d) && d.nodes@.len() == 0,
    {
        let r = FsNode {
            attr: FsNodeAttribute::new(),
            body: FsNodeBody::Directory(Directory::new(DirectoryAttribute {  })),
        };
        proof {
            lemma_wf_unfold(r);
            reveal(names_unique);
            reveal(children_wf);
        }
        r
    }

    /// An empty file with the given replication factor.
    pub fn new_file(replication: usize) -> (r: FsNode)
        requires
            replication > 0,
        ensures
            r.wf(),
            r.body matches FsNodeBody::File(f) && f.blocks@.len() == 0
                && f.attr.spec_replication() == replication,
    {
        let r = FsNode {
            attr: FsNodeAttribute::new(),
            body: FsNodeBody::File(File::new(FileAttribute::new(replication))),
        };
        proof {
            lemma_wf_unfold(r);
            reveal(names_unique);
            reveal(children_wf);
        }
        r
    }

    pub fn body(&self) -> (r: &FsNodeBody)
        ensures
            *r == self.body,
    {
        &self.body
    }

    /// A mutable borrow of the body; whoever changes it answers for keeping the tree well formed.
    pub fn body_mut(&mut self) -> (r: &mut FsNodeBody)
        ensures
            *r == old(self).body,
            *final(self) == (FsNode { attr: old(self).attr, body: *final(r) }),
    {
        &mut self.body
    }

    pub fn is_file(&self) -> (r: bool)
        ensures
            r == self.body is File,
    {
        match &self.body {
            FsNodeBody::File(_) => true,
            FsNodeBody::Directory(_) => false,
        }
    }
}

/// Where the descent ended, as a query error reports it.
pub open spec fn query_error_view(e: FsNodeQueryError) -> Lookup {
    match e {
        FsNodeQueryError::FileNotExist(e) => Lookup::Missing(e.path.rest()),
        FsNodeQueryError::DirectoryNotExist(e) => Lookup::NotADir(e.path.rest()),
    }
}

/// What a query's result says of where the descent ended.
pub open spec fn query_view(r: Result<&FsNode, FsNodeQueryError>) -> Lookup {
    match r {
        Ok(n) => Lookup::Found(*n),
        Err(e) => query_error_view(e),
    }
}

/// How a creation ended, as its result reports it.
pub open spec fn create_view(r: Result<(), FsNodeCreateFileError>) -> CreateOutcome {
    match r {
        Ok(()) => CreateOutcome::Created,
        Err(FsNodeCreateFileError::FileExist(e)) => CreateOutcome::Exists(e.path.rest()),
        Err(FsNodeCreateFileError::DirectoryNotExist(e)) => CreateOutcome::NoDir(e.path.rest()),
    }
}

/// The nodes that a listing of `n` visits: its children for a directory, itself for a file.
pub open spec fn listing(n: FsNode) -> Seq<FsNode> {
    match n.body {
        FsNodeBody::Directory(d) => d.nodes@.map_values(|e: DirEntry| e.node),
        FsNodeBody::File(_) => seq![n],
    }
}

/// The entries of a directory; none for a file.
pub open spec fn entries(n: FsNode) -> Seq<DirEntry> {
    match n.body {
        FsNodeBody::Directory(d) => d.nodes@,
        FsNodeBody::File(_) => Seq::empty(),
    }
}

/// Every child of these entries is well formed.
#[verifier::opaque]
pub open spec fn children_wf(e: Seq<DirEntry>) -> bool {
    forall|i: int| 0 <= i < e.len() ==> (#[trigger] e[i]).node.wf()
}

proof fn lemma_child_wf(e: Seq<DirEntry>, k: int)
    requires
        children_wf(e),
        0 <= k < e.len(),
    ensures
        e[k].node.wf(),
{
    reveal(children_wf);
}

proof fn lemma_push_child(o: Seq<DirEntry>, x: DirEntry)
    requires
        names_unique(o),
        children_wf(o),
        !has_name(o, x.name@),
        x.node.wf(),
    ensures
        names_unique(o.push(x)),
        children_wf(o.push(x)),
{
    reveal(names_unique);
    reveal(children_wf);
    let e = o.push(x);
    assert forall|i: int, j: int| 0 <= i < e.len() && 0 <= j < e.len() && i != j implies (
    #[trigger] e[i]).name@ != (#[trigger] e[j]).name@ by {
        if i == e.len() - 1 {
            assert(o[j] == e[j]);
        } else if j == e.len() - 1 {
            assert(o[i] == e[i]);
        } else {
            assert(o[i] == e[i] && o[j] == e[j]);
        }
    }
    assert forall|i: int| 0 <= i < e.len() implies (#[trigger] e[i]).node.wf() by {
        if i < o.len() {
            assert(o[i] == e[i]);
        }
    }
}

proof fn lemma_replace_child(o: Seq<DirEntry>, e: Seq<DirEntry>, k: int)
    requires
        names_unique(o),
        children_wf(o),
        0 <= k < o.len(),
        e.len() == o.len(),
        e[k].name == o[k].name,
        e[k].node.wf(),
        forall|j: int| 0 <= j < o.len() && j != k ==> e[j] == o[j],
    ensures
        names_unique(e),
        children_wf(e),
{
    reveal(names_unique);
    reveal(children_wf);
    assert forall|a: int, b: int| 0 <= a < e.len() && 0 <= b < e.len() && a != b implies (
    #[trigger] e[a]).name@ != (#[trigger] e[b]).name@ by {
        assert(e[a].name == o[a].name && e[b].name == o[b].name);
    }
    assert forall|a: int| 0 <= a < e.len() implies (#[trigger] e[a]).node.wf() by {
        if a != k {
            assert(o[a] == e[a]);
        }
    }
}

/// What well-formedness asks of a node, one level down.
pub proof fn lemma_wf_unfold(n: FsNode)
    ensures
        n.body is Directory ==> (n.wf() <==> names_unique(entries(n)) && children_wf(entries(n))),
        n.body matches FsNodeBody::File(f) ==> (n.wf() <==> contiguous(f.blocks@)),
{
    reveal(FsNode::wf);
    reveal(children_wf);
}

proof fn lemma_next_remaining(c: PathCursor, next: Option<PathCursor>)
    requires
        c.rest().len() >= 1,
        next is None <==> c.rest().len() == 1,
        next matches Some(n) ==> n.rest() == c.rest().drop_first(),
    ensures
        remaining(next) == c.rest().drop_first(),
{
    if next is None {
        assert(c.rest().drop_first() =~= Seq::<Seq<char>>::empty());
    }
}

impl FsNode {
    /// The node at `path` below this one; this node itself for an absent cursor.
    pub fn get(&self, path: Option<PathCursor>) -> (r: Result<&FsNode, FsNodeQueryError>)
        ensures
            query_view(r) == lookup(*self, remaining(path)),
        decreases remaining(path).len(),
    {
        let c = match path {
            None => {
                return Ok(self);
            },
            Some(p) => p,
        };
        let name = c.curr();
        let ghost segs = c.rest();
        match &self.body {
            FsNodeBody::Directory(d) => {
                let found = d.find(name);
                match found {
                    None => Err(FsNodeQueryError::FileNotExist(FileNotExist { path: c })),
                    Some(i) => {
                        let next = c.next();
                        proof {
                            lemma_next_remaining(c, next);
                            assert(lookup(*self, segs) == lookup(d.nodes@[i as int].node, segs.drop_first()));
                        }
                        d.nodes[i].node.get(next)
                    },
                }
            },
            FsNodeBody::File(_) => Err(
                FsNodeQueryError::DirectoryNotExist(DirectoryNotExist { path: c }),
            ),
        }
    }

    /// The nodes that a listing at `path` visits: the children of a directory, or the file itself.
    pub fn list(&self, path: Option<PathCursor>) -> (r: Result<Vec<&FsNode>, FsNodeQueryError>)
        ensures
            r matches Ok(v) ==> lookup(*self, remaining(path)) matches Lookup::Found(n)
                && v@.map_values(|x: &FsNode| *x) == listing(n),
            r matches Err(e) ==> query_error_view(e) == lookup(*self, remaining(path)),
            r is Err <==> !(lookup(*self, remaining(path)) is Found),
    {
        let node = match self.get(path) {
            Ok(n) => n,
            Err(e) => {
                return Err(e);
            },
        };
        let mut out: Vec<&FsNode> = Vec::new();
        match &node.body {
            FsNodeBody::Directory(d) => {
                let mut i: usize = 0;
                while i < d.nodes.len()
                    invariant
                        i <= d.nodes@.len(),
                        out@.map_values(|x: &FsNode| *x) == d.nodes@.take(i as int).map_values(
                            |e: DirEntry| e.node,
                        ),
                    decreases d.nodes@.len() - i,
                {
                    let ghost prev = out@;
                    out.push(&d.nodes[i].node);
                    proof {
                        assert(out@ =~= prev.push(&d.nodes@[i as int].node));
                        assert(out@.map_values(|x: &FsNode| *x) =~= prev.map_values(|x: &FsNode| *x).push(
                            d.nodes@[i as int].node,
                        ));
                        assert(d.nodes@.take(i + 1) =~= d.nodes@.take(i as int).push(d.nodes@[i as int]));
                        assert(out@.map_values(|x: &FsNode| *x) =~= d.nodes@.take(i + 1).map_values(
                            |e: DirEntry| e.node,
                        ));
                    }
                    i = i + 1;
                }
                assert(d.nodes@.take(i as int) =~= d.nodes@);
            },
            FsNodeBody::File(_) => {
                out.push(node);
                assert(out@.map_values(|x: &FsNode| *x) =~= seq![*node]);
            },
        }
        Ok(out)
    }

    fn check_create(&self, path: PathCursor) -> (r: Result<(), FsNodeCreateFileError>)
        ensures
            create_view(r) == create_outcome(*self, path.rest()),
        decreases path.rest().len(),
    {
        match &self.body {
            FsNodeBody::File(_) => Err(
                FsNodeCreateFileError::DirectoryNotExist(DirectoryNotExist { path }),
            ),
            FsNodeBody::Directory(d) => {
                let found = d.find(path.curr());
                let next = path.next();
                match next {
                    None => {
                        if found.is_some() {
                            Err(FsNodeCreateFileError::FileExist(FileExist { path }))
                        } else {
                            Ok(())
                        }
                    },
                    Some(child) => match found {
                        None => Err(
                            FsNodeCreateFileError::DirectoryNotExist(DirectoryNotExist { path }),
                        ),
                        Some(i) => d.nodes[i].node.check_create(child),
                    },
                }
            },
        }
    }

    fn inserted(self, path: PathCursor, new_node: FsNode) -> (r: FsNode)
        requires
            self.wf(),
            new_node.wf(),
            create_outcome(self, path.rest()) == CreateOutcome::Created,
        ensures
            r.wf(),
            changed_at(self, r, path.rest().drop_last(), Change::AddChild(path.rest().last(), new_node)),
        decreases path.rest().len(),
    {
        let ghost segs = path.rest();
        let ghost o = entries(self);
        proof {
            lemma_wf_unfold(self);
        }
        let FsNode { attr, body } = self;
        match body {
            FsNodeBody::File(f) => FsNode { attr, body: FsNodeBody::File(f) },
            FsNodeBody::Directory(d) => {
                let Directory { attr: dattr, nodes } = d;
                let mut nodes = nodes;
                let found = find_entry(&nodes, path.curr());
                let next = path.next();
                match next {
                    None => {
                        let name = path.curr().clone();
                        let entry = DirEntry { name, node: new_node };
                        proof {
                            lemma_push_child(o, entry);
                            assert(segs.drop_last() =~= Seq::<Seq<char>>::empty());
                        }
                        nodes.push(entry);
                        proof {
                            assert(nodes@.drop_last() =~= o);
                        }
                        let r = FsNode { attr, body: FsNodeBody::Directory(Directory { attr: dattr, nodes }) };
                        proof {
                            lemma_wf_unfold(r);
                        }
                        r
                    },
                    Some(child) => {
                        let i = found.unwrap();
                        let entry = nodes.remove(i);
                        proof {
                            assert(child.rest().drop_last() =~= segs.drop_last().drop_first());
                            assert(child.rest().last() == segs.last());
                        }
                        let DirEntry { name, node } = entry;
                        proof {
                            lemma_child_wf(o, i as int);
                        }
                        let node = node.inserted(child, new_node);
                        nodes.insert(i, DirEntry { name, node });
                        proof {
                            let e = nodes@;
                            assert(e =~= o.update(i as int, e[i as int]));
                            lemma_replace_child(o, e, i as int);
                            assert(segs.drop_last()[0] == segs[0]);
                        }
                        let r = FsNode { attr, body: FsNodeBody::Directory(Directory { attr: dattr, nodes }) };
                        proof {
                            lemma_wf_unfold(r);
                        }
                        r
                    },
                }
            },
        }
    }

    /// Inserts `new_node` under the last segment of `path`, in the directory that the segments
    /// before it lead to; intermediate directories are never created.
    pub fn create_node(&mut self, path: PathCursor, new_node: FsNode) -> (r: Result<
        (),
        FsNodeCreateFileError,
    >)
        requires
            old(self).wf(),
            new_node.wf(),
        ensures
            final(self).wf(),
            create_view(r) == create_outcome(*old(self), path.rest()),
            r is Ok ==> changed_at(
                *old(self),
                *final(self),
                path.rest().drop_last(),
                Change::AddChild(path.rest().last(), new_node),
            ),
            r is Err ==> *final(self) == *old(self),
    {
        let probe = path.copied();
        match self.check_create(probe) {
            Err(e) => Err(e),
            Ok(()) => {
                let mut node = FsNode::new_directory();
                std::mem::swap(self, &mut node);
                *self = node.inserted(path, new_node);
                Ok(())
            },
        }
    }
}

/// How appending the extent `off_range` at `segs` below `node` ends; `None` when it is appended.
pub open spec fn add_block_outcome(node: FsNode, segs: Seq<Seq<char>>, off_range: (u64, u64)) -> Option<
    AddBlockRefusal,
> {
    match lookup(node, segs) {
        Lookup::Found(n) => match n.body {
            FsNodeBody::File(f) => if fits(f.blocks@, off_range) {
                None
            } else {
                Some(AddBlockRefusal::NonContiguous(next_offset(f.blocks@)))
            },
            FsNodeBody::Directory(_) => Some(AddBlockRefusal::NotAFile),
        },
        other => Some(AddBlockRefusal::Query(other)),
    }
}

/// Why an extent is refused, as the model states it.
pub ghost enum AddBlockRefusal {
    Query(Lookup),
    NotAFile,
    NonContiguous(u64),
}

/// What an append's error says of why it was refused.
pub open spec fn add_block_view(r: Result<(), FsNodeAddBlockError>) -> Option<AddBlockRefusal> {
    match r {
        Ok(()) => None,
        Err(FsNodeAddBlockError::Query(e)) => Some(AddBlockRefusal::Query(query_error_view(e))),
        Err(FsNodeAddBlockError::NotAFile) => Some(AddBlockRefusal::NotAFile),
        Err(FsNodeAddBlockError::NonContiguous(e)) => Some(
            AddBlockRefusal::NonContiguous(e.expected_start),
        ),
    }
}

/// A copy of an optional cursor.
fn copy_cursor(c: &Option<PathCursor>) -> (r: Option<PathCursor>)
    ensures
        remaining(r) == remaining(*c),
{
    match c {
        Some(c) => Some(c.copied()),
        None => None,
    }
}

impl FsNode {
    fn with_block(self, path: Option<PathCursor>, off_range: (u64, u64), id: BlockId) -> (r: FsNode)
        requires
            self.wf(),
            add_block_outcome(self, remaining(path), off_range) is None,
        ensures
            r.wf(),
            changed_at(self, r, remaining(path), Change::AddBlock(FileBlock { off_range, id })),
        decreases remaining(path).len(),
    {
        let ghost segs = remaining(path);
        let ghost o = entries(self);
        proof {
            lemma_wf_unfold(self);
        }
        let FsNode { attr, body } = self;
        match path {
            None => match body {
                FsNodeBody::File(f) => {
                    let mut f = f;
                    proof {
                        assert(segs.len() == 0);
                        assert(lookup(self, segs) == Lookup::Found(self));
                        assert(fits(f.blocks@, off_range));
                    }
                    let ghost f0 = f;
                    let _ = f.append_block(off_range, id);
                    let r = FsNode { attr, body: FsNodeBody::File(f) };
                    proof {
                        lemma_wf_unfold(r);
                        assert(self.body == FsNodeBody::File(f0));
                        assert(f.blocks@ == f0.blocks@.push(FileBlock { off_range, id }));
                        assert(f.attr == f0.attr);
                    }
                    r
                },
                FsNodeBody::Directory(d) => {
                    proof {
                        assert(lookup(self, segs) == Lookup::Found(self));
                    }
                    FsNode { attr, body: FsNodeBody::Directory(d) }
                },
            },
            Some(c) => match body {
                FsNodeBody::File(f) => {
                    let _ = c.curr();
                    proof {
                        assert(lookup(self, segs) == Lookup::NotADir(segs));
                    }
                    FsNode { attr, body: FsNodeBody::File(f) }
                },
                FsNodeBody::Directory(d) => {
                    let Directory { attr: dattr, nodes } = d;
                    let mut nodes = nodes;
                    let i = find_entry(&nodes, c.curr()).unwrap();
                    let next = c.next();
                    proof {
                        lemma_next_remaining(c, next);
                    }
                    let entry = nodes.remove(i);
                    let DirEntry { name, node } = entry;
                    proof {
                        lemma_child_wf(o, i as int);
                    }
                    let node = node.with_block(next, off_range, id);
                    nodes.insert(i, DirEntry { name, node });
                    proof {
                        let e = nodes@;
                        assert(e =~= o.update(i as int, e[i as int]));
                        lemma_replace_child(o, e, i as int);
                    }
                    let r = FsNode { attr, body: FsNodeBody::Directory(Directory { attr: dattr, nodes }) };
                    proof {
                        lemma_wf_unfold(r);
                    }
                    r
                },
            },
        }
    }

    /// Appends the extent `off_range`, held by block `id`, to the file at `path`.
    pub fn add_block(&mut self, path: Option<PathCursor>, off_range: (u64, u64), id: BlockId) -> (r:
        Result<(), FsNodeAddBlockError>)
        requires
            old(self).wf(),
        ensures
            final(self).wf(),
            add_block_view(r) == add_block_outcome(*old(self), remaining(path), off_range),
            r is Ok ==> changed_at(
                *old(self),
                *final(self),
                remaining(path),
                Change::AddBlock(FileBlock { off_range, id }),
            ),
            r is Err ==> *final(self) == *old(self),
    {
        let probe = copy_cursor(&path);
        let node = match self.get(probe) {
            Ok(n) => n,
            Err(e) => {
                return Err(FsNodeAddBlockError::Query(e));
            },
        };
        match &node.body {
            FsNodeBody::Directory(_) => {
                return Err(FsNodeAddBlockError::NotAFile);
            },
            FsNodeBody::File(f) => {
                let n = f.blocks.len();
                let expected_start: u64 = if n == 0 {
                    0
                } else {
                    f.blocks[n - 1].off_range.1
                };
                if off_range.0 != expected_start || off_range.0 > off_range.1 {
                    return Err(
                        FsNodeAddBlockError::NonContiguous(
                            NonContiguousRange { off_range, expected_start },
                        ),
                    );
                }
            },
        }
        let mut node = FsNode::new_directory();
        std::mem::swap(self, &mut node);
        *self = node.with_block(path, off_range, id);
        Ok(())
    }
}

proof fn lemma_index_of_valid(e: Seq<DirEntry>, name: Seq<char>)
    requires
        has_name(e, name),
    ensures
        0 <= index_of(e, name) < e.len(),
        e[index_of(e, name)].name@ == name,
        forall|j: int| 0 <= j < index_of(e, name) ==> (#[trigger] e[j]).name@ != name,
    decreases e.len(),
{
    let d = e.drop_last();
    if has_name(d, name) {
        lemma_index_of_valid(d, name);
        let k = index_of(d, name);
        assert(d[k] == e[k]);
        assert forall|j: int| 0 <= j < k implies (#[trigger] e[j]).name@ != name by {
            assert(d[j] == e[j]);
        }
        lemma_index_of(e, name, k);
    } else {
        let k = e.len() - 1;
        let w = choose|i: int| 0 <= i < e.len() && (#[trigger] e[i]).name@ == name;
        if w < k {
            assert(d[w] == e[w]);
        }
        assert forall|j: int| 0 <= j < k implies (#[trigger] e[j]).name@ != name by {
            assert(d[j] == e[j]);
        }
        lemma_index_of(e, name, k);
    }
}

/// Every node that a path reaches in a well-formed tree is well formed.
pub proof fn lemma_lookup_wf(root: FsNode, segs: Seq<Seq<char>>)
    requires
        root.wf(),
    ensures
        lookup(root, segs) matches Lookup::Found(n) ==> n.wf(),
    decreases segs.len(),
{
    if segs.len() > 0 {
        if let FsNodeBody::Directory(d) = root.body {
            if has_name(d.nodes@, segs[0]) {
                lemma_index_of_valid(d.nodes@, segs[0]);
                lemma_wf_unfold(root);
                lemma_child_wf(d.nodes@, index_of(d.nodes@, segs[0]));
                lemma_lookup_wf(d.nodes@[index_of(d.nodes@, segs[0])].node, segs.drop_first());
            }
        }
    }
}

/// In a well-formed tree, no directory that a path reaches has two children of the same name.
/// Creation and extent allocation keep a tree well formed, so this holds after any sequence of
/// them.
pub proof fn lemma_names_unique_everywhere(root: FsNode, segs: Seq<Seq<char>>)
    requires
        root.wf(),
    ensures
        lookup(root, segs) matches Lookup::Found(n) ==> (n.body matches FsNodeBody::Directory(d)
            ==> forall|i: int, j: int|
            0 <= i < d.nodes@.len() && 0 <= j < d.nodes@.len() && i != j ==> (
            #[trigger] d.nodes@[i]).name@ != (#[trigger] d.nodes@[j]).name@),
{
    lemma_lookup_wf(root, segs);
    if let Lookup::Found(n) = lookup(root, segs) {
        lemma_wf_unfold(n);
        reveal(names_unique);
    }
}

/// In a well-formed tree, the extents of every file that a path reaches are contiguous: each
/// starts where the one before it ends, the first at offset zero, and none is reversed.
pub proof fn lemma_extents_contiguous_everywhere(root: FsNode, segs: Seq<Seq<char>>)
    requires
        root.wf(),
    ensures
        lookup(root, segs) matches Lookup::Found(n) ==> (n.body matches FsNodeBody::File(f) ==> {
            &&& forall|i: int|
                0 <= i < f.blocks@.len() - 1 ==> (#[trigger] f.blocks@[i]).off_range.1
                    == f.blocks@[i + 1].off_range.0
            &&& forall|i: int|
                0 <= i < f.blocks@.len() ==> (#[trigger] f.blocks@[i]).off_range.0
                    <= f.blocks@[i].off_range.1
        }),
{
    lemma_lookup_wf(root, segs);
    if let Lookup::Found(n) = lookup(root, segs) {
        lemma_wf_unfold(n);
    }
}

/// `new` is `old` with the node at the end of the existing path `segs` replaced by `sub`, and
/// every other node left as it was.
pub open spec fn replaced_at(old: FsNode, new: FsNode, segs: Seq<Seq<char>>, sub: FsNode) -> bool
    decreases segs.len(),
{
    if segs.len() == 0 {
        new == sub
    } else {
        match (old.body, new.body) {
            (FsNodeBody::Directory(od), FsNodeBody::Directory(nd)) => {
                let i = index_of(od.nodes@, segs[0]);
                &&& has_name(od.nodes@, segs[0])
                &&& nd.nodes@.len() == od.nodes@.len()
                &&& nd.nodes@[i].name == od.nodes@[i].name
                &&& forall|j: int| 0 <= j < od.nodes@.len() && j != i ==> nd.nodes@[j] == od.nodes@[j]
                &&& replaced_at(od.nodes@[i].node, nd.nodes@[i].node, segs.drop_first(), sub)
            },
            _ => false,
        }
    }
}

impl FsNode {
    fn get_found_mut(&mut self, path: Option<PathCursor>) -> (r: Option<&mut FsNode>)
        requires
            lookup(*old(self), remaining(path)) is Found,
        ensures
            r is Some,
            r matches Some(n) ==> lookup(*old(self), remaining(path)) == Lookup::Found(*n)
                && replaced_at(*old(self), *final(self), remaining(path), *final(n)),
        decreases remaining(path).len(),
    {
        match path {
            None => Some(self),
            Some(c) => {
                let name = c.curr();
                let found = match &self.body {
                    FsNodeBody::Directory(d) => find_entry(&d.nodes, name),
                    FsNodeBody::File(_) => None,
                };
                let next = c.next();
                proof {
                    lemma_next_remaining(c, next);
                }
                match &mut self.body {
                    FsNodeBody::Directory(d) => {
                        let i = found.unwrap();
                        d.nodes[i].node.get_found_mut(next)
                    },
                    FsNodeBody::File(_) => None,
                }
            },
        }
    }

    /// A mutable borrow of the node at `path`; the rest of the tree is left as it was. Whoever
    /// changes the node through it answers for keeping the tree well formed.
    pub fn get_mut(&mut self, path: Option<PathCursor>) -> (r: Result<&mut FsNode, FsNodeQueryError>)
        ensures
            r matches Ok(n) ==> lookup(*old(self), remaining(path)) == Lookup::Found(*n)
                && replaced_at(*old(self), *final(self), remaining(path), *final(n)),
            r matches Err(e) ==> query_error_view(e) == lookup(*old(self), remaining(path))
                && *final(self) == *old(self),
    {
        let c = match path {
            None => {
                return Ok(self);
            },
            Some(c) => c,
        };
        match self.get(Some(c.copied())) {
            Err(e) => Err(e),
            Ok(_) => {
                let spare = c.copied();
                match self.get_found_mut(Some(c)) {
                    Some(n) => Ok(n),
                    None => Err(FsNodeQueryError::FileNotExist(FileNotExist { path: spare })),
                }
            },
        }
    }
}

impl Default for FsNodeAttribute {
    fn default() -> (r: FsNodeAttribute) {
        FsNodeAttribute::new()
    }
}

} // verus!
