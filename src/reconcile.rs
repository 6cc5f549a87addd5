use vstd::prelude::*;

use crate::block::{BlockId, BlockRecord, ReplicatedBlocksMap, ReportedBlock, StoreId};

verus! {

/// A reported block is corrupt when it is unknown or its fingerprint differs from the
/// authoritative one.
pub open spec fn corrupt(m: Map<BlockId, BlockRecord>, b: ReportedBlock) -> bool {
    !m.contains_key(b.id) || m[b.id].body != b.body
}

/// One reported block taken into account: a sound block gains `s` as a confirming store, unless
/// `s` confirms it already.
pub open spec fn add_one(m: Map<BlockId, BlockRecord>, s: Seq<char>, b: ReportedBlock) -> Map<
    BlockId,
    BlockRecord,
> {
    if !corrupt(m, b) && !m[b.id].stores.contains(s) {
        m.insert(b.id, BlockRecord { stores: m[b.id].stores.push(s), ..m[b.id] })
    } else {
        m
    }
}

/// The reported blocks taken into account in order.
pub open spec fn apply_add(m: Map<BlockId, BlockRecord>, s: Seq<char>, bs: Seq<ReportedBlock>) -> Map<
    BlockId,
    BlockRecord,
>
    decreases bs.len(),
{
    if bs.len() == 0 {
        m
    } else {
        add_one(apply_add(m, s, bs.drop_last()), s, bs.last())
    }
}

/// The identities of the corrupt reported blocks, in report order.
pub open spec fn corrupt_ids(m: Map<BlockId, BlockRecord>, bs: Seq<ReportedBlock>) -> Seq<BlockId>
    decreases bs.len(),
{
    if bs.len() == 0 {
        Seq::empty()
    } else if corrupt(m, bs.last()) {
        corrupt_ids(m, bs.drop_last()).push(bs.last().id)
    } else {
        corrupt_ids(m, bs.drop_last())
    }
}

/// Block `id` no longer confirmed by `s`; an unknown block is left alone.
pub open spec fn drop_one(m: Map<BlockId, BlockRecord>, s: Seq<char>, id: BlockId) -> Map<
    BlockId,
    BlockRecord,
> {
    if m.contains_key(id) {
        m.insert(id, BlockRecord { stores: m[id].stores.filter(|x: Seq<char>| x != s), ..m[id] })
    } else {
        m
    }
}

/// The listed blocks no longer confirmed by `s`, in order.
pub open spec fn apply_remove(m: Map<BlockId, BlockRecord>, s: Seq<char>, bs: Seq<ReportedBlock>) -> Map<
    BlockId,
    BlockRecord,
>
    decreases bs.len(),
{
    if bs.len() == 0 {
        m
    } else {
        drop_one(apply_remove(m, s, bs.drop_last()), s, bs.last().id)
    }
}

/// No block confirmed by `s` any more.
pub open spec fn strip(m: Map<BlockId, BlockRecord>, s: Seq<char>) -> Map<BlockId, BlockRecord> {
    Map::new(
        |id: BlockId| m.contains_key(id),
        |id: BlockId| BlockRecord { stores: m[id].stores.filter(|x: Seq<char>| x != s), ..m[id] },
    )
}

/// The blocks below `bound` no longer confirmed by `s`.
pub open spec fn strip_below(m: Map<BlockId, BlockRecord>, s: Seq<char>, bound: int) -> Map<
    BlockId,
    BlockRecord,
> {
    Map::new(
        |id: BlockId| m.contains_key(id),
        |id: BlockId|
            if id < bound {
                BlockRecord { stores: m[id].stores.filter(|x: Seq<char>| x != s), ..m[id] }
            } else {
                m[id]
            },
    )
}

/// Taking reports into account changes no block's presence or fingerprint.
pub proof fn lemma_add_keeps_bodies(m: Map<BlockId, BlockRecord>, s: Seq<char>, bs: Seq<ReportedBlock>)
    ensures
        apply_add(m, s, bs).dom() == m.dom(),
        forall|id: BlockId| #[trigger] m.contains_key(id) ==> apply_add(m, s, bs)[id].body == m[id].body,
    decreases bs.len(),
{
    if bs.len() > 0 {
        lemma_add_keeps_bodies(m, s, bs.drop_last());
        let p = apply_add(m, s, bs.drop_last());
        if !corrupt(p, bs.last()) && !p[bs.last().id].stores.contains(s) {
            assert(p.insert(bs.last().id, BlockRecord { stores: p[bs.last().id].stores.push(s), ..p[bs.last().id] }).dom() =~= p.dom());
        }
    }
}

/// Removals change no block's presence or fingerprint.
pub proof fn lemma_remove_keeps_bodies(m: Map<BlockId, BlockRecord>, s: Seq<char>, bs: Seq<ReportedBlock>)
    ensures
        apply_remove(m, s, bs).dom() == m.dom(),
    decreases bs.len(),
{
    if bs.len() > 0 {
        lemma_remove_keeps_bodies(m, s, bs.drop_last());
        let p = apply_remove(m, s, bs.drop_last());
        if p.contains_key(bs.last().id) {
            assert(drop_one(p, s, bs.last().id).dom() =~= p.dom());
        }
    }
}

/// Applies an incremental report that adds blocks: each sound block gains `store` once, and
/// the identities of corrupt ones are returned in report order.
pub fn report_add(m: &mut ReplicatedBlocksMap, store: &StoreId, blocks: &Vec<ReportedBlock>) -> (r:
    Vec<BlockId>)
    ensures
        final(m)@ == apply_add(old(m)@, store@, blocks@),
        r@ == corrupt_ids(old(m)@, blocks@),
{
    let mut notices: Vec<BlockId> = Vec::new();
    let mut i: usize = 0;
    while i < blocks.len()
        invariant
            i <= blocks@.len(),
            m@ == apply_add(old(m)@, store@, blocks@.take(i as int)),
            notices@ == corrupt_ids(old(m)@, blocks@.take(i as int)),
        decreases blocks@.len() - i,
    {
        let b = blocks[i];
        proof {
            assert(blocks@.take(i + 1).drop_last() =~= blocks@.take(i as int));
            lemma_add_keeps_bodies(old(m)@, store@, blocks@.take(i as int));
        }
        if !m.matches(&b) {
            notices.push(b.id);
        } else if !m.confirmed_by(b.id, store) {
            let _ = m.push_store(store.clone(), b);
        }
        i = i + 1;
    }
    proof {
        assert(blocks@.take(i as int) =~= blocks@);
    }
    notices
}

/// Applies an incremental report that removes blocks: `store` no longer confirms any of them.
pub fn report_remove(m: &mut ReplicatedBlocksMap, store: &StoreId, blocks: &Vec<ReportedBlock>)
    ensures
        final(m)@ == apply_remove(old(m)@, store@, blocks@),
{
    let mut i: usize = 0;
    while i < blocks.len()
        invariant
            i <= blocks@.len(),
            m@ == apply_remove(old(m)@, store@, blocks@.take(i as int)),
        decreases blocks@.len() - i,
    {
        proof {
            assert(blocks@.take(i + 1).drop_last() =~= blocks@.take(i as int));
        }
        m.remove_store(blocks[i].id, store);
        i = i + 1;
    }
    proof {
        assert(blocks@.take(i as int) =~= blocks@);
    }
}

/// Withdraws `store` from every block whose identity is below `bound`.
pub fn strip_store(m: &mut ReplicatedBlocksMap, store: &StoreId, bound: BlockId)
    ensures
        final(m)@ == strip_below(old(m)@, store@, bound as int),
{
    let mut id: BlockId = 0;
    proof {
        assert(m@ =~= strip_below(old(m)@, store@, 0));
    }
    while id < bound
        invariant
            id <= bound,
            m@ == strip_below(old(m)@, store@, id as int),
        decreases bound - id,
    {
        m.remove_store(id, store);
        proof {
            assert(m@ =~= strip_below(old(m)@, store@, id + 1));
        }
        id = id + 1;
    }
}

} // verus!
