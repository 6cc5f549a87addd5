use vstd::prelude::*;

use crate::assoc::{as_map, keys_unique, lemma_key_index, lemma_push, lemma_remove, lemma_update};
use crate::path::PathSplit;
use crate::time::{elapsed, elapsed_since, Tick};

verus! {

/// The holders of one open path: whether it is held for writing, how many hold it, and when it
/// was last leased.
#[derive(Debug, Clone, Copy)]
pub struct OpenFileAttribute {
    pub write: bool,
    pub last_lease: Tick,
    pub holders: usize,
}

/// The lease of `a` has lapsed: more than `ttl` has passed since it was last refreshed.
pub open spec fn timed_out(a: OpenFileAttribute, ttl: u64, now: Tick) -> bool {
    ttl < elapsed(a.last_lease, now)
}

/// The entries of `m` whose lease has not lapsed at `now`.
pub open spec fn swept(
    m: Map<Seq<Seq<char>>, OpenFileAttribute>,
    ttl: u64,
    now: Tick,
) -> Map<Seq<Seq<char>>, OpenFileAttribute> {
    Map::new(|k: Seq<Seq<char>>| m.contains_key(k) && !timed_out(m[k], ttl, now), |k: Seq<Seq<char>>| m[k])
}

/// A sweep is idempotent: sweeping again at the same time changes nothing.
pub proof fn lemma_sweep_idempotent(m: Map<Seq<Seq<char>>, OpenFileAttribute>, ttl: u64, now: Tick)
    ensures
        swept(swept(m, ttl, now), ttl, now) == swept(m, ttl, now),
{
    assert(swept(swept(m, ttl, now), ttl, now) =~= swept(m, ttl, now));
}

impl OpenFileAttribute {
    pub fn new(write: bool, now: Tick) -> (r: OpenFileAttribute)
        ensures
            r == (OpenFileAttribute { write, last_lease: now, holders: 1 }),
    {
        OpenFileAttribute { write, last_lease: now, holders: 1 }
    }

    /// One more reader; a writer's entry is left as it is.
    pub fn read(&mut self)
        ensures
            old(self).write ==> *final(self) == *old(self),
            !old(self).write ==> *final(self) == (OpenFileAttribute {
                holders: if old(self).holders < usize::MAX {
                    (old(self).holders + 1) as usize
                } else {
                    old(self).holders
                },
                ..*old(self)
            }),
    {
        if self.write {
            return;
        }
        self.holders = self.holders.saturating_add(1);
    }

    pub fn write(&self) -> (r: bool)
        ensures
            r == self.write,
    {
        self.write
    }

    pub fn lease(&mut self, now: Tick)
        ensures
            *final(self) == (OpenFileAttribute { last_lease: now, ..*old(self) }),
    {
        self.last_lease = now;
    }

    /// One holder fewer, never below zero.
    pub fn close(&mut self)
        ensures
            *final(self) == (OpenFileAttribute {
                holders: if old(self).holders > 0 {
                    (old(self).holders - 1) as usize
                } else {
                    0
                },
                ..*old(self)
            }),
    {
        self.holders = self.holders.saturating_sub(1);
    }

    pub fn is_free(&self) -> (r: bool)
        ensures
            r == (self.holders == 0),
    {
        self.holders == 0
    }

    pub fn is_timeout(&self, ttl: u64, now: Tick) -> (r: bool)
        ensures
            r == timed_out(*self, ttl, now),
    {
        ttl < elapsed_since(self.last_lease, now)
    }
}

/// Opening was refused: the path is held in a way that excludes the request.
#[derive(Debug)]
pub struct OpenExclusionError {
    pub path: PathSplit,
}

/// No open entry exists for the path.
#[derive(Debug, Clone, Copy, PartialEq, Eq)]
pub struct LeaseNotFoundError;

/// The open paths, each with its holders and lease.
#[derive(Debug)]
pub struct OpenFileTable {
    entries: Vec<(PathSplit, OpenFileAttribute)>,
}

impl OpenFileTable {
    /// The open paths and their entries.
    pub closed spec fn view(&self) -> Map<Seq<Seq<char>>, OpenFileAttribute> {
        as_map(self.entries@)
    }

    /// Paths are unique and every entry has a holder.
    pub closed spec fn wf(&self) -> bool {
        &&& keys_unique(self.entries@)
        &&& forall|i: int| 0 <= i < self.entries@.len() ==> (#[trigger] self.entries@[i]).1.holders > 0
    }

    pub fn new() -> (r: OpenFileTable)
        ensures
            r.wf(),
            r.view() == Map::<Seq<Seq<char>>, OpenFileAttribute>::empty(),
    {
        let r = OpenFileTable { entries: Vec::new() };
        assert(r.view() =~= Map::<Seq<Seq<char>>, OpenFileAttribute>::empty());
        r
    }

    fn find(&self, path: &PathSplit) -> (r: Option<usize>)
        requires
            self.wf(),
        ensures
            r is None <==> !self.view().contains_key(path@),
            r matches Some(i) ==> i < self.entries@.len() && self.entries@[i as int].0@ == path@,
    {
        let mut i: usize = 0;
        while i < self.entries.len()
            invariant
                i <= self.entries@.len(),
                forall|j: int| 0 <= j < i ==> (#[trigger] self.entries@[j]).0@ != path@,
            decreases self.entries@.len() - i,
        {
            if self.entries[i].0.same(path) {
                return Some(i);
            }
            i = i + 1;
        }
        None
    }

    /// The entry of `path`, if it is open.
    pub fn get(&self, path: &PathSplit) -> (r: Option<OpenFileAttribute>)
        requires
            self.wf(),
        ensures
            r is None <==> !self.view().contains_key(path@),
            r matches Some(a) ==> a == self.view()[path@],
    {
        match self.find(path) {
            None => None,
            Some(i) => {
                proof {
                    lemma_key_index(self.entries@, i as int);
                }
                Some(self.entries[i].1)
            },
        }
    }

    /// Opens `path` for writing or reading: a writer excludes every other holder.
    pub fn open(&mut self, path: PathSplit, write: bool, now: Tick) -> (r: Result<
        (),
        OpenExclusionError,
    >)
        requires
            old(self).wf(),
        ensures
            final(self).wf(),
            r is Err <==> old(self).view().contains_key(path@) && (old(self).view()[path@].write
                || write),
            r matches Err(e) ==> e.path@ == path@,
            r is Err ==> final(self).view() == old(self).view(),
            r is Ok && !old(self).view().contains_key(path@) ==> final(self).view() == old(self).view().insert(path@, OpenFileAttribute { write, last_lease: now, holders: 1 }),
            r is Ok && old(self).view().contains_key(path@) ==> final(self).view() == old(self).view().insert(
                path@,
                OpenFileAttribute {
                    holders: if old(self).view()[path@].holders < usize::MAX {
                        (old(self).view()[path@].holders + 1) as usize
                    } else {
                        old(self).view()[path@].holders
                    },
                    ..old(self).view()[path@]
                },
            ),
    {
        match self.find(&path) {
            None => {
                let entry = (path, OpenFileAttribute::new(write, now));
                proof {
                    lemma_push(self.entries@, entry);
                }
                self.entries.push(entry);
                proof {
                    assert forall|i: int| 0 <= i < self.entries@.len() implies (
                    #[trigger] self.entries@[i]).1.holders > 0 by {
                        if i < old(self).entries@.len() {
                            assert(self.entries@[i] == old(self).entries@[i]);
                        }
                    }
                }
                Ok(())
            },
            Some(i) => {
                proof {
                    lemma_key_index(self.entries@, i as int);
                }
                if self.entries[i].1.write || write {
                    return Err(OpenExclusionError { path });
                }
                let mut attr = self.entries[i].1;
                attr.read();
                let key = self.entries[i].0.copied();
                proof {
                    lemma_update(self.entries@, i as int, key, attr);
                }
                self.entries.set(i, (key, attr));
                proof {
                    assert forall|j: int| 0 <= j < self.entries@.len() implies (
                    #[trigger] self.entries@[j]).1.holders > 0 by {
                        if j != i {
                            assert(self.entries@[j] == old(self).entries@[j]);
                        }
                    }
                }
                Ok(())
            },
        }
    }

    /// Refreshes the lease of an open path.
    pub fn lease(&mut self, path: &PathSplit, now: Tick) -> (r: Result<(), LeaseNotFoundError>)
        requires
            old(self).wf(),
        ensures
            final(self).wf(),
            r is Err <==> !old(self).view().contains_key(path@),
            r is Err ==> final(self).view() == old(self).view(),
            r is Ok ==> final(self).view() == old(self).view().insert(
                path@,
                OpenFileAttribute { last_lease: now, ..old(self).view()[path@] },
            ),
    {
        match self.find(path) {
            None => Err(LeaseNotFoundError),
            Some(i) => {
                proof {
                    lemma_key_index(self.entries@, i as int);
                }
                let mut attr = self.entries[i].1;
                attr.lease(now);
                let key = self.entries[i].0.copied();
                proof {
                    lemma_update(self.entries@, i as int, key, attr);
                }
                self.entries.set(i, (key, attr));
                proof {
                    assert forall|j: int| 0 <= j < self.entries@.len() implies (
                    #[trigger] self.entries@[j]).1.holders > 0 by {
                        if j != i {
                            assert(self.entries@[j] == old(self).entries@[j]);
                        }
                    }
                }
                Ok(())
            },
        }
    }

    /// One holder of `path` fewer; the entry goes when none is left. A path that is not open is
    /// left alone.
    pub fn close(&mut self, path: &PathSplit)
        requires
            old(self).wf(),
        ensures
            final(self).wf(),
            !old(self).view().contains_key(path@) ==> final(self).view() == old(self).view(),
            old(self).view().contains_key(path@) && old(self).view()[path@].holders == 1
                ==> final(self).view() == old(self).view().remove(path@),
            old(self).view().contains_key(path@) && old(self).view()[path@].holders > 1
                ==> final(self).view() == old(self).view().insert(
                path@,
                OpenFileAttribute {
                    holders: (old(self).view()[path@].holders - 1) as usize,
                    ..old(self).view()[path@]
                },
            ),
    {
        match self.find(path) {
            None => {},
            Some(i) => {
                proof {
                    lemma_key_index(self.entries@, i as int);
                }
                let mut attr = self.entries[i].1;
                attr.close();
                if attr.is_free() {
                    proof {
                        lemma_remove(self.entries@, i as int);
                    }
                    let _ = self.entries.remove(i);
                    proof {
                        assert forall|j: int| 0 <= j < self.entries@.len() implies (
                        #[trigger] self.entries@[j]).1.holders > 0 by {
                            if j < i {
                                assert(self.entries@[j] == old(self).entries@[j]);
                            } else {
                                assert(self.entries@[j] == old(self).entries@[j + 1]);
                            }
                        }
                    }
                } else {
                    let key = self.entries[i].0.copied();
                    proof {
                        lemma_update(self.entries@, i as int, key, attr);
                    }
                    self.entries.set(i, (key, attr));
                    proof {
                        assert forall|j: int| 0 <= j < self.entries@.len() implies (
                        #[trigger] self.entries@[j]).1.holders > 0 by {
                            if j != i {
                                assert(self.entries@[j] == old(self).entries@[j]);
                            }
                        }
                    }
                }
            },
        }
    }

    /// Drops every entry whose lease has lapsed, whatever its holders.
    pub fn clear_timeout(&mut self, ttl: u64, now: Tick)
        requires
            old(self).wf(),
        ensures
            final(self).wf(),
            forall|k: Seq<Seq<char>>|
                #[trigger] final(self).view().contains_key(k) <==> old(self).view().contains_key(k)
                    && !timed_out(old(self).view()[k], ttl, now),
            forall|k: Seq<Seq<char>>| #[trigger]
                final(self).view().contains_key(k) ==> final(self).view()[k] == old(self).view()[k],
            final(self).view() == swept(old(self).view(), ttl, now),
    {
        let mut i: usize = 0;
        while i < self.entries.len()
            invariant
                keys_unique(self.entries@),
                forall|j: int| 0 <= j < self.entries@.len() ==> (#[trigger] self.entries@[j]).1.holders > 0,
                i <= self.entries@.len(),
                forall|j: int| 0 <= j < i ==> !timed_out((#[trigger] self.entries@[j]).1, ttl, now),
                forall|k: Seq<Seq<char>>|
                    #[trigger] as_map(self.entries@).contains_key(k) ==> as_map(old(self).entries@).contains_key(k)
                        && as_map(self.entries@)[k] == as_map(old(self).entries@)[k],
                forall|k: Seq<Seq<char>>|
                    #[trigger] as_map(old(self).entries@).contains_key(k) && !as_map(self.entries@).contains_key(k)
                        ==> timed_out(as_map(old(self).entries@)[k], ttl, now),
            decreases self.entries@.len() - i,
        {
            if self.entries[i].1.is_timeout(ttl, now) {
                proof {
                    lemma_remove(self.entries@, i as int);
                    lemma_key_index(self.entries@, i as int);
                }
                let ghost before = self.entries@;
                let _ = self.entries.remove(i);
                proof {
                    assert forall|j: int| 0 <= j < self.entries@.len() implies (
                    #[trigger] self.entries@[j]).1.holders > 0 by {
                        if j < i {
                            assert(self.entries@[j] == before[j]);
                        } else {
                            assert(self.entries@[j] == before[j + 1]);
                        }
                    }
                    assert forall|j: int| 0 <= j < i implies !timed_out((#[trigger] self.entries@[j]).1, ttl, now) by {
                        assert(self.entries@[j] == before[j]);
                    }
                }
            } else {
                i = i + 1;
            }
        }
        proof {
            assert forall|k: Seq<Seq<char>>|
                #[trigger] as_map(self.entries@).contains_key(k) implies !timed_out(as_map(self.entries@)[k], ttl, now) by {
                let j = choose|j: int| 0 <= j < self.entries@.len() && (#[trigger] self.entries@[j]).0@ == k;
                lemma_key_index(self.entries@, j);
            }
            assert(self.view() =~= swept(old(self).view(), ttl, now));
        }
    }
}

impl Default for OpenFileTable {
    fn default() -> (r: OpenFileTable)
        ensures
            r.wf(),
            r.view() == Map::<Seq<Seq<char>>, OpenFileAttribute>::empty(),
    {
        OpenFileTable::new()
    }
}

} // verus!
