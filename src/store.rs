use vstd::prelude::*;

use crate::assoc::{as_map, keys_unique, lemma_key_index, lemma_push, lemma_update};
use crate::block::StoreId;
use crate::time::{elapsed, elapsed_since, Tick};

verus! {

/// Static configuration of a storage node: the address it serves on.
#[derive(Debug, Clone)]
pub struct StoreConfig {
    pub addr: String,
}

impl StoreConfig {
    pub fn new(addr: String) -> (r: StoreConfig)
        ensures
            r.addr@ == addr@,
    {
        StoreConfig { addr }
    }

    /// A copy of this configuration.
    pub fn copied(&self) -> (r: StoreConfig)
        ensures
            r == *self,
    {
        StoreConfig { addr: self.addr.clone() }
    }

    pub fn addr(&self) -> (r: &String)
        ensures
            r@ == self.addr@,
    {
        &self.addr
    }
}

/// A storage node's configuration and the time of its last heartbeat, if any.
#[derive(Debug, Clone)]
pub struct StoreStatus {
    pub config: StoreConfig,
    pub last_heartbeat: Option<Tick>,
}

/// A node is alive when it has beaten at most `ttl` before `now`.
pub open spec fn alive(last_heartbeat: Option<Tick>, ttl: u64, now: Tick) -> bool {
    match last_heartbeat {
        None => false,
        Some(t) => elapsed(t, now) <= ttl,
    }
}

impl StoreStatus {
    /// A registered node that has not beaten yet.
    pub fn new(config: StoreConfig) -> (r: StoreStatus)
        ensures
            r.config == config,
            r.last_heartbeat is None,
    {
        StoreStatus { config, last_heartbeat: None }
    }

    pub fn config(&self) -> (r: &StoreConfig)
        ensures
            *r == self.config,
    {
        &self.config
    }

    pub fn beat(&mut self, now: Tick)
        ensures
            final(self).config == old(self).config,
            final(self).last_heartbeat == Some(now),
    {
        self.last_heartbeat = Some(now);
    }

    pub fn is_alive(&self, ttl: u64, now: Tick) -> (r: bool)
        ensures
            r == alive(self.last_heartbeat, ttl, now),
    {
        match self.last_heartbeat {
            None => false,
            Some(t) => elapsed_since(t, now) <= ttl,
        }
    }
}

/// The registered storage nodes, in the order they were registered.
#[derive(Debug)]
pub struct StoreStatusesMap {
    entries: Vec<(StoreId, StoreStatus)>,
}

impl StoreStatusesMap {
    /// Each registered node, by identity.
    pub closed spec fn view(&self) -> Map<Seq<char>, StoreStatus> {
        as_map(self.entries@)
    }

    /// The identities in registration order.
    pub closed spec fn ids(&self) -> Seq<Seq<char>> {
        self.entries@.map_values(|e: (StoreId, StoreStatus)| e.0@)
    }

    pub closed spec fn wf(&self) -> bool {
        keys_unique(self.entries@)
    }

    pub fn new() -> (r: StoreStatusesMap)
        ensures
            r.wf(),
            r.view() == Map::<Seq<char>, StoreStatus>::empty(),
            r.ids().len() == 0,
    {
        let r = StoreStatusesMap { entries: Vec::new() };
        assert(r.view() =~= Map::<Seq<char>, StoreStatus>::empty());
        r
    }

    fn find(&self, store: &StoreId) -> (r: Option<usize>)
        requires
            self.wf(),
        ensures
            r is None <==> !self.view().contains_key(store@),
            r matches Some(i) ==> i < self.entries@.len() && self.entries@[i as int].0@ == store@,
    {
        let mut i: usize = 0;
        while i < self.entries.len()
            invariant
                i <= self.entries@.len(),
                forall|j: int| 0 <= j < i ==> (#[trigger] self.entries@[j]).0@ != store@,
            decreases self.entries@.len() - i,
        {
            if self.entries[i].0 == *store {
                return Some(i);
            }
            i = i + 1;
        }
        None
    }

    pub fn contains(&self, store: &StoreId) -> (r: bool)
        requires
            self.wf(),
        ensures
            r == self.view().contains_key(store@),
    {
        self.find(store).is_some()
    }

    /// Registers a node that has not been registered before; it has not beaten yet.
    pub fn insert(&mut self, store: StoreId, config: StoreConfig)
        requires
            old(self).wf(),
            !old(self).view().contains_key(store@),
        ensures
            final(self).wf(),
            final(self).view() == old(self).view().insert(store@, StoreStatus::new_spec(config)),
            final(self).ids() == old(self).ids().push(store@),
    {
        let entry = (store, StoreStatus::new(config));
        proof {
            lemma_push(self.entries@, entry);
        }
        self.entries.push(entry);
        proof {
            assert(self.ids() =~= old(self).ids().push(entry.0@));
        }
    }

    /// The status of a registered node.
    pub fn get(&self, store: &StoreId) -> (r: Option<&StoreStatus>)
        requires
            self.wf(),
        ensures
            r is None <==> !self.view().contains_key(store@),
            r matches Some(s) ==> *s == self.view()[store@],
    {
        match self.find(store) {
            None => None,
            Some(i) => {
                proof {
                    lemma_key_index(self.entries@, i as int);
                }
                Some(&self.entries[i].1)
            },
        }
    }

    /// A mutable borrow of the status of a registered node.
    pub fn get_mut(&mut self, store: &StoreId) -> (r: Option<&mut StoreStatus>)
        requires
            old(self).wf(),
        ensures
            r is None <==> !old(self).view().contains_key(store@),
            r is None ==> *final(self) == *old(self),
            r matches Some(s) ==> *s == old(self).view()[store@] && final(self).wf()
                && final(self).ids() == old(self).ids() && final(self).view() == old(
                self,
            ).view().insert(store@, *final(s)),
    {
        match self.find(store) {
            None => None,
            Some(i) => {
                proof {
                    lemma_key_index(self.entries@, i as int);
                }
                let entry = &mut self.entries[i];
                proof {
                    lemma_update(old(self).entries@, i as int, old(self).entries@[i as int].0, (*final(entry)).1);
                }
                Some(&mut entry.1)
            },
        }
    }

    /// Stamps the heartbeat of a registered node; an unknown node is ignored.
    pub fn heartbeat(&mut self, store: &StoreId, now: Tick) -> (r: bool)
        requires
            old(self).wf(),
        ensures
            final(self).wf(),
            r == old(self).view().contains_key(store@),
            final(self).ids() == old(self).ids(),
            !r ==> final(self).view() == old(self).view(),
            r ==> final(self).view() == old(self).view().insert(
                store@,
                StoreStatus { last_heartbeat: Some(now), ..old(self).view()[store@] },
            ),
    {
        match self.find(store) {
            None => false,
            Some(i) => {
                proof {
                    lemma_key_index(self.entries@, i as int);
                }
                let status = StoreStatus {
                    config: self.entries[i].1.config.copied(),
                    last_heartbeat: Some(now),
                };
                let key = self.entries[i].0.clone();
                proof {
                    lemma_update(self.entries@, i as int, key, status);
                }
                self.entries.set(i, (key, status));
                proof {
                    assert(self.ids() =~= old(self).ids());
                }
                true
            },
        }
    }

    /// Whether the registered node `store` has beaten within `ttl` of `now`; false for an
    /// unknown node.
    pub fn is_alive(&self, store: &StoreId, ttl: u64, now: Tick) -> (r: bool)
        requires
            self.wf(),
        ensures
            r == (self.view().contains_key(store@) && alive(
                self.view()[store@].last_heartbeat,
                ttl,
                now,
            )),
    {
        match self.get(store) {
            None => false,
            Some(s) => s.is_alive(ttl, now),
        }
    }

    /// The address of the first node, in registration order, that is alive at `now`.
    pub fn first_alive(&self, ttl: u64, now: Tick) -> (r: Option<String>)
        requires
            self.wf(),
        ensures
            r is None ==> forall|k: Seq<char>|
                #[trigger] self.view().contains_key(k) ==> !alive(
                    self.view()[k].last_heartbeat,
                    ttl,
                    now,
                ),
            r matches Some(a) ==> exists|k: Seq<char>|
                #[trigger] self.view().contains_key(k) && alive(
                    self.view()[k].last_heartbeat,
                    ttl,
                    now,
                ) && self.view()[k].config.addr@ == a@,
    {
        let mut i: usize = 0;
        while i < self.entries.len()
            invariant
                self.wf(),
                i <= self.entries@.len(),
                forall|j: int|
                    0 <= j < i ==> !alive((#[trigger] self.entries@[j]).1.last_heartbeat, ttl, now),
            decreases self.entries@.len() - i,
        {
            if self.entries[i].1.is_alive(ttl, now) {
                proof {
                    lemma_key_index(self.entries@, i as int);
                }
                return Some(self.entries[i].1.config.addr.clone());
            }
            i = i + 1;
        }
        proof {
            assert forall|k: Seq<char>| #[trigger] self.view().contains_key(k) implies !alive(
                self.view()[k].last_heartbeat,
                ttl,
                now,
            ) by {
                let j = choose|j: int| 0 <= j < self.entries@.len() && (#[trigger] self.entries@[j]).0@ == k;
                lemma_key_index(self.entries@, j);
            }
        }
        None
    }
}

impl StoreStatus {
    pub open spec fn new_spec(config: StoreConfig) -> StoreStatus {
        StoreStatus { config, last_heartbeat: None }
    }
}

impl Default for StoreStatusesMap {
    fn default() -> (r: StoreStatusesMap)
        ensures
            r.wf(),
            r.view() == Map::<Seq<char>, StoreStatus>::empty(),
    {
        StoreStatusesMap::new()
    }
}

} // verus!
