use std::collections::HashMap;
use vstd::prelude::*;
use vstd::std_specs::hash::spec_keys_iter;
use vstd::std_specs::iter::IteratorSpec;

use crate::error::DbError;
use crate::storage::lru::LruReplacer;
use crate::storage::page::{BTreeNode, PageId};

verus! {

broadcast use vstd::std_specs::hash::group_hash_axioms;

/// The buffer pool's page table: the cached frames by page number, the
/// replacer that orders them by last access, and the most frames it may
/// hold. Every page that the replacer tracks is cached, and no more frames
/// are cached than the capacity allows.
pub struct PageTable<F> {
    frames: HashMap<u64, F>,
    replacer: LruReplacer,
    capacity: usize,
}

impl<F> PageTable<F> {
    /// The cached frames, by page number.
    pub closed spec fn frames(&self) -> Map<u64, F> {
        self.frames@
    }

    /// The pages the replacer tracks, least recently used first.
    pub closed spec fn order(&self) -> Seq<PageId> {
        self.replacer@
    }

    /// The most frames the table may hold.
    pub closed spec fn spec_capacity(&self) -> nat {
        self.capacity as nat
    }

    /// The table's invariant: the replacer tracks no page twice, every
    /// tracked page is cached, and at most `capacity` frames are cached.
    pub closed spec fn wf(&self) -> bool {
        &&& self.replacer.wf()
        &&& forall|i: int|
            0 <= i < self.replacer@.len() ==> self.frames@.contains_key(
                (#[trigger] self.replacer@[i]).0,
            )
        &&& self.frames@.dom().finite()
        &&& self.frames@.len() <= self.capacity
    }

    /// Creates an empty table for at most `capacity` frames.
    pub fn new(capacity: usize) -> (t: Self)
        ensures
            t.wf(),
            t.frames() == Map::<u64, F>::empty(),
            t.order() == Seq::<PageId>::empty(),
            t.spec_capacity() == capacity,
    {
        let t = PageTable {
            frames: HashMap::with_capacity(capacity),
            replacer: LruReplacer::new(capacity),
            capacity,
        };
        assert(t.frames@.dom() =~= Set::<u64>::empty());
        t
    }

    /// The number of cached frames.
    pub fn len(&self) -> (n: usize)
        requires
            self.wf(),
        ensures
            n == self.frames().len(),
    {
        self.frames.len()
    }

    /// Whether no further frame may be cached without an eviction.
    pub fn is_full(&self) -> (r: bool)
        requires
            self.wf(),
        ensures
            r == (self.frames().len() >= self.spec_capacity()),
    {
        self.frames.len() >= self.capacity
    }

    /// The cached frame of `page_id`, if any.
    pub fn get(&self, page_id: PageId) -> (r: Option<&F>)
        ensures
            match r {
                Some(f) => self.frames().contains_key(page_id.0) && *f == self.frames()[page_id.0],
                None => !self.frames().contains_key(page_id.0),
            },
    {
        self.frames.get(&page_id.0)
    }

    /// Records an access to the cached page `page_id`: it becomes the most
    /// recently used page.
    pub fn record_access(&mut self, page_id: PageId)
        requires
            old(self).wf(),
            old(self).frames().contains_key(page_id.0),
        ensures
            final(self).wf(),
            final(self).frames() == old(self).frames(),
            final(self).spec_capacity() == old(self).spec_capacity(),
            final(self).order().last() == page_id,
            old(self).order().contains(page_id) ==> exists|j: int|
                0 <= j < old(self).order().len() && old(self).order()[j] == page_id && final(self).order() == old(self).order().remove(j).push(page_id),
            !old(self).order().contains(page_id) ==> final(self).order() == old(self).order().push(
                page_id,
            ),
    {
        self.replacer.record_access(page_id);
        assert forall|i: int| 0 <= i < self.replacer@.len() implies self.frames@.contains_key(
            (#[trigger] self.replacer@[i]).0,
        ) by {
            if i < self.replacer@.len() - 1 {
                if old(self).replacer@.contains(page_id) {
                    let j = choose|j: int|
                        0 <= j < old(self).replacer@.len() && old(self).replacer@[j] == page_id
                            && self.replacer@ == old(self).replacer@.remove(j).push(page_id);
                    let oi = if i < j { i } else { i + 1 };
                    assert(self.replacer@[i] == old(self).replacer@[oi]);
                } else {
                    assert(self.replacer@[i] == old(self).replacer@[i]);
                }
            }
        }
    }

    /// Caches `frame` as page `page_id`, replacing a frame already cached
    /// for it, and records an access to it. A new page needs room.
    pub fn insert(&mut self, page_id: PageId, frame: F)
        requires
            old(self).wf(),
            old(self).frames().contains_key(page_id.0) || old(self).frames().len() < old(self).spec_capacity(),
        ensures
            final(self).wf(),
            final(self).frames() == old(self).frames().insert(page_id.0, frame),
            final(self).spec_capacity() == old(self).spec_capacity(),
            final(self).order().last() == page_id,
            old(self).order().contains(page_id) ==> exists|j: int|
                0 <= j < old(self).order().len() && old(self).order()[j] == page_id && final(self).order() == old(self).order().remove(j).push(page_id),
            !old(self).order().contains(page_id) ==> final(self).order() == old(self).order().push(
                page_id,
            ),
    {
        self.frames.insert(page_id.0, frame);
        proof {
            if old(self).frames@.contains_key(page_id.0) {
                assert(self.frames@.dom() =~= old(self).frames@.dom());
            } else {
                assert(self.frames@.dom() =~= old(self).frames@.dom().insert(page_id.0));
            }
            assert forall|i: int| 0 <= i < self.replacer@.len() implies self.frames@.contains_key(
                (#[trigger] self.replacer@[i]).0,
            ) by {
                assert(old(self).frames@.contains_key(old(self).replacer@[i].0));
            }
        }
        self.record_access(page_id);
    }

    /// Stops caching and tracking page `page_id`.
    pub fn remove(&mut self, page_id: PageId)
        requires
            old(self).wf(),
        ensures
            final(self).wf(),
            final(self).frames() == old(self).frames().remove(page_id.0),
            final(self).spec_capacity() == old(self).spec_capacity(),
            !final(self).order().contains(page_id),
            old(self).order().contains(page_id) ==> exists|j: int|
                0 <= j < old(self).order().len() && old(self).order()[j] == page_id && final(self).order() == old(self).order().remove(j),
            !old(self).order().contains(page_id) ==> final(self).order() == old(self).order(),
    {
        self.frames.remove(&page_id.0);
        self.replacer.remove(page_id);
        proof {
            if old(self).frames@.contains_key(page_id.0) {
                assert(self.frames@.dom() =~= old(self).frames@.dom().remove(page_id.0));
            } else {
                assert(self.frames@.dom() =~= old(self).frames@.dom());
            }
            assert forall|i: int| 0 <= i < self.replacer@.len() implies self.frames@.contains_key(
                (#[trigger] self.replacer@[i]).0,
            ) by {
                let p = self.replacer@[i];
                if old(self).replacer@.contains(page_id) {
                    let j = choose|j: int|
                        0 <= j < old(self).replacer@.len() && old(self).replacer@[j] == page_id
                            && self.replacer@ == old(self).replacer@.remove(j);
                    let oi = if i < j { i } else { i + 1 };
                    assert(p == old(self).replacer@[oi]);
                } else {
                    assert(p == old(self).replacer@[i]);
                }
                assert(p != page_id);
            }
        }
    }

    /// Chooses the page to evict: the least recently used tracked page whose
    /// frame `evictable` accepts. It stops being tracked but stays cached, so
    /// that it can be written back before [`PageTable::remove`] drops it.
    /// `None` when every tracked frame was refused; then nothing changes.
    pub fn choose_victim<P: Fn(&F) -> bool>(&mut self, evictable: P) -> (r: Option<PageId>)
        requires
            old(self).wf(),
            forall|f: &F| evictable.requires((f,)),
        ensures
            final(self).wf(),
            final(self).frames() == old(self).frames(),
            final(self).spec_capacity() == old(self).spec_capacity(),
            match r {
                Some(id) => exists|j: int|
                    {
                        &&& 0 <= j < old(self).order().len()
                        &&& old(self).order()[j] == id
                        &&& final(self).order() == old(self).order().remove(j)
                        &&& old(self).frames().contains_key(id.0)
                        &&& evictable.ensures((&old(self).frames()[id.0],), true)
                        &&& forall|k: int|
                            0 <= k < j ==> evictable.ensures(
                                (&old(self).frames()[(#[trigger] old(self).order()[k]).0],),
                                false,
                            )
                    },
                None => {
                    &&& final(self).order() == old(self).order()
                    &&& forall|k: int|
                        0 <= k < old(self).order().len() ==> evictable.ensures(
                            (&old(self).frames()[(#[trigger] old(self).order()[k]).0],),
                            false,
                        )
                },
            },
    {
        let frames = &self.frames;
        let accepts = &evictable;
        let cached_and_evictable = |p: &PageId| -> (b: bool)
            requires
                forall|f: &F| accepts.requires((f,)),
            ensures
                frames@.contains_key(p.0) ==> accepts.ensures((&frames@.index(p.0),), b),
                b ==> frames@.contains_key(p.0),
            {
                match frames.get(&p.0) {
                    Some(f) => accepts(f),
                    None => false,
                }
            };
        let victim = self.replacer.evict_if(cached_and_evictable);
        proof {
            if victim is Some {
                let id = victim->0;
                let j = choose|j: int|
                    {
                        &&& 0 <= j < old(self).replacer@.len()
                        &&& old(self).replacer@[j] == id
                        &&& self.replacer@ == old(self).replacer@.remove(j)
                        &&& cached_and_evictable.ensures((&id,), true)
                        &&& forall|k: int|
                            0 <= k < j ==> cached_and_evictable.ensures(
                                (&old(self).replacer@[k],),
                                false,
                            )
                    };
                assert(frames@.contains_key(id.0));
                assert(accepts.ensures((&frames@.index(id.0),), true));
                assert(evictable.ensures((&old(self).frames()[id.0],), true));
                assert forall|k: int| 0 <= k < j implies evictable.ensures(
                    (&old(self).frames()[(#[trigger] old(self).order()[k]).0],),
                    false,
                ) by {
                    assert(cached_and_evictable.ensures((&old(self).replacer@[k],), false));
                    assert(frames@.contains_key(old(self).replacer@[k].0));
                }
                assert(old(self).order()[j] == id);
                assert(self.order() == old(self).order().remove(j));
                assert(old(self).frames().contains_key(id.0));
            }
            assert forall|i: int| 0 <= i < self.replacer@.len() implies self.frames@.contains_key(
                (#[trigger] self.replacer@[i]).0,
            ) by {
                if victim is Some {
                    let j = choose|j: int|
                        0 <= j < old(self).replacer@.len() && old(self).replacer@[j] == victim->0
                            && self.replacer@ == old(self).replacer@.remove(j);
                    let oi = if i < j { i } else { i + 1 };
                    assert(self.replacer@[i] == old(self).replacer@[oi]);
                }
            }
        }
        victim
    }

    /// The pages that are cached.
    pub fn page_ids(&self) -> (ids: Vec<PageId>)
        requires
            self.wf(),
        ensures
            forall|p: PageId| ids@.contains(p) <==> self.frames().contains_key(p.0),
    {
        let ghost rem = spec_keys_iter(&self.frames).remaining();
        let mut ids: Vec<PageId> = Vec::new();
        for k in it: self.frames.keys()
            invariant
                it.seq() == rem,
                ids@.len() == it.index(),
                forall|i: int| 0 <= i < ids@.len() ==> ids@[i] == PageId(*rem[i]),
        {
            ids.push(PageId(*k));
        }
        assert(ids@.len() == rem.len());
        assert forall|p: PageId| ids@.contains(p) <==> self.frames@.contains_key(p.0) by {
            let keys = rem.unref();
            assert(keys.to_set() == self.frames@.dom());
            if ids@.contains(p) {
                let i = choose|i: int| 0 <= i < ids@.len() && ids@[i] == p;
                assert(keys[i] == *rem[i]);
                assert(keys.contains(p.0));
                assert(keys.to_set().contains(p.0));
            }
            if self.frames@.contains_key(p.0) {
                assert(keys.to_set().contains(p.0));
                assert(keys.contains(p.0));
                let i = choose|i: int| 0 <= i < keys.len() && keys[i] == p.0;
                assert(ids@[i] == p);
            }
        }
        ids
    }
}

/// The page table's invariant, as its users see it: at most `capacity`
/// frames are cached, and every page that the replacer may offer for
/// eviction is cached.
pub proof fn lemma_page_table_invariant<F>(t: &PageTable<F>)
    requires
        t.wf(),
    ensures
        t.frames().len() <= t.spec_capacity(),
        forall|i: int| 0 <= i < t.order().len() ==> t.frames().contains_key((#[trigger] t.order()[i]).0),
        t.order().no_duplicates(),
{
    t.replacer.lemma_wf_no_duplicates();
}

/// Decouples the memory manager from the physical WAL implementation.
pub trait WalFlusher: core::fmt::Debug + Send + Sync {
    /// Forces the WAL manager to synchronously write and fsync all log
    /// records up to and including the specified lsn, out to the non-volatile
    /// disk.
    fn flush_upto(&self, lsn: u64) -> Result<(), DbError>;
}

/// Whether a cached page must be written back before it is dropped or
/// flushed: `Some` with the log sequence number up to which the write-ahead
/// log must first be made durable when the page is dirty, `None` when the copy
/// on disk is current.
pub fn write_back_lsn(node: &BTreeNode) -> (r: Option<u64>)
    ensures
        node.spec_header().is_dirty ==> r == Some(node.spec_header().last_lsn),
        !node.spec_header().is_dirty ==> r is None,
{
    if node.is_dirty() {
        Some(node.get_last_lsn())
    } else {
        None
    }
}

} // verus!
