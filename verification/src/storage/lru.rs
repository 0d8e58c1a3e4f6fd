use vstd::prelude::*;

use crate::storage::page::PageId;

verus! {

/// Tracks the order in which cached pages were last accessed and chooses
/// which page to evict: the least recently used one that may be evicted.
#[derive(Debug)]
pub struct LruReplacer {
    /// The cached pages, least recently used first; no page occurs twice.
    order: Vec<PageId>,
}

impl View for LruReplacer {
    type V = Seq<PageId>;

    /// The tracked pages, least recently used first.
    closed spec fn view(&self) -> Seq<PageId> {
        self.order@
    }
}

/// After an access, the accessed page is the most recently used one and no
/// other page is offered for eviction after it: every other tracked page keeps
/// its relative order ahead of it.
pub proof fn lemma_accessed_page_is_offered_last(s: Seq<PageId>, p: PageId, j: int)
    requires
        s.no_duplicates(),
        0 <= j < s.len(),
        s[j] == p,
    ensures
        s.remove(j).push(p).last() == p,
        forall|k: int| 0 <= k < s.len() - 1 ==> s.remove(j).push(p)[k] != p,
        forall|k: int|
            0 <= k < s.len() - 1 ==> s.remove(j).push(p)[k] == s[if k < j {
                k
            } else {
                k + 1
            }],
{
    let t = s.remove(j).push(p);
    assert forall|k: int| 0 <= k < s.len() - 1 implies t[k] != p by {
        let ok = if k < j { k } else { k + 1 };
        assert(t[k] == s[ok]);
    }
}

impl LruReplacer {
    /// No page is tracked twice.
    pub closed spec fn wf(&self) -> bool {
        self.order@.no_duplicates()
    }

    /// A replacer that satisfies its invariant tracks no page twice.
    pub proof fn lemma_wf_no_duplicates(&self)
        requires
            self.wf(),
        ensures
            self@.no_duplicates(),
    {
    }

    /// Creates a replacer that tracks no page, with room for `capacity` pages.
    pub fn new(capacity: usize) -> (r: Self)
        ensures
            r.wf(),
            r@ == Seq::<PageId>::empty(),
    {
        LruReplacer { order: Vec::with_capacity(capacity) }
    }

    /// The number of tracked pages.
    pub fn len(&self) -> (n: usize)
        ensures
            n == self@.len(),
    {
        self.order.len()
    }

    /// Position of `page_id` in the access order, if it is tracked.
    fn position(&self, page_id: PageId) -> (r: Option<usize>)
        ensures
            match r {
                Some(j) => j < self@.len() && self@[j as int] == page_id,
                None => !self@.contains(page_id),
            },
    {
        let mut i: usize = 0;
        while i < self.order.len()
            invariant
                i <= self.order@.len(),
                forall|k: int| 0 <= k < i ==> self.order@[k] != page_id,
            decreases self.order@.len() - i,
        {
            if self.order[i].0 == page_id.0 {
                return Some(i);
            }
            i = i + 1;
        }
        None
    }

    /// Records an access to `page_id`: it becomes the most recently used page,
    /// and the order of the others is kept.
    pub fn record_access(&mut self, page_id: PageId)
        requires
            old(self).wf(),
        ensures
            final(self).wf(),
            final(self)@.last() == page_id,
            old(self)@.contains(page_id) ==> exists|j: int|
                0 <= j < old(self)@.len() && old(self)@[j] == page_id && final(self)@ == old(
                    self,
                )@.remove(j).push(page_id),
            !old(self)@.contains(page_id) ==> final(self)@ == old(self)@.push(page_id),
    {
        match self.position(page_id) {
            Some(j) => {
                let ghost before = self.order@;
                self.order.remove(j);
                assert(self.order@ == before.remove(j as int));
                self.order.push(page_id);
                assert forall|a: int, b: int|
                    0 <= a < self.order@.len() && 0 <= b < self.order@.len() && a != b implies self.order@[a]
                    != self.order@[b] by {
                    let oa = if a < j { a } else { a + 1 };
                    let ob = if b < j { b } else { b + 1 };
                    if a == self.order@.len() - 1 {
                        assert(before[ob] != page_id);
                    } else if b == self.order@.len() - 1 {
                        assert(before[oa] != page_id);
                    } else {
                        assert(self.order@[a] == before[oa]);
                        assert(self.order@[b] == before[ob]);
                    }
                }
            },
            None => {
                self.order.push(page_id);
                assert forall|a: int, b: int|
                    0 <= a < self.order@.len() && 0 <= b < self.order@.len() && a != b implies self.order@[a]
                    != self.order@[b] by {
                    if a == self.order@.len() - 1 {
                        assert(old(self).order@[b] == self.order@[b]);
                    } else if b == self.order@.len() - 1 {
                        assert(old(self).order@[a] == self.order@[a]);
                    } else {
                        assert(old(self).order@[a] == self.order@[a]);
                        assert(old(self).order@[b] == self.order@[b]);
                    }
                }
            },
        }
    }

    /// Stops tracking `page_id`, if it is tracked; the order of the other
    /// pages is kept.
    pub fn remove(&mut self, page_id: PageId)
        requires
            old(self).wf(),
        ensures
            final(self).wf(),
            !final(self)@.contains(page_id),
            old(self)@.contains(page_id) ==> exists|j: int|
                0 <= j < old(self)@.len() && old(self)@[j] == page_id && final(self)@ == old(
                    self,
                )@.remove(j),
            !old(self)@.contains(page_id) ==> final(self)@ == old(self)@,
    {
        match self.position(page_id) {
            Some(j) => {
                let ghost before = self.order@;
                self.order.remove(j);
                assert(self.order@ == before.remove(j as int));
                assert forall|a: int, b: int|
                    0 <= a < self.order@.len() && 0 <= b < self.order@.len() && a != b implies self.order@[a]
                    != self.order@[b] by {
                    let oa = if a < j { a } else { a + 1 };
                    let ob = if b < j { b } else { b + 1 };
                    assert(self.order@[a] == before[oa]);
                    assert(self.order@[b] == before[ob]);
                }
                assert forall|k: int| 0 <= k < self.order@.len() implies self.order@[k] != page_id by {
                    let ok = if k < j { k } else { k + 1 };
                    assert(self.order@[k] == before[ok]);
                }
            },
            None => {},
        }
    }

    /// Evicts the least recently used page for which `evictable` answers
    /// true: the pages are offered from least to most recently used, and the
    /// first accepted one stops being tracked and is returned. `None` when
    /// every tracked page was refused; then nothing changes.
    pub fn evict_if<F: Fn(&PageId) -> bool>(&mut self, evictable: F) -> (r: Option<PageId>)
        requires
            old(self).wf(),
            forall|p: PageId| evictable.requires((&p,)),
        ensures
            final(self).wf(),
            match r {
                Some(id) => exists|j: int|
                    {
                        &&& 0 <= j < old(self)@.len()
                        &&& old(self)@[j] == id
                        &&& final(self)@ == old(self)@.remove(j)
                        &&& evictable.ensures((&id,), true)
                        &&& forall|k: int| 0 <= k < j ==> evictable.ensures((&old(self)@[k],), false)
                    },
                None => {
                    &&& final(self)@ == old(self)@
                    &&& forall|k: int|
                        0 <= k < old(self)@.len() ==> evictable.ensures((&old(self)@[k],), false)
                },
            },
    {
        let mut i: usize = 0;
        while i < self.order.len()
            invariant
                i <= self.order@.len(),
                self.order@ == old(self).order@,
                self.wf(),
                forall|p: PageId| evictable.requires((&p,)),
                forall|k: int| 0 <= k < i ==> evictable.ensures((&self.order@[k],), false),
            decreases self.order@.len() - i,
        {
            let candidate = self.order[i];
            if evictable(&candidate) {
                let ghost before = self.order@;
                let id = self.order.remove(i);
                assert forall|a: int, b: int|
                    0 <= a < self.order@.len() && 0 <= b < self.order@.len() && a != b implies self.order@[a]
                    != self.order@[b] by {
                    let oa = if a < i { a } else { a + 1 };
                    let ob = if b < i { b } else { b + 1 };
                    assert(self.order@[a] == before[oa]);
                    assert(self.order@[b] == before[ob]);
                }
                assert(id == candidate);
                assert(evictable.ensures((&before[i as int],), true));
                assert(self.order@ == old(self)@.remove(i as int));
                return Some(id);
            }
            i = i + 1;
        }
        None
    }
}

} // verus!
