use vstd::prelude::*;

use crate::error::DbError;
use crate::storage::page::{BTreeNode, LeafNode, PageId};

verus! {

/// The first slot at or after `from` whose record is not deleted.
pub open spec fn first_live_slot(leaf: &LeafNode, from: int) -> Option<int>
    decreases leaf.slot_array@.len() - from,
{
    if from < 0 || from >= leaf.slot_array@.len() {
        None
    } else if !leaf.records@[leaf.slot_array@[from] as int].is_deleted {
        Some(from)
    } else {
        first_live_slot(leaf, from + 1)
    }
}

/// The first live slot at or after `from` is a live slot at or after `from`,
/// and every slot between `from` and it is deleted.
pub proof fn lemma_first_live_slot(leaf: &LeafNode, from: int)
    requires
        0 <= from,
    ensures
        first_live_slot(leaf, from) matches Some(j) ==> {
            &&& from <= j < leaf.slot_array@.len()
            &&& !leaf.records@[leaf.slot_array@[j] as int].is_deleted
        },
        forall|k: int|
            from <= k < leaf.slot_array@.len() && (first_live_slot(leaf, from) matches Some(j)
                ==> k < j) ==> leaf.records@[#[trigger] leaf.slot_array@[k] as int].is_deleted,
    decreases leaf.slot_array@.len() - from,
{
    if from < leaf.slot_array@.len() && leaf.records@[leaf.slot_array@[from] as int].is_deleted {
        lemma_first_live_slot(leaf, from + 1);
    }
}

/// One step of a cursor over the leaf it names: the cursor afterwards, and
/// the bytes of the record it loaded, if any.
pub open spec fn leaf_step(it: BpTreeIterator, leaf: LeafNode) -> (BpTreeIterator, Option<Seq<u8>>) {
    match first_live_slot(&leaf, it.curr_slot_idx as int) {
        Some(j) => (
            BpTreeIterator { curr_page_id: it.curr_page_id, curr_slot_idx: (j + 1) as usize },
            Some(leaf.records@[leaf.slot_array@[j] as int].data@),
        ),
        None => (
            if leaf.has_next {
                BpTreeIterator::new_spec(leaf.next_page_id)
            } else {
                BpTreeIterator {
                    curr_page_id: None,
                    curr_slot_idx: if (it.curr_slot_idx as int) < leaf.slot_array@.len() {
                        leaf.slot_array@.len() as usize
                    } else {
                        it.curr_slot_idx
                    },
                }
            },
            None,
        ),
    }
}

/// The data of the live records of `leaf` at slot `from` and after, in slot
/// order.
pub open spec fn live_records(leaf: LeafNode, from: int) -> Seq<Seq<u8>>
    decreases leaf.slot_array@.len() - from,
{
    if from < 0 || from >= leaf.slot_array@.len() {
        seq![]
    } else if !leaf.records@[leaf.slot_array@[from] as int].is_deleted {
        seq![leaf.records@[leaf.slot_array@[from] as int].data@] + live_records(leaf, from + 1)
    } else {
        live_records(leaf, from + 1)
    }
}

/// The data of the live records of the leaves `chain[k..]`, leaf after leaf.
pub open spec fn chain_records(chain: Seq<LeafNode>, k: int) -> Seq<Seq<u8>>
    decreases chain.len() - k,
{
    if k < 0 || k >= chain.len() {
        seq![]
    } else {
        live_records(chain[k], 0) + chain_records(chain, k + 1)
    }
}

/// Enough steps to scan the leaves `chain[k..]`: one per slot and one more per leaf.
pub open spec fn chain_steps(chain: Seq<LeafNode>, k: int) -> nat
    decreases chain.len() - k,
{
    if k < 0 || k >= chain.len() {
        0
    } else {
        chain[k].slot_array@.len() + 1 + chain_steps(chain, k + 1)
    }
}

/// Up to `steps` steps of a cursor over the leaf chain `chain`, whose pages
/// are `ids`, starting at leaf `k`: the records loaded, in order, and the
/// cursor afterwards. A step is taken only on the leaf that the cursor names.
pub open spec fn run_cursor(
    chain: Seq<LeafNode>,
    ids: Seq<PageId>,
    k: int,
    it: BpTreeIterator,
    steps: nat,
) -> (Seq<Seq<u8>>, BpTreeIterator)
    decreases steps,
{
    if steps == 0 || k < 0 || k >= chain.len() || k >= ids.len() || it.curr_page_id != Some(
        ids[k],
    ) {
        (seq![], it)
    } else {
        let (next, loaded) = leaf_step(it, chain[k]);
        match loaded {
            Some(d) => {
                let (rest, end) = run_cursor(chain, ids, k, next, (steps - 1) as nat);
                (seq![d] + rest, end)
            },
            None => if next.curr_page_id is None {
                (seq![], next)
            } else {
                run_cursor(chain, ids, k + 1, next, (steps - 1) as nat)
            },
        }
    }
}

/// The leaves `chain`, on the pages `ids`, are linked in order: each leaf but
/// the last names the next one's page, and the last has no successor (and,
/// as for every vector, no slot array is longer than `usize::MAX`).
pub open spec fn linked_chain(chain: Seq<LeafNode>, ids: Seq<PageId>) -> bool {
    &&& chain.len() >= 1
    &&& ids.len() == chain.len()
    &&& forall|k: int|
        0 <= k < chain.len() - 1 ==> #[trigger] chain[k].has_next && chain[k].next_page_id == ids[k
            + 1]
    &&& !chain.last().has_next
    &&& forall|k: int| 0 <= k < chain.len() ==> #[trigger] chain[k].slot_array@.len() <= usize::MAX
}

/// The live records from slot `s` on are those of the first live slot at or
/// after `s`, followed by the live records after it; none when there is no
/// such slot.
pub proof fn lemma_live_records_step(leaf: LeafNode, s: int)
    requires
        0 <= s,
    ensures
        first_live_slot(&leaf, s) matches Some(j) ==> live_records(leaf, s) == seq![
            leaf.records@[leaf.slot_array@[j] as int].data@,
        ] + live_records(leaf, j + 1),
        first_live_slot(&leaf, s) is None ==> live_records(leaf, s) == Seq::<Seq<u8>>::empty(),
    decreases leaf.slot_array@.len() - s,
{
    if s < leaf.slot_array@.len() && leaf.records@[leaf.slot_array@[s] as int].is_deleted {
        lemma_live_records_step(leaf, s + 1);
    }
}

proof fn lemma_run_from(chain: Seq<LeafNode>, ids: Seq<PageId>, k: int, s: nat, steps: nat)
    requires
        linked_chain(chain, ids),
        0 <= k < chain.len(),
        s <= chain[k].slot_array@.len(),
        steps >= chain[k].slot_array@.len() - s + 1 + chain_steps(chain, k + 1),
    ensures
        run_cursor(chain, ids, k, BpTreeIterator { curr_page_id: Some(ids[k]), curr_slot_idx: s as usize }, steps)
            == (live_records(chain[k], s as int) + chain_records(chain, k + 1), BpTreeIterator {
            curr_page_id: None,
            curr_slot_idx: chain.last().slot_array@.len() as usize,
        }),
    decreases chain.len() - k, chain[k].slot_array@.len() - s,
{
    let leaf = chain[k];
    let it = BpTreeIterator { curr_page_id: Some(ids[k]), curr_slot_idx: s as usize };
    lemma_live_records_step(leaf, s as int);
    lemma_first_live_slot(&leaf, s as int);
    assert(chain[k] == leaf);
    assert(leaf.slot_array@.len() <= usize::MAX);
    assert(it.curr_slot_idx as int == s);
    match first_live_slot(&leaf, s as int) {
        Some(j) => {
            assert(leaf_step(it, leaf).0 == BpTreeIterator { curr_page_id: Some(ids[k]), curr_slot_idx: (j + 1) as usize });
            lemma_run_from(chain, ids, k, (j + 1) as nat, (steps - 1) as nat);
            assert(seq![leaf.records@[leaf.slot_array@[j] as int].data@] + (live_records(
                leaf,
                j + 1,
            ) + chain_records(chain, k + 1)) =~= live_records(leaf, s as int) + chain_records(
                chain,
                k + 1,
            ));
        },
        None => {
            if k < chain.len() - 1 {
                assert(chain[k].has_next && chain[k].next_page_id == ids[k + 1]);
                lemma_run_from(chain, ids, k + 1, 0, (steps - 1) as nat);
                assert(chain_records(chain, k + 1) == live_records(chain[k + 1], 0)
                    + chain_records(chain, k + 2));
                assert(Seq::<Seq<u8>>::empty() + chain_records(chain, k + 1) =~= chain_records(
                    chain,
                    k + 1,
                ));
            } else {
                assert(chain.last() == leaf);
                assert(leaf_step(it, leaf).0 == BpTreeIterator { curr_page_id: None, curr_slot_idx: leaf.slot_array@.len() as usize });
                assert(chain_records(chain, k + 1) == Seq::<Seq<u8>>::empty());
                assert(Seq::<Seq<u8>>::empty() + Seq::<Seq<u8>>::empty() =~= Seq::<
                    Seq<u8>,
                >::empty());
            }
        },
    }
}

/// A cursor started on the first leaf of a linked leaf chain, and stepped on
/// the leaf it names each time, loads the live records of every leaf, leaf
/// after leaf and in slot order within a leaf, and then is exhausted. An
/// exhausted cursor loads nothing more and stays exhausted.
pub proof fn lemma_cursor_reads_leaf_chain(
    chain: Seq<LeafNode>,
    ids: Seq<PageId>,
    extra: nat,
    it: BpTreeIterator,
    k: int,
)
    requires
        linked_chain(chain, ids),
    ensures
        run_cursor(chain, ids, 0, BpTreeIterator::new_spec(ids[0]), chain_steps(chain, 0) + extra).0
            == chain_records(chain, 0),
        run_cursor(
            chain,
            ids,
            0,
            BpTreeIterator::new_spec(ids[0]),
            chain_steps(chain, 0) + extra,
        ).1.curr_page_id is None,
        it.curr_page_id is None ==> run_cursor(chain, ids, k, it, extra) == (
            Seq::<Seq<u8>>::empty(),
            it,
        ),
{
    assert(chain_steps(chain, 0) == chain[0].slot_array@.len() + 1 + chain_steps(chain, 1));
    lemma_run_from(chain, ids, 0, 0, chain_steps(chain, 0) + extra);
    assert(chain_records(chain, 0) == live_records(chain[0], 0) + chain_records(chain, 1));
    assert(BpTreeIterator::new_spec(ids[0]) == BpTreeIterator {
        curr_page_id: Some(ids[0]),
        curr_slot_idx: 0,
    });
}

/// What one step of the cursor did.
#[derive(Debug, Clone, Copy, PartialEq, Eq, Structural)]
pub enum IterStep {
    /// A live record was copied into the buffer block.
    Loaded,
    /// The page held no further live record: the cursor moved to the next
    /// leaf, or ran out of leaves.
    Advanced,
}

/// A forward-only cursor for scanning BpTree leaf pages.
#[derive(Debug)]
pub struct BpTreeIterator {
    pub curr_page_id: Option<PageId>,
    pub curr_slot_idx: usize,
}

impl BpTreeIterator {
    /// A cursor at the first slot of the given leaf.
    pub open spec fn new_spec(start_page_id: PageId) -> Self {
        BpTreeIterator { curr_page_id: Some(start_page_id), curr_slot_idx: 0 }
    }

    /// Initializes a new iterator starting at the given leftmost leaf page.
    pub fn new(start_page_id: PageId) -> (it: Self)
        ensures
            it == Self::new_spec(start_page_id),
    {
        Self { curr_page_id: Some(start_page_id), curr_slot_idx: 0 }
    }

    /// Whether the scan is exhausted.
    pub fn is_exhausted(&self) -> (r: bool)
        ensures
            r == (self.curr_page_id is None),
    {
        self.curr_page_id.is_none()
    }

    /// Advances the cursor over `node`, the page that `curr_page_id` names,
    /// to its next non-deleted record, and copies that record's bytes into
    /// `buffer_block`.
    ///
    /// When the page holds no further live record, the cursor moves to the
    /// first slot of the next leaf, or, after the last leaf, becomes exhausted
    /// (`curr_page_id` is `None`); the caller then fetches the next page and
    /// steps again. A page that is not a leaf is a `CorruptPage` error.
    pub fn next(&mut self, node: &BTreeNode, buffer_block: &mut Vec<u8>) -> (r: Result<
        IterStep,
        DbError,
    >)
        requires
            old(self).curr_page_id is Some,
            node.scan_readable(),
        ensures
            match node {
                BTreeNode::Internal(_) => {
                    &&& r matches Err(DbError::CorruptPage(msg))
                    &&& msg@ == "bptree iterator encountered a non-leaf page"@
                    &&& *final(self) == *old(self)
                    &&& final(buffer_block)@ == old(buffer_block)@
                },
                BTreeNode::Leaf(leaf) => match first_live_slot(leaf, old(self).curr_slot_idx as int) {
                    Some(j) => {
                        &&& r == Ok::<IterStep, DbError>(IterStep::Loaded)
                        &&& final(buffer_block)@ == leaf.records@[leaf.slot_array@[j] as int].data@
                        &&& final(self).curr_page_id == old(self).curr_page_id
                        &&& final(self).curr_slot_idx == j + 1
                    },
                    None => {
                        &&& r == Ok::<IterStep, DbError>(IterStep::Advanced)
                        &&& final(buffer_block)@ == old(buffer_block)@
                        &&& final(self).curr_page_id == (if leaf.has_next {
                            Some(leaf.next_page_id)
                        } else {
                            None
                        })
                        &&& leaf.has_next ==> final(self).curr_slot_idx == 0
                        &&& !leaf.has_next ==> final(self).curr_slot_idx == if old(self).curr_slot_idx
                            < leaf.slot_array@.len() {
                            leaf.slot_array@.len() as int
                        } else {
                            old(self).curr_slot_idx as int
                        }
                    },
                },
            },
            node matches BTreeNode::Leaf(leaf) ==> leaf_step(*old(self), *leaf) == (
                *final(self),
                if r == Ok::<IterStep, DbError>(IterStep::Loaded) {
                    Some(final(buffer_block)@)
                } else {
                    None
                },
            ),
    {
        let leaf = match node {
            BTreeNode::Leaf(leaf) => leaf,
            BTreeNode::Internal(_) => {
                return Err(
                    DbError::CorruptPage(
                        String::from_str("bptree iterator encountered a non-leaf page"),
                    ),
                );
            },
        };
        let n = leaf.slot_array.len();
        proof {
            lemma_first_live_slot(leaf, old(self).curr_slot_idx as int);
        }
        while self.curr_slot_idx < n
            invariant
                n == leaf.slot_array@.len(),
                leaf.wf(),
                node matches BTreeNode::Leaf(l) && l == leaf,
                old(self).curr_slot_idx <= self.curr_slot_idx,
                self.curr_slot_idx <= n || self.curr_slot_idx == old(self).curr_slot_idx,
                self.curr_page_id == old(self).curr_page_id,
                buffer_block@ == old(buffer_block)@,
                first_live_slot(leaf, self.curr_slot_idx as int) == first_live_slot(
                    leaf,
                    old(self).curr_slot_idx as int,
                ),
            decreases n - self.curr_slot_idx,
        {
            let rec_idx = leaf.slot_array[self.curr_slot_idx] as usize;
            let record = &leaf.records[rec_idx];
            if !record.is_deleted {
                copy_into(buffer_block, &record.data);
                self.curr_slot_idx = self.curr_slot_idx + 1;
                assert(buffer_block@ =~= leaf.records@[leaf.slot_array@[(self.curr_slot_idx - 1) as int] as int].data@);
                return Ok(IterStep::Loaded);
            }
            self.curr_slot_idx = self.curr_slot_idx + 1;
        }
        if leaf.has_next {
            self.curr_slot_idx = 0;
            self.curr_page_id = Some(leaf.next_page_id);
        } else {
            self.curr_page_id = None;
        }
        Ok(IterStep::Advanced)
    }
}

/// Replaces the contents of `buffer` by the bytes of `data`, reusing the
/// buffer's memory.
fn copy_into(buffer: &mut Vec<u8>, data: &Vec<u8>)
    ensures
        final(buffer)@ == data@,
{
    buffer.clear();
    let mut i: usize = 0;
    while i < data.len()
        invariant
            i <= data@.len(),
            buffer@ == data@.subrange(0, i as int),
        decreases data@.len() - i,
    {
        buffer.push(data[i]);
        i = i + 1;
        assert(buffer@ =~= data@.subrange(0, i as int));
    }
    assert(data@.subrange(0, data@.len() as int) =~= data@);
}

} // verus!
