use vstd::prelude::*;

verus! {

/// The number of a page in the database file.
#[derive(Debug, Clone, Copy, PartialEq, Eq, Hash, Structural)]
pub struct PageId(pub u64);

/// What every page records about itself besides its entries: its id,
/// whether it changed since it was last written out, and the log sequence
/// number of the last change.
#[derive(Debug, Clone, Copy, PartialEq, Eq, Structural)]
pub struct PageHeader {
    pub page_id: PageId,
    pub is_dirty: bool,
    pub last_lsn: u64,
}

/// One record of a leaf page: the encoded tuple bytes and a tombstone flag.
#[derive(Debug)]
pub struct Record {
    pub is_deleted: bool,
    pub data: Vec<u8>,
}

/// A leaf page of a B+-tree. `slot_array` lists, in key order, the positions
/// in `records` of the page's records; leaves are chained left to right
/// through `next_page_id` while `has_next` holds.
#[derive(Debug)]
pub struct LeafNode {
    pub header: PageHeader,
    pub slot_array: Vec<u16>,
    pub records: Vec<Record>,
    pub has_next: bool,
    pub next_page_id: PageId,
}

/// One entry of an internal page: the child that holds the keys below it.
#[derive(Debug)]
pub struct InternalEntry {
    pub child_page_id: PageId,
}

/// An internal page of a B+-tree. `slot_array` lists, in key order, the
/// positions in `entries` of the page's entries; keys above every entry are
/// under `rightmost_child_id`.
#[derive(Debug)]
pub struct InternalNode {
    pub header: PageHeader,
    pub slot_array: Vec<u16>,
    pub entries: Vec<InternalEntry>,
    pub rightmost_child_id: PageId,
}

/// The in-memory form of a B+-tree page.
#[derive(Debug)]
pub enum BTreeNode {
    Internal(InternalNode),
    Leaf(LeafNode),
}

impl LeafNode {
    /// Every slot names a record of the page.
    pub open spec fn wf(&self) -> bool {
        forall|i: int|
            0 <= i < self.slot_array@.len() ==> (#[trigger] self.slot_array@[i] as int)
                < self.records@.len()
    }
}

impl InternalNode {
    /// Every slot names an entry of the page.
    pub open spec fn wf(&self) -> bool {
        forall|i: int|
            0 <= i < self.slot_array@.len() ==> (#[trigger] self.slot_array@[i] as int)
                < self.entries@.len()
    }

    /// The first slot, if any, names an entry of the page.
    pub open spec fn has_leftmost_child(&self) -> bool {
        self.slot_array@.len() > 0 ==> (self.slot_array@[0] as int) < self.entries@.len()
    }

    /// The child that holds the smallest keys under this page.
    pub open spec fn spec_leftmost_child(&self) -> PageId {
        if self.slot_array@.len() > 0 {
            self.entries@[self.slot_array@[0] as int].child_page_id
        } else {
            self.rightmost_child_id
        }
    }

    /// The child that `leftmost_child` picks is the child of the first slot in
    /// key order, `entries[slot_array[0]]`; only a page without slots sends
    /// the search to its rightmost child.
    pub proof fn lemma_leftmost_child_is_first_slot_child(&self)
        ensures
            self.slot_array@.len() > 0 ==> self.spec_leftmost_child() == self.entries@[self.slot_array@[0] as int].child_page_id,
            self.slot_array@.len() == 0 ==> self.spec_leftmost_child() == self.rightmost_child_id,
    {
    }

    /// Returns the child that holds the smallest keys under this page: the
    /// child of the first slot, or the rightmost child when the page has no
    /// slots.
    pub fn leftmost_child(&self) -> (r: PageId)
        requires
            self.has_leftmost_child(),
        ensures
            r == self.spec_leftmost_child(),
    {
        if self.slot_array.len() > 0 {
            let rec_idx = self.slot_array[0] as usize;
            self.entries[rec_idx].child_page_id
        } else {
            self.rightmost_child_id
        }
    }
}

impl BTreeNode {
    /// The header of the page.
    pub open spec fn spec_header(&self) -> PageHeader {
        match self {
            BTreeNode::Internal(n) => n.header,
            BTreeNode::Leaf(n) => n.header,
        }
    }

    /// The same page under another header.
    pub open spec fn with_header(self, h: PageHeader) -> BTreeNode {
        match self {
            BTreeNode::Internal(n) => BTreeNode::Internal(InternalNode { header: h, ..n }),
            BTreeNode::Leaf(n) => BTreeNode::Leaf(LeafNode { header: h, ..n }),
        }
    }

    /// An empty page: a leaf with no records and no successor, or an internal
    /// page with no entries whose rightmost child is page 0. It starts clean,
    /// at log sequence number 0.
    pub fn new_empty(page_id: PageId, is_leaf: bool) -> (n: Self)
        ensures
            n.wf(),
            n.spec_header() == (PageHeader { page_id, is_dirty: false, last_lsn: 0 }),
            is_leaf <==> n is Leaf,
            n matches BTreeNode::Leaf(l) ==> l.slot_array@.len() == 0 && l.records@.len() == 0
                && !l.has_next && l.next_page_id == PageId(0),
            n matches BTreeNode::Internal(i) ==> i.slot_array@.len() == 0 && i.entries@.len() == 0
                && i.rightmost_child_id == PageId(0),
    {
        let header = PageHeader { page_id, is_dirty: false, last_lsn: 0 };
        if is_leaf {
            BTreeNode::Leaf(
                LeafNode {
                    header,
                    slot_array: Vec::new(),
                    records: Vec::new(),
                    has_next: false,
                    next_page_id: PageId(0),
                },
            )
        } else {
            BTreeNode::Internal(
                InternalNode {
                    header,
                    slot_array: Vec::new(),
                    entries: Vec::new(),
                    rightmost_child_id: PageId(0),
                },
            )
        }
    }

    /// Whether the page changed since it was last written out.
    pub fn is_dirty(&self) -> (r: bool)
        ensures
            r == self.spec_header().is_dirty,
    {
        match self {
            BTreeNode::Internal(n) => n.header.is_dirty,
            BTreeNode::Leaf(n) => n.header.is_dirty,
        }
    }

    /// The log sequence number of the page's last change.
    pub fn get_last_lsn(&self) -> (r: u64)
        ensures
            r == self.spec_header().last_lsn,
    {
        match self {
            BTreeNode::Internal(n) => n.header.last_lsn,
            BTreeNode::Leaf(n) => n.header.last_lsn,
        }
    }

    /// Records a change to the page made under log sequence number `lsn`.
    pub fn mark_dirty(&mut self, lsn: u64)
        ensures
            *final(self) == old(self).with_header(
                PageHeader { is_dirty: true, last_lsn: lsn, ..old(self).spec_header() },
            ),
    {
        match self {
            BTreeNode::Internal(n) => {
                n.header = PageHeader { is_dirty: true, last_lsn: lsn, ..n.header };
            },
            BTreeNode::Leaf(n) => {
                n.header = PageHeader { is_dirty: true, last_lsn: lsn, ..n.header };
            },
        }
    }

    /// Records that the page was written out.
    pub fn clear_dirty(&mut self)
        ensures
            *final(self) == old(self).with_header(
                PageHeader { is_dirty: false, ..old(self).spec_header() },
            ),
    {
        match self {
            BTreeNode::Internal(n) => {
                n.header = PageHeader { is_dirty: false, ..n.header };
            },
            BTreeNode::Leaf(n) => {
                n.header = PageHeader { is_dirty: false, ..n.header };
            },
        }
    }

    /// Every slot of the page names an entry or a record of it.
    pub open spec fn wf(&self) -> bool {
        match self {
            BTreeNode::Internal(n) => n.wf(),
            BTreeNode::Leaf(n) => n.wf(),
        }
    }

    /// What a descent reads of the page is there: the entry of an internal
    /// page's first slot.
    pub open spec fn descent_readable(&self) -> bool {
        match self {
            BTreeNode::Internal(n) => n.has_leftmost_child(),
            BTreeNode::Leaf(_) => true,
        }
    }

    /// What a leaf scan reads of the page is there: the record of every slot
    /// of a leaf.
    pub open spec fn scan_readable(&self) -> bool {
        match self {
            BTreeNode::Internal(_) => true,
            BTreeNode::Leaf(n) => n.wf(),
        }
    }

    /// Returns whether what a descent reads of the page is there.
    pub fn is_descent_readable(&self) -> (r: bool)
        ensures
            r == self.descent_readable(),
    {
        match self {
            BTreeNode::Internal(n) => n.slot_array.len() == 0 || (n.slot_array[0] as usize)
                < n.entries.len(),
            BTreeNode::Leaf(_) => true,
        }
    }

    /// Returns whether what a leaf scan reads of the page is there.
    pub fn is_scan_readable(&self) -> (r: bool)
        ensures
            r == self.scan_readable(),
    {
        match self {
            BTreeNode::Internal(_) => true,
            BTreeNode::Leaf(n) => {
                let mut i: usize = 0;
                while i < n.slot_array.len()
                    invariant
                        i <= n.slot_array@.len(),
                        self.scan_readable() == n.wf(),
                        forall|j: int|
                            0 <= j < i ==> (#[trigger] n.slot_array@[j] as int) < n.records@.len(),
                    decreases n.slot_array@.len() - i,
                {
                    if n.slot_array[i] as usize >= n.records.len() {
                        assert(!((n.slot_array@[i as int] as int) < n.records@.len()));
                        return false;
                    }
                    i = i + 1;
                }
                true
            },
        }
    }
}

} // verus!
