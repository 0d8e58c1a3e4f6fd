use minidb::error::DbError;
use minidb::execution::filter::{filter_verdict, FilterVerdict};
use minidb::execution::iterator::{BpTreeIterator, IterStep};
use minidb::relation::types::Value;
use minidb::storage::buffer_pool::{write_back_lsn, PageTable};
use minidb::storage::lru::LruReplacer;
use minidb::storage::page::{BTreeNode, InternalNode, LeafNode, PageHeader, PageId, Record};

fn rec(deleted: bool, data: &[u8]) -> Record {
    Record { is_deleted: deleted, data: data.to_vec() }
}

#[test]
fn iterator_skips_deleted_records_and_follows_leaf_chain() {
    let first = BTreeNode::Leaf(LeafNode {
        header: PageHeader { page_id: PageId(4), is_dirty: false, last_lsn: 0 },
        slot_array: vec![2, 0, 1],
        records: vec![rec(false, b"a"), rec(true, b"b"), rec(false, b"c")],
        has_next: true,
        next_page_id: PageId(5),
    });
    let second = BTreeNode::Leaf(LeafNode {
        header: PageHeader { page_id: PageId(5), is_dirty: false, last_lsn: 0 },
        slot_array: vec![0],
        records: vec![rec(false, b"d")],
        has_next: false,
        next_page_id: PageId(0),
    });
    let mut it = BpTreeIterator::new(PageId(4));
    let mut buf = vec![9u8, 9];
    assert_eq!(it.next(&first, &mut buf).unwrap(), IterStep::Loaded);
    assert_eq!(buf, b"c".to_vec());
    assert_eq!(it.next(&first, &mut buf).unwrap(), IterStep::Loaded);
    assert_eq!(buf, b"a".to_vec());
    assert_eq!(it.next(&first, &mut buf).unwrap(), IterStep::Advanced);
    assert_eq!(it.curr_page_id, Some(PageId(5)));
    assert_eq!(it.curr_slot_idx, 0);
    assert_eq!(it.next(&second, &mut buf).unwrap(), IterStep::Loaded);
    assert_eq!(buf, b"d".to_vec());
    assert_eq!(it.next(&second, &mut buf).unwrap(), IterStep::Advanced);
    assert!(it.is_exhausted());
}

#[test]
fn iterator_refuses_internal_pages() {
    let node = BTreeNode::Internal(InternalNode {
        header: PageHeader { page_id: PageId(4), is_dirty: false, last_lsn: 0 },
        slot_array: vec![],
        entries: vec![],
        rightmost_child_id: PageId(7),
    });
    let mut it = BpTreeIterator::new(PageId(4));
    let mut buf = Vec::new();
    match it.next(&node, &mut buf) {
        Err(DbError::CorruptPage(msg)) => assert_eq!(msg, "bptree iterator encountered a non-leaf page"),
        _ => panic!("expected CorruptPage"),
    }
    assert_eq!(it.curr_page_id, Some(PageId(4)));
}

#[test]
fn filter_verdicts() {
    assert_eq!(filter_verdict(&Value::Boolean(true)).unwrap(), FilterVerdict::Emit);
    assert_eq!(filter_verdict(&Value::Boolean(false)).unwrap(), FilterVerdict::Skip);
    assert_eq!(filter_verdict(&Value::Null).unwrap(), FilterVerdict::Skip);
    match filter_verdict(&Value::Int(1)) {
        Err(DbError::SyntaxErr(msg)) => {
            assert_eq!(msg, "WHERE clause predicate must evaluate to a boolean")
        }
        _ => panic!("expected SyntaxErr"),
    }
    assert!(matches!(filter_verdict(&Value::Varchar("hello".into())), Err(DbError::SyntaxErr(_))));
}

#[test]
fn lru_evicts_least_recently_used_first() {
    let mut r = LruReplacer::new(4);
    r.record_access(PageId(1));
    r.record_access(PageId(2));
    r.record_access(PageId(3));
    r.record_access(PageId(1)); // 1 becomes the most recent
    assert_eq!(r.len(), 3);
    assert_eq!(r.evict_if(|_| true), Some(PageId(2)));
    // page 3 is pinned: the next candidate is 1
    assert_eq!(r.evict_if(|p| *p != PageId(3)), Some(PageId(1)));
    assert_eq!(r.evict_if(|_| false), None);
    assert_eq!(r.len(), 1);
    assert_eq!(r.evict_if(|_| true), Some(PageId(3)));
    assert_eq!(r.len(), 0);
    assert_eq!(r.evict_if(|_| true), None);
}

#[test]
fn node_dirty_tracking() {
    let mut n = BTreeNode::new_empty(PageId(8), true);
    assert!(!n.is_dirty());
    assert_eq!(write_back_lsn(&n), None);
    n.mark_dirty(42);
    assert!(n.is_dirty());
    assert_eq!(n.get_last_lsn(), 42);
    assert_eq!(write_back_lsn(&n), Some(42));
    n.clear_dirty();
    assert!(!n.is_dirty());
    assert_eq!(n.get_last_lsn(), 42);
    assert!(matches!(BTreeNode::new_empty(PageId(9), false), BTreeNode::Internal(_)));
}

#[test]
fn internal_leftmost_child() {
    let n = InternalNode {
        header: PageHeader { page_id: PageId(1), is_dirty: false, last_lsn: 0 },
        slot_array: vec![],
        entries: vec![],
        rightmost_child_id: PageId(6),
    };
    assert_eq!(n.leftmost_child(), PageId(6));
}

#[test]
fn page_table_tracks_cached_pages() {
    let mut t: PageTable<u32> = PageTable::new(2);
    assert!(!t.is_full());
    t.insert(PageId(1), 10);
    t.insert(PageId(2), 20);
    assert!(t.is_full());
    assert_eq!(t.len(), 2);
    assert_eq!(t.get(PageId(1)), Some(&10));
    t.record_access(PageId(1));
    // page 2 is now the least recently used one
    assert_eq!(t.choose_victim(|_| true), Some(PageId(2)));
    // the victim stays cached until it is removed
    assert_eq!(t.get(PageId(2)), Some(&20));
    t.remove(PageId(2));
    assert_eq!(t.get(PageId(2)), None);
    assert!(!t.is_full());
    // frame 10 is refused: nothing to evict
    assert_eq!(t.choose_victim(|f| *f != 10), None);
    t.insert(PageId(1), 11);
    assert_eq!(t.get(PageId(1)), Some(&11));
    let mut ids = t.page_ids();
    ids.sort_by_key(|p| p.0);
    assert_eq!(ids, vec![PageId(1)]);
}
