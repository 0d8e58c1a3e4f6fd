use vstd::prelude::*;

use crate::catalog::manager::{
    add_column, columns_after_rows, columns_for, feed_spec, last_root_for, finish_spec, lemma_columns_after_load,
    lemma_install_twice, lemma_roots_after_load, roots_after_rows, stage_columns, sys_pages_row,
    sys_schema_row, LoadStage, LoadState, SYS_PAGES_ROOT_ID, SYS_SCHEMA_ROOT_ID,
};
use crate::execution::iterator::{
    first_live_slot, leaf_step, lemma_first_live_slot, lemma_live_records_step, linked_chain,
    live_records, BpTreeIterator,
};
use crate::relation::schema::ColumnView;
use crate::relation::tuple::decode_tuple;
use crate::relation::types::ValueView;
use crate::storage::page::{BTreeNode, InternalNode, LeafNode, PageId};

verus! {

/// Up to `steps` rounds of a catalog load over the pages `pages`: each round
/// feeds the page that the loader names. `None` when a page is missing, a
/// feed fails, or the rounds run out before the load is done.
pub open spec fn run_loader(pages: Map<PageId, BTreeNode>, s: LoadState, steps: nat) -> Option<
    LoadState,
>
    decreases steps,
{
    if s.stage == LoadStage::Done {
        Some(s)
    } else if steps == 0 {
        None
    } else {
        match s.cursor.curr_page_id {
            None => None,
            Some(id) => if !pages.contains_key(id) {
                None
            } else {
                match feed_spec(s, pages[id]) {
                    None => None,
                    Some(t) => run_loader(pages, t, (steps - 1) as nat),
                }
            },
        }
    }
}

/// The B+-tree rooted at `root` is stored in `pages`: the internal pages
/// `path` lead from the root to the first leaf, each to the child of its first
/// slot in key order (to its rightmost child when it has no slot), and the
/// leaves `leaves`, on the pages `ids`, are linked in order.
pub open spec fn stored_table(
    pages: Map<PageId, BTreeNode>,
    root: PageId,
    path: Seq<PageId>,
    leaves: Seq<LeafNode>,
    ids: Seq<PageId>,
) -> bool {
    &&& linked_chain(leaves, ids)
    &&& path.len() >= 1
    &&& path[0] == root
    &&& path.last() == ids[0]
    &&& forall|i: int|
        0 <= i < path.len() - 1 ==> pages.contains_key(#[trigger] path[i]) && (
        pages[path[i]] matches BTreeNode::Internal(n) && path[i + 1] == (if n.slot_array@.len()
            > 0 {
            n.entries@[n.slot_array@[0] as int].child_page_id
        } else {
            n.rightmost_child_id
        }))
    &&& forall|k: int|
        0 <= k < leaves.len() ==> pages.contains_key(#[trigger] ids[k]) && pages[ids[k]]
            == BTreeNode::Leaf(leaves[k])
}

/// The row that a record of the table read in `stage` holds.
pub open spec fn row_of(stage: LoadStage, data: Seq<u8>) -> Seq<ValueView> {
    decode_tuple(stage_columns(stage), data)->Ok_0.0
}

/// The rows that records of the table read in `stage` hold, in order.
pub open spec fn rows_of(stage: LoadStage, recs: Seq<Seq<u8>>) -> Seq<Seq<ValueView>> {
    recs.map_values(|d: Seq<u8>| row_of(stage, d))
}

/// A record of the table read in `stage` decodes, and its row has the shape
/// that the table's rows have.
pub open spec fn record_ok(stage: LoadStage, data: Seq<u8>) -> bool {
    &&& decode_tuple(stage_columns(stage), data) is Ok
    &&& stage == LoadStage::SysPages ==> sys_pages_row(row_of(stage, data)) is Some
    &&& stage != LoadStage::SysPages ==> sys_schema_row(row_of(stage, data)) is Some
}

/// The state after the rows of `recs` were applied: to the table roots while
/// reading `sys_pages`, to the collected layouts while reading `sys_schema`.
pub open spec fn with_records(s: LoadState, recs: Seq<Seq<u8>>) -> LoadState {
    if s.stage == LoadStage::SysPages {
        LoadState { roots: roots_after_rows(s.roots, rows_of(s.stage, recs)), ..s }
    } else {
        LoadState { raw: columns_after_rows(s.raw, rows_of(s.stage, recs)), ..s }
    }
}

/// The live records of the leaves `leaves[k..]`, leaf after leaf.
pub open spec fn all_records(leaves: Seq<LeafNode>, k: int) -> Seq<Seq<u8>>
    decreases leaves.len() - k,
{
    if k < 0 || k >= leaves.len() {
        seq![]
    } else {
        live_records(leaves[k], 0) + all_records(leaves, k + 1)
    }
}

/// The rounds that scanning the leaves `leaves[k..]` takes: one per live
/// record and one per leaf.
pub open spec fn scan_rounds(leaves: Seq<LeafNode>, k: int) -> nat
    decreases leaves.len() - k,
{
    if k < 0 || k >= leaves.len() {
        0
    } else {
        live_records(leaves[k], 0).len() + 1 + scan_rounds(leaves, k + 1)
    }
}

/// The cursor after the last leaf of a chain.
pub open spec fn exhausted_after(leaves: Seq<LeafNode>) -> BpTreeIterator {
    BpTreeIterator { curr_page_id: None, curr_slot_idx: leaves.last().slot_array@.len() as usize }
}

/// Feeding an internal page to a descending load moves it to the child of
/// the page's first slot in key order, or to the rightmost child when the page
/// has no slot; nothing else changes.
pub proof fn lemma_descent_follows_first_slot(s: LoadState, n: InternalNode)
    requires
        s.descending,
    ensures
        feed_spec(s, BTreeNode::Internal(n)) matches Some(t) && t.cursor.curr_page_id == Some(
            if n.slot_array@.len() > 0 {
                n.entries@[n.slot_array@[0] as int].child_page_id
            } else {
                n.rightmost_child_id
            },
        ) && t.cursor.curr_slot_idx == s.cursor.curr_slot_idx && t.stage == s.stage && t.descending
            && t.roots == s.roots && t.schemas == s.schemas && t.raw == s.raw,
{
}

proof fn lemma_roots_front(
    roots: Map<Seq<char>, PageId>,
    x: Seq<ValueView>,
    rest: Seq<Seq<ValueView>>,
)
    requires
        sys_pages_row(x) is Some,
    ensures
        roots_after_rows(roots, seq![x] + rest) == roots_after_rows(
            roots.insert(sys_pages_row(x)->Some_0.0, sys_pages_row(x)->Some_0.1),
            rest,
        ),
    decreases rest.len(),
{
    let a = seq![x] + rest;
    if rest.len() > 0 {
        lemma_roots_front(roots, x, rest.drop_last());
        assert(a.drop_last() =~= seq![x] + rest.drop_last());
        assert(a.last() == rest.last());
        assert(roots_after_rows(roots, a) == match sys_pages_row(a.last()) {
            Some(r) => (roots_after_rows(roots, a.drop_last())).insert(r.0, r.1),
            None => roots_after_rows(roots, a.drop_last()),
        });
    } else {
        assert(a.drop_last() =~= Seq::<Seq<ValueView>>::empty());
        assert(a.last() == x);
        assert(roots_after_rows(roots, a.drop_last()) == roots);
        assert(roots_after_rows(roots.insert(sys_pages_row(x)->Some_0.0, sys_pages_row(x)->Some_0.1), rest) == roots.insert(sys_pages_row(x)->Some_0.0, sys_pages_row(x)->Some_0.1));
    }
}

proof fn lemma_columns_front(
    raw: Map<Seq<char>, Seq<ColumnView>>,
    x: Seq<ValueView>,
    rest: Seq<Seq<ValueView>>,
)
    requires
        sys_schema_row(x) is Some,
    ensures
        columns_after_rows(raw, seq![x] + rest) == columns_after_rows(
            add_column(raw, sys_schema_row(x)->Some_0.0, sys_schema_row(x)->Some_0.1),
            rest,
        ),
    decreases rest.len(),
{
    let a = seq![x] + rest;
    if rest.len() > 0 {
        lemma_columns_front(raw, x, rest.drop_last());
        assert(a.drop_last() =~= seq![x] + rest.drop_last());
        assert(a.last() == rest.last());
        assert(columns_after_rows(raw, a) == match sys_schema_row(a.last()) {
            Some(r) => add_column(columns_after_rows(raw, a.drop_last()), r.0, r.1),
            None => columns_after_rows(raw, a.drop_last()),
        });
    } else {
        assert(a.drop_last() =~= Seq::<Seq<ValueView>>::empty());
        assert(a.last() == x);
        assert(columns_after_rows(raw, a.drop_last()) == raw);
        assert(columns_after_rows(add_column(raw, sys_schema_row(x)->Some_0.0, sys_schema_row(x)->Some_0.1), rest) == add_column(raw, sys_schema_row(x)->Some_0.0, sys_schema_row(x)->Some_0.1));
    }
}

proof fn lemma_descend(
    pages: Map<PageId, BTreeNode>,
    path: Seq<PageId>,
    leaves: Seq<LeafNode>,
    ids: Seq<PageId>,
    root: PageId,
    i: int,
    s: LoadState,
    m: nat,
)
    requires
        stored_table(pages, root, path, leaves, ids),
        0 <= i < path.len(),
        s.stage != LoadStage::Done,
        s.descending,
        s.cursor.curr_page_id == Some(path[i]),
    ensures
        run_loader(pages, s, (path.len() - i + m) as nat) == run_loader(
            pages,
            LoadState {
                descending: false,
                cursor: BpTreeIterator { curr_page_id: Some(ids[0]), curr_slot_idx: 0 },
                ..s
            },
            m,
        ),
    decreases path.len() - i,
{
    if i < path.len() - 1 {
        assert(pages.contains_key(path[i]));
        let t = feed_spec(s, pages[path[i]])->Some_0;
        lemma_descend(pages, path, leaves, ids, root, i + 1, t, m);
    } else {
        assert(pages.contains_key(ids[0]) && pages[ids[0]] == BTreeNode::Leaf(leaves[0]));
    }
}

#[verifier::spinoff_prover]
#[verifier::rlimit(60)]
proof fn lemma_scan(
    pages: Map<PageId, BTreeNode>,
    path: Seq<PageId>,
    leaves: Seq<LeafNode>,
    ids: Seq<PageId>,
    root: PageId,
    k: int,
    sl: nat,
    s: LoadState,
    m: nat,
)
    requires
        stored_table(pages, root, path, leaves, ids),
        0 <= k < leaves.len(),
        sl <= leaves[k].slot_array@.len(),
        s.stage != LoadStage::Done,
        !s.descending,
        s.cursor == (BpTreeIterator { curr_page_id: Some(ids[k]), curr_slot_idx: sl as usize }),
        forall|i: int|
            0 <= i < (live_records(leaves[k], sl as int) + all_records(leaves, k + 1)).len()
                ==> record_ok(
                s.stage,
                #[trigger] (live_records(leaves[k], sl as int) + all_records(leaves, k + 1))[i],
            ),
    ensures
        run_loader(
            pages,
            s,
            (live_records(leaves[k], sl as int).len() + 1 + scan_rounds(leaves, k + 1) + m) as nat,
        ) == run_loader(
            pages,
            finish_spec(
                with_records(s, live_records(leaves[k], sl as int) + all_records(leaves, k + 1)),
                exhausted_after(leaves),
            ),
            m,
        ),
    decreases leaves.len() - k, leaves[k].slot_array@.len() - sl,
{
    let leaf = leaves[k];
    let recs = live_records(leaf, sl as int) + all_records(leaves, k + 1);
    assert(pages.contains_key(ids[k]) && pages[ids[k]] == BTreeNode::Leaf(leaf));
    assert(leaf.slot_array@.len() <= usize::MAX);
    lemma_live_records_step(leaf, sl as int);
    lemma_first_live_slot(&leaf, sl as int);
    match first_live_slot(&leaf, sl as int) {
        Some(j) => {
            let d = leaf.records@[leaf.slot_array@[j] as int].data@;
            let rest = live_records(leaf, j + 1) + all_records(leaves, k + 1);
            assert(recs =~= seq![d] + rest);
            assert(recs[0] == d);
            assert(record_ok(s.stage, d));
            let next = BpTreeIterator { curr_page_id: Some(ids[k]), curr_slot_idx: (j + 1) as usize };
            assert(leaf_step(s.cursor, leaf) == (next, Some(d)));
            let t = feed_spec(s, pages[ids[k]])->Some_0;
            assert forall|i: int| 0 <= i < rest.len() implies record_ok(t.stage, #[trigger] rest[i]) by {
                assert(rest[i] == recs[i + 1]);
            }
            lemma_scan(pages, path, leaves, ids, root, k, (j + 1) as nat, t, m);
            assert(rows_of(s.stage, recs) =~= seq![row_of(s.stage, d)] + rows_of(s.stage, rest));
            if s.stage == LoadStage::SysPages {
                lemma_roots_front(s.roots, row_of(s.stage, d), rows_of(s.stage, rest));
            } else {
                lemma_columns_front(s.raw, row_of(s.stage, d), rows_of(s.stage, rest));
            }
            assert(finish_spec(with_records(t, rest), exhausted_after(leaves)) == finish_spec(
                with_records(s, recs),
                exhausted_after(leaves),
            ));
        },
        None => {
            if k < leaves.len() - 1 {
                assert(leaves[k].has_next && leaves[k].next_page_id == ids[k + 1]);
                let t = feed_spec(s, pages[ids[k]])->Some_0;
                assert(t == LoadState { cursor: BpTreeIterator::new_spec(ids[k + 1]), ..s });
                assert(all_records(leaves, k + 1) == live_records(leaves[k + 1], 0) + all_records(
                    leaves,
                    k + 2,
                ));
                assert(recs =~= all_records(leaves, k + 1));
                assert(scan_rounds(leaves, k + 1) == live_records(leaves[k + 1], 0).len() + 1
                    + scan_rounds(leaves, k + 2));
                lemma_scan(pages, path, leaves, ids, root, k + 1, 0, t, m);
            } else {
                assert(leaves.last() == leaf);
                assert(all_records(leaves, k + 1) == Seq::<Seq<u8>>::empty());
                assert(scan_rounds(leaves, k + 1) == 0);
                assert(recs =~= Seq::<Seq<u8>>::empty());
                assert(rows_of(s.stage, recs) =~= Seq::<Seq<ValueView>>::empty());
                let next = exhausted_after(leaves);
                assert(leaf_step(s.cursor, leaf) == (next, None::<Seq<u8>>));
                assert(with_records(s, recs) == s);
                assert(feed_spec(s, pages[ids[k]]) == Some(finish_spec(s, next)));
            }
        },
    }
}

/// The rounds a whole load takes: for each table, one per page on the path
/// to its first leaf, one per live record and one per leaf.
pub open spec fn load_rounds(
    pages_path: Seq<PageId>,
    pages_leaves: Seq<LeafNode>,
    schema_path: Seq<PageId>,
    schema_leaves: Seq<LeafNode>,
) -> nat {
    pages_path.len() + scan_rounds(pages_leaves, 0) + schema_path.len() + scan_rounds(
        schema_leaves,
        0,
    )
}

/// The state a load starts in, over a catalog with the given roots and layouts.
pub open spec fn initial_load(
    roots: Map<Seq<char>, PageId>,
    schemas: Map<Seq<char>, Seq<ColumnView>>,
) -> LoadState {
    LoadState {
        stage: LoadStage::SysPages,
        descending: true,
        cursor: BpTreeIterator::new_spec(PageId(SYS_PAGES_ROOT_ID)),
        raw: Map::empty(),
        roots,
        schemas,
    }
}

/// A whole catalog load. When `sys_pages` and `sys_schema` are stored as
/// B+-trees in `pages` and every live record decodes into a row of its
/// table's shape, the loader, fed the pages it names, finishes; each table
/// then resolves to the root of the last `sys_pages` row that names it (or
/// keeps its old root), and each table that `sys_schema` rows name gets
/// exactly the columns those rows declare, in row order (others keep their
/// layout). Loading the same pages again into the loaded catalog leaves it
/// as it is.
pub proof fn lemma_catalog_load(
    pages: Map<PageId, BTreeNode>,
    pages_path: Seq<PageId>,
    pages_leaves: Seq<LeafNode>,
    pages_ids: Seq<PageId>,
    schema_path: Seq<PageId>,
    schema_leaves: Seq<LeafNode>,
    schema_ids: Seq<PageId>,
    roots: Map<Seq<char>, PageId>,
    schemas: Map<Seq<char>, Seq<ColumnView>>,
    extra: nat,
    name: Seq<char>,
)
    requires
        stored_table(pages, PageId(SYS_PAGES_ROOT_ID), pages_path, pages_leaves, pages_ids),
        stored_table(pages, PageId(SYS_SCHEMA_ROOT_ID), schema_path, schema_leaves, schema_ids),
        forall|i: int|
            0 <= i < all_records(pages_leaves, 0).len() ==> record_ok(
                LoadStage::SysPages,
                #[trigger] all_records(pages_leaves, 0)[i],
            ),
        forall|i: int|
            0 <= i < all_records(schema_leaves, 0).len() ==> record_ok(
                LoadStage::SysSchema,
                #[trigger] all_records(schema_leaves, 0)[i],
            ),
    ensures
        ({
            let page_rows = rows_of(LoadStage::SysPages, all_records(pages_leaves, 0));
            let schema_rows = rows_of(LoadStage::SysSchema, all_records(schema_leaves, 0));
            let rounds = load_rounds(pages_path, pages_leaves, schema_path, schema_leaves)
                + extra;
            let done = run_loader(pages, initial_load(roots, schemas), rounds)->Some_0;
            &&& match last_root_for(page_rows, name) {
                Some(root) => done.roots.contains_key(name) && done.roots[name] == root,
                None => done.roots.contains_key(name) == roots.contains_key(name) && (
                roots.contains_key(name) ==> done.roots[name] == roots[name]),
            }
            &&& columns_for(schema_rows, name).len() > 0 ==> done.schemas.contains_key(name)
                && done.schemas[name] == columns_for(schema_rows, name)
            &&& columns_for(schema_rows, name).len() == 0 ==> done.schemas.contains_key(name)
                == schemas.contains_key(name) && (schemas.contains_key(name)
                ==> done.schemas[name] == schemas[name])
        }),
        ({
            let page_rows = rows_of(LoadStage::SysPages, all_records(pages_leaves, 0));
            let schema_rows = rows_of(LoadStage::SysSchema, all_records(schema_leaves, 0));
            let rounds = load_rounds(pages_path, pages_leaves, schema_path, schema_leaves)
                + extra;
            let done = run_loader(pages, initial_load(roots, schemas), rounds);
            &&& done is Some
            &&& done->Some_0.stage == LoadStage::Done
            &&& done->Some_0.roots == roots_after_rows(roots, page_rows)
            &&& done->Some_0.schemas == schemas.union_prefer_right(
                columns_after_rows(Map::empty(), schema_rows),
            )
            &&& run_loader(
                pages,
                initial_load(done->Some_0.roots, done->Some_0.schemas),
                rounds,
            ) matches Some(again) && again.roots == done->Some_0.roots && again.schemas
                == done->Some_0.schemas
        }),
{
    lemma_load_once(
        pages,
        pages_path,
        pages_leaves,
        pages_ids,
        schema_path,
        schema_leaves,
        schema_ids,
        roots,
        schemas,
        extra,
    );
    let page_rows = rows_of(LoadStage::SysPages, all_records(pages_leaves, 0));
    let schema_rows = rows_of(LoadStage::SysSchema, all_records(schema_leaves, 0));
    let roots1 = roots_after_rows(roots, page_rows);
    let schemas1 = schemas.union_prefer_right(columns_after_rows(Map::empty(), schema_rows));
    lemma_load_once(
        pages,
        pages_path,
        pages_leaves,
        pages_ids,
        schema_path,
        schema_leaves,
        schema_ids,
        roots1,
        schemas1,
        extra,
    );
    lemma_roots_after_load(roots, page_rows, name);
    lemma_columns_after_load(schema_rows, name);
    lemma_install_twice(schemas, columns_after_rows(Map::empty(), schema_rows));
}

proof fn lemma_load_once(
    pages: Map<PageId, BTreeNode>,
    pages_path: Seq<PageId>,
    pages_leaves: Seq<LeafNode>,
    pages_ids: Seq<PageId>,
    schema_path: Seq<PageId>,
    schema_leaves: Seq<LeafNode>,
    schema_ids: Seq<PageId>,
    roots: Map<Seq<char>, PageId>,
    schemas: Map<Seq<char>, Seq<ColumnView>>,
    extra: nat,
)
    requires
        stored_table(pages, PageId(SYS_PAGES_ROOT_ID), pages_path, pages_leaves, pages_ids),
        stored_table(pages, PageId(SYS_SCHEMA_ROOT_ID), schema_path, schema_leaves, schema_ids),
        forall|i: int|
            0 <= i < all_records(pages_leaves, 0).len() ==> record_ok(
                LoadStage::SysPages,
                #[trigger] all_records(pages_leaves, 0)[i],
            ),
        forall|i: int|
            0 <= i < all_records(schema_leaves, 0).len() ==> record_ok(
                LoadStage::SysSchema,
                #[trigger] all_records(schema_leaves, 0)[i],
            ),
    ensures
        run_loader(
            pages,
            initial_load(roots, schemas),
            load_rounds(pages_path, pages_leaves, schema_path, schema_leaves) + extra,
        ) == Some(
            LoadState {
                stage: LoadStage::Done,
                descending: false,
                cursor: exhausted_after(schema_leaves),
                raw: Map::empty(),
                roots: roots_after_rows(
                    roots,
                    rows_of(LoadStage::SysPages, all_records(pages_leaves, 0)),
                ),
                schemas: schemas.union_prefer_right(
                    columns_after_rows(
                        Map::empty(),
                        rows_of(LoadStage::SysSchema, all_records(schema_leaves, 0)),
                    ),
                ),
            },
        ),
{
    let s0 = initial_load(roots, schemas);
    let pr = scan_rounds(pages_leaves, 0);
    let sr = scan_rounds(schema_leaves, 0);
    let tail = (schema_path.len() + sr + extra) as nat;
    // descend sys_pages
    lemma_descend(pages, pages_path, pages_leaves, pages_ids, PageId(SYS_PAGES_ROOT_ID), 0, s0, (pr + tail) as nat);
    let s1 = LoadState {
        descending: false,
        cursor: BpTreeIterator { curr_page_id: Some(pages_ids[0]), curr_slot_idx: 0 },
        ..s0
    };
    // scan sys_pages
    assert(all_records(pages_leaves, 0) == live_records(pages_leaves[0], 0) + all_records(pages_leaves, 1));
    assert(pr == live_records(pages_leaves[0], 0).len() + 1 + scan_rounds(pages_leaves, 1));
    lemma_scan(pages, pages_path, pages_leaves, pages_ids, PageId(SYS_PAGES_ROOT_ID), 0, 0, s1, tail);
    let s2 = finish_spec(with_records(s1, all_records(pages_leaves, 0)), exhausted_after(pages_leaves));
    // descend sys_schema
    lemma_descend(pages, schema_path, schema_leaves, schema_ids, PageId(SYS_SCHEMA_ROOT_ID), 0, s2, (sr + extra) as nat);
    let s3 = LoadState {
        descending: false,
        cursor: BpTreeIterator { curr_page_id: Some(schema_ids[0]), curr_slot_idx: 0 },
        ..s2
    };
    // scan sys_schema
    assert(all_records(schema_leaves, 0) == live_records(schema_leaves[0], 0) + all_records(schema_leaves, 1));
    assert(sr == live_records(schema_leaves[0], 0).len() + 1 + scan_rounds(schema_leaves, 1));
    lemma_scan(pages, schema_path, schema_leaves, schema_ids, PageId(SYS_SCHEMA_ROOT_ID), 0, 0, s3, extra);
    assert((pages_path.len() + pr + tail) as nat == load_rounds(pages_path, pages_leaves, schema_path, schema_leaves) + extra);
}

} // verus!
