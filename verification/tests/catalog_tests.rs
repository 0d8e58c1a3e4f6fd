use std::collections::HashMap;

use minidb::catalog::manager::{
    collect_sys_schema_row, expect_system_page, CatalogLoader, CatalogManager, LoadStage,
    SYS_PAGES_ROOT_ID, SYS_SCHEMA_ROOT_ID,
};
use minidb::catalog::{sys_pages_schema, sys_schema_schema};
use minidb::error::DbError;
use minidb::relation::tuple::Tuple;
use minidb::relation::types::{DataType, Value};
use minidb::storage::page::{
    BTreeNode, InternalEntry, InternalNode, LeafNode, PageHeader, PageId, Record,
};
use vstd::hash_map::StringHashMap;

fn header(id: u64) -> PageHeader {
    PageHeader { page_id: PageId(id), is_dirty: false, last_lsn: 0 }
}

fn leaf(id: u64, rows: Vec<(bool, Vec<u8>)>, next: Option<u64>) -> BTreeNode {
    let n = rows.len();
    BTreeNode::Leaf(LeafNode {
        header: header(id),
        slot_array: (0..n as u16).collect(),
        records: rows.into_iter().map(|(is_deleted, data)| Record { is_deleted, data }).collect(),
        has_next: next.is_some(),
        next_page_id: PageId(next.unwrap_or(0)),
    })
}

fn pages_row(name: &str, root: i64) -> Vec<u8> {
    let t = Tuple::new(vec![Value::Varchar(name.to_string()), Value::BigInt(root), Value::BigInt(0)]);
    let mut out = Vec::new();
    t.encode(&sys_pages_schema(), &mut out).unwrap();
    out
}

fn schema_row(table: &str, field: &str, ty: i32, len: i32) -> Vec<u8> {
    let t = Tuple::new(vec![
        Value::Varchar(table.to_string()),
        Value::Varchar(field.to_string()),
        Value::Int(ty),
        Value::Int(len),
    ]);
    let mut out = Vec::new();
    t.encode(&sys_schema_schema(), &mut out).unwrap();
    out
}

fn run_loader(catalog: &mut CatalogManager, pages: &HashMap<u64, BTreeNode>) -> Result<(), DbError> {
    let mut loader = CatalogLoader::new();
    while let Some(id) = loader.next_page() {
        let node = &pages[&id.0];
        loader.feed(catalog, node)?;
    }
    Ok(())
}

#[test]
fn new_catalog_knows_no_table() {
    let c = CatalogManager::new();
    match c.get_table_root("users") {
        Err(DbError::TableNotFound(name)) => assert_eq!(name, "users"),
        _ => panic!("expected TableNotFound"),
    }
    assert!(matches!(c.get_table_schema("users"), Err(DbError::TableNotFound(_))));
}

#[test]
fn loading_sys_pages_rows() {
    let mut c = CatalogManager::new();
    let row = Tuple::new(vec![Value::Varchar("users".to_string()), Value::BigInt(7)]);
    c.load_sys_pages_row(&row).unwrap();
    assert_eq!(c.get_table_root("users").unwrap(), PageId(7));
    let again = Tuple::new(vec![Value::Varchar("users".to_string()), Value::BigInt(9)]);
    c.load_sys_pages_row(&again).unwrap();
    assert_eq!(c.get_table_root("users").unwrap(), PageId(9));
    let bad = Tuple::new(vec![Value::Int(1), Value::BigInt(3)]);
    assert!(matches!(c.load_sys_pages_row(&bad), Err(DbError::CorruptPage(_))));
    let bad2 = Tuple::new(vec![Value::Varchar("x".to_string()), Value::Null]);
    assert!(matches!(c.load_sys_pages_row(&bad2), Err(DbError::CorruptPage(_))));
    assert!(c.get_table_root("x").is_err());
}

#[test]
fn collecting_sys_schema_rows() {
    let mut raw: StringHashMap<minidb::relation::schema::Schema> = StringHashMap::new();
    let r1 = Tuple::new(vec![
        Value::Varchar("users".to_string()),
        Value::Varchar("id".to_string()),
        Value::Int(0),
        Value::Int(0),
    ]);
    let r2 = Tuple::new(vec![
        Value::Varchar("users".to_string()),
        Value::Varchar("name".to_string()),
        Value::Int(3),
        Value::Int(40),
    ]);
    collect_sys_schema_row(&mut raw, &r1).unwrap();
    collect_sys_schema_row(&mut raw, &r2).unwrap();
    let bad_code = Tuple::new(vec![
        Value::Varchar("users".to_string()),
        Value::Varchar("oops".to_string()),
        Value::Int(9),
        Value::Int(0),
    ]);
    assert!(matches!(collect_sys_schema_row(&mut raw, &bad_code), Err(DbError::CorruptPage(_))));
    let mut c = CatalogManager::new();
    c.install_schemas(raw);
    let s = c.get_table_schema("users").unwrap();
    assert_eq!(s.columns.len(), 2);
    assert_eq!(s.columns[0].name, "id");
    assert_eq!(s.columns[0].data_type, DataType::BigInt);
    assert_eq!(s.columns[0].length, None);
    assert_eq!(s.columns[1].name, "name");
    assert_eq!(s.columns[1].data_type, DataType::Varchar);
    assert_eq!(s.columns[1].length, Some(40));
}

#[test]
fn loader_reads_both_catalog_tables() {
    let mut pages = HashMap::new();
    // sys_pages: internal root 1 -> leaf 10 -> leaf 11
    pages.insert(
        SYS_PAGES_ROOT_ID,
        BTreeNode::Internal(InternalNode {
            header: header(1),
            slot_array: vec![1, 0],
            entries: vec![
                InternalEntry { child_page_id: PageId(11) },
                InternalEntry { child_page_id: PageId(10) },
            ],
            rightmost_child_id: PageId(12),
        }),
    );
    pages.insert(10, leaf(10, vec![(false, pages_row("users", 5)), (true, pages_row("gone", 6))], Some(11)));
    pages.insert(11, leaf(11, vec![(false, pages_row("orders", 8))], None));
    // sys_schema: a single leaf root
    pages.insert(
        SYS_SCHEMA_ROOT_ID,
        leaf(
            2,
            vec![
                (false, schema_row("users", "id", 0, 0)),
                (false, schema_row("orders", "total", 1, -1)),
                (false, schema_row("users", "email", 3, 64)),
            ],
            None,
        ),
    );
    let mut c = CatalogManager::new();
    run_loader(&mut c, &pages).unwrap();
    assert_eq!(c.get_table_root("users").unwrap(), PageId(5));
    assert_eq!(c.get_table_root("orders").unwrap(), PageId(8));
    assert!(c.get_table_root("gone").is_err());
    let users = c.get_table_schema("users").unwrap();
    let names: Vec<&str> = users.columns.iter().map(|col| col.name.as_str()).collect();
    assert_eq!(names, vec!["id", "email"]);
    assert_eq!(users.columns[1].length, Some(64));
    let orders = c.get_table_schema("orders").unwrap();
    assert_eq!(orders.columns[0].data_type, DataType::Int);
    assert_eq!(orders.columns[0].length, None);
}

#[test]
fn loader_refuses_internal_page_during_leaf_scan() {
    let mut c = CatalogManager::new();
    let mut loader = CatalogLoader::new();
    let root = leaf(1, vec![], Some(3));
    loader.feed(&mut c, &root).unwrap(); // descent reaches the leaf
    loader.feed(&mut c, &root).unwrap(); // no live record: move to page 3
    assert_eq!(loader.next_page(), Some(PageId(3)));
    let internal = BTreeNode::Internal(InternalNode {
        header: header(3),
        slot_array: vec![],
        entries: vec![],
        rightmost_child_id: PageId(4),
    });
    match loader.feed(&mut c, &internal) {
        Err(DbError::CorruptPage(msg)) => {
            assert_eq!(msg, "expected a leaf node during horizontal scan")
        }
        _ => panic!("expected CorruptPage"),
    }
}

#[test]
fn loader_passes_on_decode_errors() {
    let mut c = CatalogManager::new();
    let mut loader = CatalogLoader::new();
    let root = leaf(1, vec![(false, vec![0, 1])], None);
    loader.feed(&mut c, &root).unwrap();
    assert!(matches!(loader.feed(&mut c, &root), Err(DbError::Io(_))));
}

#[test]
fn loader_stages() {
    let mut c = CatalogManager::new();
    let mut loader = CatalogLoader::new();
    assert_eq!(loader.stage, LoadStage::SysPages);
    assert_eq!(loader.next_page(), Some(PageId(SYS_PAGES_ROOT_ID)));
    let empty = leaf(1, vec![], None);
    loader.feed(&mut c, &empty).unwrap();
    loader.feed(&mut c, &empty).unwrap();
    assert_eq!(loader.stage, LoadStage::SysSchema);
    assert_eq!(loader.next_page(), Some(PageId(SYS_SCHEMA_ROOT_ID)));
    let empty2 = leaf(2, vec![], None);
    loader.feed(&mut c, &empty2).unwrap();
    loader.feed(&mut c, &empty2).unwrap();
    assert_eq!(loader.stage, LoadStage::Done);
    assert_eq!(loader.next_page(), None);
}

#[test]
fn system_page_ids_are_checked() {
    assert!(expect_system_page(PageId(1), PageId(SYS_PAGES_ROOT_ID), "sys_pages").is_ok());
    match expect_system_page(PageId(3), PageId(2), "sys_schema") {
        Err(DbError::CorruptPage(msg)) => {
            assert_eq!(msg, "failed to allocate sys_schema at PageId 2, got=PageId(3)")
        }
        _ => panic!("expected CorruptPage"),
    }
}
