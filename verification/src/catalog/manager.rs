use vstd::hash_map::StringHashMap;
use vstd::prelude::*;

use crate::catalog::{sys_pages_columns, sys_pages_schema, sys_schema_columns, sys_schema_schema};
use crate::error::DbError;
use crate::execution::iterator::{first_live_slot, leaf_step, BpTreeIterator, IterStep};
use crate::relation::schema::{Column, ColumnView, Schema};
use crate::relation::tuple::{decode_tuple, DecodeFault, Tuple};
use crate::relation::types::{
    lemma_data_type_code_roundtrip, ascii_chars, data_type_of_code, decimal_digits, format_unsigned, DataType, ValueView,
};
use crate::storage::page::{BTreeNode, PageId};

verus! {

broadcast use vstd::hash_map::group_hash_map_axioms;

/// The number of the root page of the `sys_pages` catalog table.
pub const SYS_PAGES_ROOT_ID: u64 = 1;

/// The number of the root page of the `sys_schema` catalog table.
pub const SYS_SCHEMA_ROOT_ID: u64 = 2;

/// The table name and root page that a `sys_pages` row records, if its
/// first value is a string and its second a big integer.
pub open spec fn sys_pages_row(vals: Seq<ValueView>) -> Option<(Seq<char>, PageId)> {
    match (vals[0], vals[1]) {
        (ValueView::Varchar(name), ValueView::BigInt(root)) => Some((name, PageId(root as u64))),
        _ => None,
    }
}

/// The column that a `sys_schema` row declares for a table, if its values
/// are two strings and two integers and its type code names a data type. A
/// length above zero is the column's maximum length; any other means none.
pub open spec fn sys_schema_row(vals: Seq<ValueView>) -> Option<(Seq<char>, ColumnView)> {
    match (vals[0], vals[1], vals[2], vals[3]) {
        (
            ValueView::Varchar(table),
            ValueView::Varchar(field),
            ValueView::Int(field_type),
            ValueView::Int(field_length),
        ) => match data_type_of_code(field_type as u8) {
            Some(dt) => Some(
                (
                    table,
                    ColumnView {
                        name: field,
                        data_type: dt,
                        length: if field_length > 0 {
                            Some(field_length as u32)
                        } else {
                            None
                        },
                    },
                ),
            ),
            None => None,
        },
        _ => None,
    }
}

/// The table layouts after appending column `c` to table `t`.
pub open spec fn add_column(m: Map<Seq<char>, Seq<ColumnView>>, t: Seq<char>, c: ColumnView) -> Map<
    Seq<char>,
    Seq<ColumnView>,
> {
    m.insert(
        t,
        if m.contains_key(t) {
            m[t]
        } else {
            seq![]
        }.push(c),
    )
}

/// A `sys_pages` row whose first value is the string `name` and whose second
/// is the big integer `r` names table `name` with root page number `r` (a
/// negative `r` wraps around to `r + 2^64`), and loading it makes `name`
/// resolve to that page.
pub proof fn lemma_sys_pages_row_fields(
    before: Map<Seq<char>, PageId>,
    vals: Seq<ValueView>,
    name: Seq<char>,
    r: i64,
)
    requires
        vals.len() >= 2,
        vals[0] == ValueView::Varchar(name),
        vals[1] == ValueView::BigInt(r),
    ensures
        sys_pages_row(vals) matches Some((n, id)) && n == name && id.0 as int == (if r >= 0 {
            r as int
        } else {
            r + 0x1_0000_0000_0000_0000
        }) && before.insert(n, id)[name] == id,
{
    assert(r >= 0 ==> (r as u64) as int == r as int) by (bit_vector);
    assert(r < 0 ==> (r as u64) as int == r + 0x1_0000_0000_0000_0000) by (bit_vector);
}

/// A `sys_schema` row of two strings `table` and `field` and two integers
/// `field_type` and `field_length` declares a column exactly when the low byte
/// of `field_type` is a type code (below 4). The column belongs to `table`,
/// is named `field`, has the data type whose code that byte is, and has the
/// length `field_length` when it is above zero and no length otherwise.
pub proof fn lemma_sys_schema_row_fields(
    vals: Seq<ValueView>,
    table: Seq<char>,
    field: Seq<char>,
    field_type: i32,
    field_length: i32,
)
    requires
        vals.len() >= 4,
        vals[0] == ValueView::Varchar(table),
        vals[1] == ValueView::Varchar(field),
        vals[2] == ValueView::Int(field_type),
        vals[3] == ValueView::Int(field_length),
    ensures
        sys_schema_row(vals) is Some <==> (field_type as u8) < 4,
        sys_schema_row(vals) matches Some((t, c)) ==> {
            &&& t == table
            &&& c.name == field
            &&& c.data_type.spec_code() == field_type as u8
            &&& field_length > 0 ==> (c.length matches Some(l) && l as int == field_length)
            &&& field_length <= 0 ==> c.length is None
        },
{
    lemma_data_type_code_roundtrip(DataType::BigInt, field_type as u8);
}

/// Loading a `sys_pages` row makes its table resolve to the row's root page
/// and leaves every other table's root as it was.
pub proof fn lemma_loaded_root_resolves(
    before: Map<Seq<char>, PageId>,
    vals: Seq<ValueView>,
    other: Seq<char>,
)
    requires
        sys_pages_row(vals) is Some,
    ensures
        ({
            let (name, root) = sys_pages_row(vals).unwrap();
            let after = before.insert(name, root);
            &&& after.contains_key(name)
            &&& after[name] == root
            &&& other != name ==> after.contains_key(other) == before.contains_key(other)
            &&& other != name && before.contains_key(other) ==> after[other] == before[other]
        }),
{
}

/// Collecting a `sys_schema` row appends its column after the columns already
/// collected for its table, in row order, and leaves other tables alone.
pub proof fn lemma_collected_columns_keep_row_order(
    before: Map<Seq<char>, Seq<ColumnView>>,
    vals: Seq<ValueView>,
    other: Seq<char>,
)
    requires
        sys_schema_row(vals) is Some,
    ensures
        ({
            let (table, column) = sys_schema_row(vals).unwrap();
            let after = add_column(before, table, column);
            let prev = if before.contains_key(table) {
                before[table]
            } else {
                seq![]
            };
            &&& after.contains_key(table)
            &&& after[table].len() == prev.len() + 1
            &&& after[table].last() == column
            &&& forall|i: int| 0 <= i < prev.len() ==> after[table][i] == prev[i]
            &&& other != table ==> after.contains_key(other) == before.contains_key(other)
            &&& other != table && before.contains_key(other) ==> after[other] == before[other]
        }),
{
}

/// The table roots after loading the decoded `sys_pages` rows `rows` in
/// order, starting from `roots`; a row of the wrong shape changes nothing.
pub open spec fn roots_after_rows(roots: Map<Seq<char>, PageId>, rows: Seq<Seq<ValueView>>) -> Map<
    Seq<char>,
    PageId,
>
    decreases rows.len(),
{
    if rows.len() == 0 {
        roots
    } else {
        let before = roots_after_rows(roots, rows.drop_last());
        match sys_pages_row(rows.last()) {
            Some((name, root)) => before.insert(name, root),
            None => before,
        }
    }
}

/// The root that the last of `rows` naming table `name` records, if any.
pub open spec fn last_root_for(rows: Seq<Seq<ValueView>>, name: Seq<char>) -> Option<PageId>
    decreases rows.len(),
{
    if rows.len() == 0 {
        None
    } else {
        match sys_pages_row(rows.last()) {
            Some((n, root)) if n == name => Some(root),
            _ => last_root_for(rows.drop_last(), name),
        }
    }
}

/// After loading `sys_pages` rows in scan order, a table resolves to the root
/// of the last row that names it; a table that no row names keeps what it
/// had. Loading the same rows again changes nothing.
pub proof fn lemma_roots_after_load(
    roots: Map<Seq<char>, PageId>,
    rows: Seq<Seq<ValueView>>,
    name: Seq<char>,
)
    ensures
        match last_root_for(rows, name) {
            Some(root) => roots_after_rows(roots, rows).contains_key(name) && roots_after_rows(
                roots,
                rows,
            )[name] == root,
            None => roots_after_rows(roots, rows).contains_key(name) == roots.contains_key(name)
                && (roots.contains_key(name) ==> roots_after_rows(roots, rows)[name] == roots[name]),
        },
        roots_after_rows(roots_after_rows(roots, rows), rows) == roots_after_rows(roots, rows),
{
    lemma_roots_after_load_at(roots, rows, name);
    let once = roots_after_rows(roots, rows);
    let twice = roots_after_rows(once, rows);
    assert forall|n: Seq<char>| #[trigger] twice.contains_key(n) == once.contains_key(n) by {
        lemma_roots_after_load_at(roots, rows, n);
        lemma_roots_after_load_at(once, rows, n);
    }
    assert forall|n: Seq<char>| #[trigger] twice.contains_key(n) implies twice[n] == once[n] by {
        lemma_roots_after_load_at(roots, rows, n);
        lemma_roots_after_load_at(once, rows, n);
    }
    assert(twice.dom() =~= once.dom());
    assert(twice =~= once);
}

proof fn lemma_roots_after_load_at(
    roots: Map<Seq<char>, PageId>,
    rows: Seq<Seq<ValueView>>,
    name: Seq<char>,
)
    ensures
        match last_root_for(rows, name) {
            Some(root) => roots_after_rows(roots, rows).contains_key(name) && roots_after_rows(
                roots,
                rows,
            )[name] == root,
            None => roots_after_rows(roots, rows).contains_key(name) == roots.contains_key(name)
                && (roots.contains_key(name) ==> roots_after_rows(roots, rows)[name] == roots[name]),
        },
    decreases rows.len(),
{
    if rows.len() > 0 {
        lemma_roots_after_load_at(roots, rows.drop_last(), name);
    }
}

/// The table layouts collected from the decoded `sys_schema` rows `rows` in
/// order, starting from `raw`; a row of the wrong shape changes nothing.
pub open spec fn columns_after_rows(
    raw: Map<Seq<char>, Seq<ColumnView>>,
    rows: Seq<Seq<ValueView>>,
) -> Map<Seq<char>, Seq<ColumnView>>
    decreases rows.len(),
{
    if rows.len() == 0 {
        raw
    } else {
        let before = columns_after_rows(raw, rows.drop_last());
        match sys_schema_row(rows.last()) {
            Some((table, column)) => add_column(before, table, column),
            None => before,
        }
    }
}

/// The columns that `rows` declare for `table`, in row order.
pub open spec fn columns_for(rows: Seq<Seq<ValueView>>, table: Seq<char>) -> Seq<ColumnView>
    decreases rows.len(),
{
    if rows.len() == 0 {
        seq![]
    } else {
        match sys_schema_row(rows.last()) {
            Some((t, column)) if t == table => columns_for(rows.drop_last(), table).push(column),
            _ => columns_for(rows.drop_last(), table),
        }
    }
}

/// Collecting `sys_schema` rows in scan order from nothing gives each table
/// that some row names exactly the columns its rows declare, in row order,
/// and gives no layout to any other table.
pub proof fn lemma_columns_after_load(rows: Seq<Seq<ValueView>>, table: Seq<char>)
    ensures
        columns_after_rows(Map::empty(), rows).contains_key(table) <==> columns_for(rows, table).len()
            > 0,
        columns_for(rows, table).len() > 0 ==> columns_after_rows(Map::empty(), rows)[table]
            == columns_for(rows, table),
    decreases rows.len(),
{
    if rows.len() > 0 {
        lemma_columns_after_load(rows.drop_last(), table);
    }
}

/// Installing the same collected layouts a second time changes nothing.
pub proof fn lemma_install_twice(
    schemas: Map<Seq<char>, Seq<ColumnView>>,
    raw: Map<Seq<char>, Seq<ColumnView>>,
)
    ensures
        schemas.union_prefer_right(raw).union_prefer_right(raw) == schemas.union_prefer_right(raw),
{
    assert(schemas.union_prefer_right(raw).union_prefer_right(raw) =~= schemas.union_prefer_right(
        raw,
    ));
}

/// The layouts that a map of schemas holds.
pub open spec fn schemas_view(m: Map<Seq<char>, Schema>) -> Map<Seq<char>, Seq<ColumnView>> {
    m.map_values(|s: Schema| s@)
}

/// The in-memory metadata cache for the entire database.
///
/// The `CatalogManager` caches the contents of the `sys_pages` and
/// `sys_schema` B+-trees to provide constant time lookups for the binder and
/// planner layers, when queries are run.
pub struct CatalogManager {
    /// Maps a table name to its physical B-Tree root [PageId].
    table_roots: StringHashMap<PageId>,
    /// Maps a table name to its logical [Schema] definition.
    table_schema: StringHashMap<Schema>,
}

impl CatalogManager {
    /// The root page of each known table, by name.
    pub closed spec fn roots(&self) -> Map<Seq<char>, PageId> {
        self.table_roots@
    }

    /// The layout of each known table, by name.
    pub closed spec fn schemas(&self) -> Map<Seq<char>, Seq<ColumnView>> {
        schemas_view(self.table_schema@)
    }

    /// Initializes an empty CatalogManager.
    pub fn new() -> (c: Self)
        ensures
            c.roots() == Map::<Seq<char>, PageId>::empty(),
            c.schemas() == Map::<Seq<char>, Seq<ColumnView>>::empty(),
    {
        let c = Self { table_roots: StringHashMap::new(), table_schema: StringHashMap::new() };
        assert(c.schemas() =~= Map::<Seq<char>, Seq<ColumnView>>::empty());
        c
    }

    /// Retrieves the physical root PageId for a given table name.
    pub fn get_table_root(&self, table_name: &str) -> (r: Result<PageId, DbError>)
        ensures
            self.roots().contains_key(table_name@) ==> r == Ok::<PageId, DbError>(
                self.roots()[table_name@],
            ),
            !self.roots().contains_key(table_name@) ==> (r matches Err(DbError::TableNotFound(n))
                && n@ == table_name@),
    {
        match self.table_roots.get(table_name) {
            Some(id) => Ok(*id),
            None => Err(DbError::TableNotFound(String::from_str(table_name))),
        }
    }

    /// Retrieves the logical Schema for a given table name.
    pub fn get_table_schema(&self, table_name: &str) -> (r: Result<&Schema, DbError>)
        ensures
            self.schemas().contains_key(table_name@) ==> (r matches Ok(s) && s@ == self.schemas()[table_name@]),
            !self.schemas().contains_key(table_name@) ==> (r matches Err(DbError::TableNotFound(n))
                && n@ == table_name@),
    {
        match self.table_schema.get(table_name) {
            Some(s) => Ok(s),
            None => Err(DbError::TableNotFound(String::from_str(table_name))),
        }
    }

    /// Records the table named by a decoded `sys_pages` row under its root
    /// page; the row's last inserted row id is not cached. A row of the wrong
    /// shape is `CorruptPage`, and nothing changes.
    pub fn load_sys_pages_row(&mut self, tuple: &Tuple) -> (r: Result<(), DbError>)
        requires
            tuple.values@.len() >= 2,
        ensures
            final(self).schemas() == old(self).schemas(),
            match sys_pages_row(tuple@) {
                Some((name, root)) => r is Ok && final(self).roots() == old(self).roots().insert(
                    name,
                    root,
                ),
                None => r matches Err(DbError::CorruptPage(_)) && final(self).roots() == old(self).roots(),
            },
    {
        assert(tuple@[0] == tuple.values@[0]@ && tuple@[1] == tuple.values@[1]@);
        let table_name = match tuple.values[0].varchar_to_str() {
            Some(s) => s,
            None => {
                return Err(
                    DbError::CorruptPage(String::from_str("sys_pages table_name is not Varchar")),
                );
            },
        };
        let root_page_id = match tuple.values[1].bigint_to_i64() {
            Some(v) => v,
            None => {
                return Err(
                    DbError::CorruptPage(String::from_str("sys_pages root_page_id is not BigInt")),
                );
            },
        };
        self.table_roots.insert(String::from_str(table_name), PageId(root_page_id as u64));
        Ok(())
    }

    /// Replaces the layouts of the tables in `raw_columns` by theirs, as the
    /// last step of loading `sys_schema`.
    pub fn install_schemas(&mut self, raw_columns: StringHashMap<Schema>)
        ensures
            final(self).roots() == old(self).roots(),
            final(self).schemas() == old(self).schemas().union_prefer_right(
                schemas_view(raw_columns@),
            ),
    {
        let ghost raw = raw_columns@;
        self.table_schema.union_prefer_right(raw_columns);
        assert(self.schemas() =~= old(self).schemas().union_prefer_right(schemas_view(raw)));
    }
}

/// Appends the column that a decoded `sys_schema` row declares to the layout
/// collected so far for its table. A row of the wrong shape, or with an
/// unknown type code, is `CorruptPage`, and nothing changes.
pub fn collect_sys_schema_row(raw_columns: &mut StringHashMap<Schema>, tuple: &Tuple) -> (r: Result<
    (),
    DbError,
>)
    requires
        tuple.values@.len() >= 4,
    ensures
        match sys_schema_row(tuple@) {
            Some((table, column)) => r is Ok && schemas_view(final(raw_columns)@) == add_column(
                schemas_view(old(raw_columns)@),
                table,
                column,
            ),
            None => r matches Err(DbError::CorruptPage(_)) && final(raw_columns)@ == old(raw_columns)@,
        },
{
    assert(tuple@[0] == tuple.values@[0]@ && tuple@[1] == tuple.values@[1]@);
    assert(tuple@[2] == tuple.values@[2]@ && tuple@[3] == tuple.values@[3]@);
    let table_name = match tuple.values[0].varchar_to_str() {
        Some(s) => s,
        None => {
            return Err(
                DbError::CorruptPage(String::from_str("sys_schema table_name is not Varchar")),
            );
        },
    };
    let field_name = match tuple.values[1].varchar_to_str() {
        Some(s) => s,
        None => {
            return Err(
                DbError::CorruptPage(String::from_str("sys_schema field_name is not Varchar")),
            );
        },
    };
    let field_type = match tuple.values[2].int_to_i32() {
        Some(v) => v,
        None => {
            return Err(DbError::CorruptPage(String::from_str("sys_schema field_type is not Int")));
        },
    };
    let field_length = match tuple.values[3].int_to_i32() {
        Some(v) => v,
        None => {
            return Err(
                DbError::CorruptPage(String::from_str("sys_schema field_length is not Int")),
            );
        },
    };
    let data_type = match DataType::from_u8(field_type as u8) {
        Ok(dt) => dt,
        Err(e) => {
            return Err(e);
        },
    };
    let length: Option<u32> = if field_length > 0 {
        Some(field_length as u32)
    } else {
        None
    };
    let column = Column::new(field_name, data_type, length);
    let ghost before = schemas_view(raw_columns@);
    let mut schema = match raw_columns.get(table_name) {
        Some(s) => s.duplicate(),
        None => {
            let s = Schema::new(Vec::new());
            assert(s@ =~= seq![]);
            s
        },
    };
    let ghost prev = schema@;
    schema.columns.push(column);
    assert(schema@ =~= prev.push(column@));
    raw_columns.insert(String::from_str(table_name), schema);
    assert(schemas_view(raw_columns@) =~= add_column(before, table_name@, column@));
    Ok(())
}

/// Which catalog table a [`CatalogLoader`] is reading.
#[derive(Debug, Clone, Copy, PartialEq, Eq, Structural)]
pub enum LoadStage {
    /// Reading `sys_pages` into the table roots.
    SysPages,
    /// Reading `sys_schema` into the table layouts.
    SysSchema,
    /// Both tables are loaded.
    Done,
}

/// The columns of the catalog table that a stage reads.
pub open spec fn stage_columns(stage: LoadStage) -> Seq<ColumnView> {
    if stage == LoadStage::SysPages {
        sys_pages_columns()
    } else {
        sys_schema_columns()
    }
}

/// The state of a catalog load as the load's laws see it: where the loader
/// stands, the layouts it collected so far, and the catalog's table roots and
/// layouts.
pub struct LoadState {
    pub stage: LoadStage,
    pub descending: bool,
    pub cursor: BpTreeIterator,
    pub raw: Map<Seq<char>, Seq<ColumnView>>,
    pub roots: Map<Seq<char>, PageId>,
    pub schemas: Map<Seq<char>, Seq<ColumnView>>,
}

/// The state after the last leaf of the current table: `sys_schema` is read
/// next, or, after `sys_schema`, the collected layouts are installed.
pub open spec fn finish_spec(s: LoadState, cursor: BpTreeIterator) -> LoadState {
    if s.stage == LoadStage::SysPages {
        LoadState {
            stage: LoadStage::SysSchema,
            descending: true,
            cursor: BpTreeIterator::new_spec(PageId(SYS_SCHEMA_ROOT_ID)),
            raw: Map::empty(),
            ..s
        }
    } else {
        LoadState {
            stage: LoadStage::Done,
            cursor,
            raw: Map::empty(),
            schemas: s.schemas.union_prefer_right(s.raw),
            ..s
        }
    }
}

/// The state after applying the row that a record holds, or `None` when the
/// record does not decode or its row has the wrong shape.
pub open spec fn apply_record_spec(s: LoadState, data: Seq<u8>) -> Option<LoadState> {
    match decode_tuple(stage_columns(s.stage), data) {
        Err(_) => None,
        Ok((vals, _)) => if s.stage == LoadStage::SysPages {
            match sys_pages_row(vals) {
                Some((name, root)) => Some(LoadState { roots: s.roots.insert(name, root), ..s }),
                None => None,
            }
        } else {
            match sys_schema_row(vals) {
                Some((table, column)) => Some(LoadState { raw: add_column(s.raw, table, column), ..s }),
                None => None,
            }
        },
    }
}

/// What feeding the page `node` does to a load that is not done: the state
/// afterwards, or `None` when feeding it fails.
pub open spec fn feed_spec(s: LoadState, node: BTreeNode) -> Option<LoadState> {
    if s.descending {
        match node {
            BTreeNode::Internal(n) => Some(
                LoadState {
                    cursor: BpTreeIterator {
                        curr_page_id: Some(n.spec_leftmost_child()),
                        ..s.cursor
                    },
                    ..s
                },
            ),
            BTreeNode::Leaf(_) => Some(
                LoadState {
                    descending: false,
                    cursor: BpTreeIterator { curr_slot_idx: 0, ..s.cursor },
                    ..s
                },
            ),
        }
    } else {
        match node {
            BTreeNode::Internal(_) => None,
            BTreeNode::Leaf(leaf) => {
                let (next, loaded) = leaf_step(s.cursor, leaf);
                match loaded {
                    Some(data) => match apply_record_spec(LoadState { cursor: next, ..s }, data) {
                        Some(t) => Some(t),
                        None => None,
                    },
                    None => if next.curr_page_id is Some {
                        Some(LoadState { cursor: next, ..s })
                    } else {
                        Some(finish_spec(s, next))
                    },
                }
            },
        }
    }
}

/// Loads the catalog from the `sys_pages` and `sys_schema` B+-trees, one page
/// at a time: the caller fetches the page that [`CatalogLoader::next_page`]
/// names and hands it to [`CatalogLoader::feed`], until no page is named.
///
/// Each table is read by descending from its root along the leftmost children
/// to the first leaf, then walking the leaves left to right and decoding every
/// record that is not deleted. `sys_pages` rows go straight into the table
/// roots; `sys_schema` rows are collected per table and replace the table
/// layouts once the whole table has been read.
pub struct CatalogLoader {
    pub stage: LoadStage,
    pub descending: bool,
    pub cursor: BpTreeIterator,
    pub raw_columns: StringHashMap<Schema>,
}

impl CatalogLoader {
    /// The loader names a page to fetch while it is not done.
    pub open spec fn wf(&self) -> bool {
        self.stage != LoadStage::Done ==> self.cursor.curr_page_id is Some
    }

    /// The layouts collected so far from `sys_schema`.
    pub open spec fn raw_view(&self) -> Map<Seq<char>, Seq<ColumnView>> {
        schemas_view(self.raw_columns@)
    }

    /// The state of the load that this loader runs into `catalog`.
    pub open spec fn state(&self, catalog: &CatalogManager) -> LoadState {
        LoadState {
            stage: self.stage,
            descending: self.descending,
            cursor: self.cursor,
            raw: self.raw_view(),
            roots: catalog.roots(),
            schemas: catalog.schemas(),
        }
    }

    /// Starts loading at the root of `sys_pages`.
    pub fn new() -> (l: Self)
        ensures
            l.wf(),
            l.stage == LoadStage::SysPages,
            l.descending,
            l.cursor.curr_page_id == Some(PageId(SYS_PAGES_ROOT_ID)),
            l.raw_view() == Map::<Seq<char>, Seq<ColumnView>>::empty(),
    {
        let l = CatalogLoader {
            stage: LoadStage::SysPages,
            descending: true,
            cursor: BpTreeIterator::new(PageId(SYS_PAGES_ROOT_ID)),
            raw_columns: StringHashMap::new(),
        };
        assert(l.raw_view() =~= Map::<Seq<char>, Seq<ColumnView>>::empty());
        l
    }

    /// The page that must be fetched and fed next, or `None` once the catalog
    /// is loaded.
    pub fn next_page(&self) -> (r: Option<PageId>)
        requires
            self.wf(),
        ensures
            self.stage == LoadStage::Done ==> r is None,
            self.stage != LoadStage::Done ==> r == self.cursor.curr_page_id && r is Some,
    {
        if self.stage == LoadStage::Done {
            None
        } else {
            self.cursor.curr_page_id
        }
    }

    /// Whether `node` holds what [`CatalogLoader::feed`] reads of it: the
    /// first entry of an internal page while descending, the record of every
    /// slot of a leaf while scanning.
    pub fn can_read(&self, node: &BTreeNode) -> (r: bool)
        ensures
            r == (if self.descending {
                node.descent_readable()
            } else {
                node.scan_readable()
            }),
    {
        if self.descending {
            node.is_descent_readable()
        } else {
            node.is_scan_readable()
        }
    }

    /// Decodes a record of the table being read and applies its row.
    fn apply_record(&mut self, catalog: &mut CatalogManager, data: &Vec<u8>) -> (r: Result<
        (),
        DbError,
    >)
        requires
            old(self).stage != LoadStage::Done,
        ensures
            final(self).stage == old(self).stage,
            final(self).descending == old(self).descending,
            final(self).cursor == old(self).cursor,
            final(catalog).schemas() == old(catalog).schemas(),
            match decode_tuple(stage_columns(old(self).stage), data@) {
                Err(DecodeFault::Truncated) => r matches Err(DbError::Io(_)) && final(catalog).roots()
                    == old(catalog).roots() && final(self).raw_view() == old(self).raw_view(),
                Err(DecodeFault::InvalidText) => r matches Err(DbError::CorruptPage(_)) && final(catalog).roots() == old(catalog).roots() && final(self).raw_view() == old(self).raw_view(),
                Ok((vals, _)) => if old(self).stage == LoadStage::SysPages {
                    &&& final(self).raw_view() == old(self).raw_view()
                    &&& match sys_pages_row(vals) {
                        Some((name, root)) => r is Ok && final(catalog).roots() == old(catalog).roots().insert(name, root),
                        None => r matches Err(DbError::CorruptPage(_)) && final(catalog).roots()
                            == old(catalog).roots(),
                    }
                } else {
                    &&& final(catalog).roots() == old(catalog).roots()
                    &&& match sys_schema_row(vals) {
                        Some((table, column)) => r is Ok && final(self).raw_view() == add_column(
                            old(self).raw_view(),
                            table,
                            column,
                        ),
                        None => r matches Err(DbError::CorruptPage(_)) && final(self).raw_view()
                            == old(self).raw_view(),
                    }
                },
            },
    {
        let schema = if self.stage == LoadStage::SysPages {
            sys_pages_schema()
        } else {
            sys_schema_schema()
        };
        let tuple = match Tuple::decode(&schema, data.as_slice()) {
            Ok((t, _)) => t,
            Err(e) => {
                return Err(e);
            },
        };
        if self.stage == LoadStage::SysPages {
            catalog.load_sys_pages_row(&tuple)
        } else {
            collect_sys_schema_row(&mut self.raw_columns, &tuple)
        }
    }

    /// Moves on after the last leaf of the current table: from `sys_pages` to
    /// the root of `sys_schema`, or, after `sys_schema`, installs the
    /// collected layouts and finishes.
    fn finish_table(&mut self, catalog: &mut CatalogManager)
        requires
            old(self).stage != LoadStage::Done,
        ensures
            final(self).wf(),
            final(catalog).roots() == old(catalog).roots(),
            old(self).stage == LoadStage::SysPages ==> {
                &&& final(self).stage == LoadStage::SysSchema
                &&& final(self).descending
                &&& final(self).cursor == BpTreeIterator::new_spec(PageId(SYS_SCHEMA_ROOT_ID))
                &&& final(self).raw_view() == Map::<Seq<char>, Seq<ColumnView>>::empty()
                &&& final(catalog).schemas() == old(catalog).schemas()
            },
            old(self).stage == LoadStage::SysSchema ==> {
                &&& final(self).stage == LoadStage::Done
                &&& final(self).descending == old(self).descending
                &&& final(self).cursor == old(self).cursor
                &&& final(self).raw_view() == Map::<Seq<char>, Seq<ColumnView>>::empty()
                &&& final(catalog).schemas() == old(catalog).schemas().union_prefer_right(
                    old(self).raw_view(),
                )
            },
    {
        if self.stage == LoadStage::SysPages {
            self.stage = LoadStage::SysSchema;
            self.descending = true;
            self.cursor = BpTreeIterator::new(PageId(SYS_SCHEMA_ROOT_ID));
            self.raw_columns = StringHashMap::new();
            assert(self.raw_view() =~= Map::<Seq<char>, Seq<ColumnView>>::empty());
        } else {
            let mut raw: StringHashMap<Schema> = StringHashMap::new();
            std::mem::swap(&mut raw, &mut self.raw_columns);
            assert(self.raw_view() =~= Map::<Seq<char>, Seq<ColumnView>>::empty());
            catalog.install_schemas(raw);
            self.stage = LoadStage::Done;
        }
    }

    /// Feeds the page that [`CatalogLoader::next_page`] named.
    ///
    /// While descending, an internal page sends the loader to its leftmost
    /// child, and a leaf starts the scan of that same page. While scanning, the
    /// next live record of the leaf is decoded with the table's schema and its
    /// row applied; when the leaf has no further live record, the loader moves
    /// to the next leaf, or finishes the table. A page that is not a leaf while
    /// scanning is `CorruptPage`; decoding and row errors are passed on.
    pub fn feed(&mut self, catalog: &mut CatalogManager, node: &BTreeNode) -> (r: Result<
        (),
        DbError,
    >)
        requires
            old(self).wf(),
            old(self).stage != LoadStage::Done,
            old(self).descending ==> node.descent_readable(),
            !old(self).descending ==> node.scan_readable(),
        ensures
            final(self).wf(),
            r is Ok <==> feed_spec(old(self).state(old(catalog)), *node) is Some,
            r is Ok ==> final(self).state(final(catalog)) == feed_spec(
                old(self).state(old(catalog)),
                *node,
            )->Some_0,
            old(self).descending ==> r is Ok && final(catalog).roots() == old(catalog).roots()
                && final(catalog).schemas() == old(catalog).schemas() && final(self).stage == old(self).stage && final(self).raw_view() == old(self).raw_view() && match node {
                BTreeNode::Internal(n) => final(self).descending && final(self).cursor.curr_page_id
                    == Some(n.spec_leftmost_child()),
                BTreeNode::Leaf(_) => !final(self).descending && final(self).cursor.curr_page_id
                    == old(self).cursor.curr_page_id && final(self).cursor.curr_slot_idx == 0,
            },
            !old(self).descending ==> match node {
                BTreeNode::Internal(_) => {
                    &&& r matches Err(DbError::CorruptPage(msg))
                    &&& msg@ == "expected a leaf node during horizontal scan"@
                    &&& final(catalog).roots() == old(catalog).roots()
                    &&& final(catalog).schemas() == old(catalog).schemas()
                    &&& final(self).stage == old(self).stage
                    &&& final(self).descending == old(self).descending
                    &&& final(self).cursor == old(self).cursor
                    &&& final(self).raw_view() == old(self).raw_view()
                },
                BTreeNode::Leaf(leaf) => match first_live_slot(
                    leaf,
                    old(self).cursor.curr_slot_idx as int,
                ) {
                    Some(j) => {
                        let data = leaf.records@[leaf.slot_array@[j] as int].data@;
                        &&& final(self).stage == old(self).stage
                        &&& !final(self).descending
                        &&& final(self).cursor.curr_page_id == old(self).cursor.curr_page_id
                        &&& final(self).cursor.curr_slot_idx == j + 1
                        &&& final(catalog).schemas() == old(catalog).schemas()
                        &&& match decode_tuple(stage_columns(old(self).stage), data) {
                            Err(DecodeFault::Truncated) => r matches Err(DbError::Io(_)) && final(catalog).roots() == old(catalog).roots(),
                            Err(DecodeFault::InvalidText) => r matches Err(DbError::CorruptPage(_))
                                && final(catalog).roots() == old(catalog).roots(),
                            Ok((vals, _)) => if old(self).stage == LoadStage::SysPages {
                                &&& final(self).raw_view() == old(self).raw_view()
                                &&& match sys_pages_row(vals) {
                                    Some((name, root)) => r is Ok && final(catalog).roots() == old(catalog).roots().insert(name, root),
                                    None => r matches Err(DbError::CorruptPage(_)) && final(catalog).roots() == old(catalog).roots(),
                                }
                            } else {
                                &&& final(catalog).roots() == old(catalog).roots()
                                &&& match sys_schema_row(vals) {
                                    Some((table, column)) => r is Ok && final(self).raw_view()
                                        == add_column(old(self).raw_view(), table, column),
                                    None => r matches Err(DbError::CorruptPage(_)) && final(self).raw_view() == old(self).raw_view(),
                                }
                            },
                        }
                    },
                    None => {
                        &&& r is Ok
                        &&& final(catalog).roots() == old(catalog).roots()
                        &&& leaf.has_next ==> {
                            &&& final(self).stage == old(self).stage
                            &&& !final(self).descending
                            &&& final(self).cursor == BpTreeIterator::new_spec(leaf.next_page_id)
                            &&& final(self).raw_view() == old(self).raw_view()
                            &&& final(catalog).schemas() == old(catalog).schemas()
                        }
                        &&& (!leaf.has_next && old(self).stage == LoadStage::SysPages) ==> {
                            &&& final(self).stage == LoadStage::SysSchema
                            &&& final(self).descending
                            &&& final(self).cursor == BpTreeIterator::new_spec(PageId(SYS_SCHEMA_ROOT_ID))
                            &&& final(self).raw_view() == Map::<Seq<char>, Seq<ColumnView>>::empty()
                            &&& final(catalog).schemas() == old(catalog).schemas()
                        }
                        &&& (!leaf.has_next && old(self).stage == LoadStage::SysSchema) ==> {
                            &&& final(self).stage == LoadStage::Done
                            &&& final(catalog).schemas() == old(catalog).schemas().union_prefer_right(
                                old(self).raw_view(),
                            )
                        }
                    },
                },
            },
    {
        if self.descending {
            match node {
                BTreeNode::Internal(n) => {
                    self.cursor.curr_page_id = Some(n.leftmost_child());
                },
                BTreeNode::Leaf(_) => {
                    self.descending = false;
                    self.cursor.curr_slot_idx = 0;
                },
            }
            return Ok(());
        }
        if let BTreeNode::Internal(_) = node {
            return Err(
                DbError::CorruptPage(String::from_str("expected a leaf node during horizontal scan")),
            );
        }
        let mut buffer_block: Vec<u8> = Vec::new();
        match self.cursor.next(node, &mut buffer_block) {
            Err(e) => Err(e),
            Ok(IterStep::Loaded) => self.apply_record(catalog, &buffer_block),
            Ok(IterStep::Advanced) => {
                if self.cursor.is_exhausted() {
                    self.finish_table(catalog);
                }
                Ok(())
            },
        }
    }
}

/// The text of the error for a system table whose root page was allocated
/// under another id than the one reserved for it.
pub open spec fn misplaced_root_text(table: Seq<char>, expected: PageId, got: PageId) -> Seq<char> {
    "failed to allocate "@ + table + " at PageId "@ + ascii_chars(decimal_digits(expected.0 as nat))
        + ", got=PageId("@ + ascii_chars(decimal_digits(got.0 as nat)) + ")"@
}

/// Checks that the freshly allocated root page of the system table `table`
/// received the id reserved for it.
pub fn expect_system_page(got: PageId, expected: PageId, table: &str) -> (r: Result<(), DbError>)
    ensures
        r is Ok <==> got == expected,
        r matches Err(e) ==> (e matches DbError::CorruptPage(msg) && msg@ == misplaced_root_text(
            table@,
            expected,
            got,
        )),
{
    if got.0 != expected.0 {
        let msg = String::from_str("failed to allocate ");
        let msg = msg.concat(table);
        let msg = msg.concat(" at PageId ");
        let msg = msg.concat(format_unsigned(expected.0).as_str());
        let msg = msg.concat(", got=PageId(");
        let msg = msg.concat(format_unsigned(got.0).as_str());
        let msg = msg.concat(")");
        return Err(DbError::CorruptPage(msg));
    }
    Ok(())
}

} // verus!
