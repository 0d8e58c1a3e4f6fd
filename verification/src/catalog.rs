pub mod loading;
pub mod manager;

use vstd::prelude::*;

use crate::relation::schema::{Column, ColumnView, Schema};
use crate::relation::types::DataType;

verus! {

/// The columns of the `sys_pages` catalog table: each table's name, the root
/// page of its B+-tree, and the row id it last inserted.
pub open spec fn sys_pages_columns() -> Seq<ColumnView> {
    seq![
        ColumnView { name: "table_name"@, data_type: DataType::Varchar, length: Some(255u32) },
        ColumnView { name: "root_page_id"@, data_type: DataType::BigInt, length: None },
        ColumnView { name: "last_row_id"@, data_type: DataType::BigInt, length: None },
    ]
}

/// The columns of the `sys_schema` catalog table.
pub open spec fn sys_schema_columns() -> Seq<ColumnView> {
    seq![
        ColumnView { name: "table_name"@, data_type: DataType::Varchar, length: Some(255u32) },
        ColumnView { name: "field_name"@, data_type: DataType::Varchar, length: Some(255u32) },
        ColumnView { name: "field_type"@, data_type: DataType::Int, length: None },
        ColumnView { name: "field_length"@, data_type: DataType::Int, length: None },
    ]
}

/// Generates the hardcoded schema for the `sys_pages` catalog.
/// This tracks the `root_page_id` for every table in the database and also keeps
/// track of the last inserted row_id.
pub fn sys_pages_schema() -> (s: Schema)
    ensures
        s@ == sys_pages_columns(),
{
    let mut columns: Vec<Column> = Vec::new();
    columns.push(Column::new("table_name", DataType::Varchar, Some(255)));
    columns.push(Column::new("root_page_id", DataType::BigInt, None));
    columns.push(Column::new("last_row_id", DataType::BigInt, None));
    let s = Schema::new(columns);
    assert(s@ =~= sys_pages_columns());
    s
}

/// Generates the hardcoded schema for `sys_schema` catalog.
/// This tracks the columns layout for every user-created table.
pub fn sys_schema_schema() -> (s: Schema)
    ensures
        s@ == sys_schema_columns(),
{
    let mut columns: Vec<Column> = Vec::new();
    columns.push(Column::new("table_name", DataType::Varchar, Some(255)));
    columns.push(Column::new("field_name", DataType::Varchar, Some(255)));
    columns.push(Column::new("field_type", DataType::Int, None));
    columns.push(Column::new("field_length", DataType::Int, None));
    let s = Schema::new(columns);
    assert(s@ =~= sys_schema_columns());
    s
}

} // verus!
