use vstd::prelude::*;

use crate::relation::types::DataType;

verus! {

/// One column of a table: its name, its data type and, for variable-length
/// types, its declared maximum length.
#[derive(Debug)]
pub struct Column {
    pub name: String,
    pub data_type: DataType,
    pub length: Option<u32>,
}

/// The mathematical model of a [`Column`].
pub struct ColumnView {
    pub name: Seq<char>,
    pub data_type: DataType,
    pub length: Option<u32>,
}

impl View for Column {
    type V = ColumnView;

    open spec fn view(&self) -> ColumnView {
        ColumnView { name: self.name@, data_type: self.data_type, length: self.length }
    }
}

impl Column {
    /// Creates a column named `name`.
    pub fn new(name: &str, data_type: DataType, length: Option<u32>) -> (c: Column)
        ensures
            c@ == (ColumnView { name: name@, data_type, length }),
    {
        Column { name: String::from_str(name), data_type, length }
    }

    /// Returns a copy of this column.
    pub fn duplicate(&self) -> (c: Column)
        ensures
            c@ == self@,
    {
        Column { name: self.name.clone(), data_type: self.data_type, length: self.length }
    }
}

/// The logical layout of a table: its columns in order.
#[derive(Debug)]
pub struct Schema {
    pub columns: Vec<Column>,
}

impl View for Schema {
    type V = Seq<ColumnView>;

    open spec fn view(&self) -> Seq<ColumnView> {
        self.columns@.map_values(|c: Column| c@)
    }
}

impl Schema {
    /// Creates a schema with the given columns.
    pub fn new(columns: Vec<Column>) -> (s: Schema)
        ensures
            s.columns == columns,
            s@ == columns@.map_values(|c: Column| c@),
    {
        Schema { columns }
    }

    /// Returns a copy of this schema.
    pub fn duplicate(&self) -> (s: Schema)
        ensures
            s@ == self@,
    {
        let mut columns: Vec<Column> = Vec::new();
        let mut i: usize = 0;
        while i < self.columns.len()
            invariant
                i <= self.columns.len(),
                columns@.len() == i,
                forall|j: int| 0 <= j < i ==> #[trigger] columns@[j]@ == self.columns@[j]@,
            decreases self.columns.len() - i,
        {
            columns.push(self.columns[i].duplicate());
            i = i + 1;
        }
        let s = Schema { columns };
        assert(s@ =~= self@);
        s
    }
}

} // verus!
