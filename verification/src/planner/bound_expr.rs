use vstd::prelude::*;

use crate::relation::types::{DataType, Value};
use crate::sql::ast::BinaryOperator;

verus! {

/// A BoundExpression represents a Sql Expression that has been fully validated
/// against the database catalog.
///
/// Unlike a raw AST expression, a `BoundExpr` has resolved all identifiers
/// (like column names) into exact physical offsets, and has verified that all
/// data types are compatible.
#[derive(Debug, PartialEq)]
pub enum BoundExpr {
    /// A column reference to an index offset within a `Tuple`.
    ColumnRef {
        /// The physical index of the column in the tuple's value array.
        col_idx: usize,
        /// The verified data type of the column.
        data_type: DataType,
    },
    /// A literal value directly parsed from the query.
    Constant(Value),
    /// A binary operation, stored after parsing the query and validating it
    /// against the schema.
    BinaryOp { left: Box<BoundExpr>, op: BinaryOperator, right: Box<BoundExpr> },
}

impl Clone for BoundExpr {
    fn clone(&self) -> (r: Self)
        decreases self,
    {
        match self {
            BoundExpr::ColumnRef { col_idx, data_type } => BoundExpr::ColumnRef {
                col_idx: *col_idx,
                data_type: *data_type,
            },
            BoundExpr::Constant(v) => BoundExpr::Constant(v.clone()),
            BoundExpr::BinaryOp { left, op, right } => BoundExpr::BinaryOp {
                left: Box::new((**left).clone()),
                op: *op,
                right: Box::new((**right).clone()),
            },
        }
    }
}

} // verus!
