use vstd::prelude::*;

use crate::error::DbError;
use crate::relation::types::{Value, ValueView};

verus! {

/// What a filter does with a tuple once its predicate has been evaluated.
#[derive(Debug, Clone, Copy, PartialEq, Eq, Structural)]
pub enum FilterVerdict {
    /// The predicate held: the tuple is passed on.
    Emit,
    /// The predicate was false or NULL: the tuple is dropped and the next one
    /// pulled from the child.
    Skip,
}

/// Decides, from the value a WHERE predicate evaluated to, whether the tuple
/// passes the filter. Only booleans and NULL are valid predicate results; any
/// other value is a `SyntaxErr`.
pub fn filter_verdict(eval_res: &Value) -> (r: Result<FilterVerdict, DbError>)
    ensures
        match eval_res@ {
            ValueView::Boolean(true) => r == Ok::<FilterVerdict, DbError>(FilterVerdict::Emit),
            ValueView::Boolean(false) | ValueView::Null => r == Ok::<FilterVerdict, DbError>(
                FilterVerdict::Skip,
            ),
            _ => r matches Err(DbError::SyntaxErr(msg)) && msg@
                == "WHERE clause predicate must evaluate to a boolean"@,
        },
{
    match eval_res {
        Value::Boolean(false) | Value::Null => Ok(FilterVerdict::Skip),
        Value::Boolean(true) => Ok(FilterVerdict::Emit),
        _ => Err(
            DbError::SyntaxErr(
                String::from_str("WHERE clause predicate must evaluate to a boolean"),
            ),
        ),
    }
}

} // verus!
