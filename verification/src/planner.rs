pub mod bound_expr;
