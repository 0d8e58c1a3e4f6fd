use vstd::prelude::*;

verus! {

/// The keywords and symbols the front-end of the database recognises and
/// consequently supports.
#[derive(Debug, Clone, PartialEq)]
pub enum Token {
    // Keywords
    Select,
    Insert,
    Into,
    Values,
    Update,
    /// The `SET` keyword.
    SetKeyword,
    Delete,
    From,
    Where,
    And,
    Or,
    Create,
    Table,
    Database,
    Use,
    Show,
    Index,
    Unique,
    // Data types
    BigIntType,
    IntType,
    BooleanType,
    VarcharType,
    // Identifiers and literals
    StringLit(String),
    Ident(String),
    IntLit(i64),
    BoolLit(bool),
    // Symbols and operators
    Asterisk,
    Comma,
    LParen,
    RParen,
    Eq,
    Neq,
    Gt,
    Lt,
    /// `>=`
    Gte,
    /// `<=`
    Lte,
    Semicolon,
    /// End of the input stream.
    Eof,
}

} // verus!
