pub mod filter;
pub mod iterator;
