pub mod little_endian;
pub mod schema;
pub mod tuple;
pub mod types;
