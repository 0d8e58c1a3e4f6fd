pub mod buffer_pool;
pub mod lru;
pub mod page;
