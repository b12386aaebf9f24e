pub mod fb;
pub mod lru;
