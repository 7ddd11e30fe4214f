pub mod bundle;
pub mod lz4inv;
pub mod extract;
