pub mod laws;
pub mod list;
