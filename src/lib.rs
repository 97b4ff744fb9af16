pub mod cors;
pub mod handlers;
pub mod models;
pub mod laws;
