pub mod config;
pub mod json;
pub mod record;
pub mod router;
pub mod store;
