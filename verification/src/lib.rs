pub mod auth;
pub mod config;
pub mod find;
pub mod names;
pub mod net;
pub mod proto;
pub mod report;
pub mod sfu;
pub mod signal;
pub mod text;
