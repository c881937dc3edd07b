//! What a signaling socket says and what it is told.
pub mod session;
