//! What the web interface sends.
pub mod stats;
pub mod tail;
