//! What the commands show and decide.
pub mod daemons;
pub mod follow;
pub mod json_output;
pub mod list;
pub mod logs;
pub mod namespace;
pub mod proxy;
pub mod settings;
pub mod startup;
pub mod time_input;
