//! The decisions of the supervisor's background tasks.
pub mod cron;
pub mod resources;
pub mod retention;
pub mod watch;
