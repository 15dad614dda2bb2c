pub mod argument;
pub mod calendar;
pub mod configure;
pub mod elephant_log;
pub mod subcommand;
pub mod zfs;
