pub mod filesystem;
pub mod snapshot;
