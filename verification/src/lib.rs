pub mod args;
pub mod dec;
pub mod schedule;
