//! What the command-line harness works out, apart from reading and printing.

pub mod bench;
pub mod coverage;
pub mod devices;
pub mod expect;
pub mod live;
pub mod record;
