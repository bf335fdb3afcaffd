//! Decisions and encodings behind the `win-make-ro` helper and its Explorer
//! context-menu extension: command-line parsing and re-encoding, argument
//! quoting, menu planning, the COM module's lifetime counters, target
//! ordering and the reinstall bookkeeping. The Win32 calls themselves live in
//! the application crate around this library.

pub mod units;
pub mod command;
pub mod args;
pub mod quote;
pub mod menu;
pub mod paths_list;
pub mod launch;
pub mod order;
pub mod com;
pub mod report;
pub mod reinstall;
pub mod explorer;
pub mod swap;


pub mod flow;

pub use command::Command;
