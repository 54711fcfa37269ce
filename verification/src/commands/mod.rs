//! The decisions of the `gtd` subcommands, apart from the files and the
//! terminal they read and write.
pub mod add;
pub mod capture;
pub mod done;
pub mod edit;
pub mod list;
pub mod process;
pub mod project;
pub mod review;
pub mod search;
