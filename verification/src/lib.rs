pub mod commands;
pub mod date;
pub mod error;
pub mod gtd;
pub mod markdown;
pub mod roundtrip;
pub mod text;
