//! Lark, through its command line tool.
pub mod cli;
pub mod contact;
