//! The shrine operations behind the command-line subcommands.
pub mod config;
pub mod init;
