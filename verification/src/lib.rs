//! Termina's core: the registry of shell commands, the state of the processes
//! that run them, their log buffers, health and exit records, and the text
//! formats that the command line client and the local socket speak.

pub mod cli;
pub mod config;
pub mod ids;
pub mod ports;
pub mod process;
pub mod protocol;
pub mod table;
pub mod text;
pub mod tray;
pub mod types;
pub mod state;
