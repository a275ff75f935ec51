//! State and rules of a desktop chat window for one or more agents.
//!
//! Each agent is an independent subprocess that streams events; the window renders them and routes
//! the user's messages and permission decisions. The library holds everything that decides: which
//! agents a command line names, how an event changes the window, where a message goes, what each
//! panel shows. It reads no file and starts no process.

pub mod chat;
pub mod colour;
pub mod command;
pub mod complete;
pub mod config;
pub mod frame;
pub mod label;
pub mod launch;
pub mod personal;
pub mod protocol;
pub mod routing;
pub mod screen;
pub mod session;
pub mod text;
