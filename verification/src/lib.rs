//! The decision core of a small interactive shell: splitting a line into
//! words, expanding aliases, planning commands and tracking the exit status.
//! Everything here works on plain values; reading lines, touching files and
//! starting processes is left to the program built around it.

pub mod alias;
pub mod command;
pub mod completion;
pub mod session;
pub mod text;
