//! A configuration-driven command launcher's core, with verified logic: a
//! declarative file maps named applications to named actions, each bound to
//! a shell command; patterns select a set of `(application, action)`
//! targets; each target's invocation string, working directory and log path
//! are built and validated; the outcomes of a concurrent dispatch round are
//! aggregated into a summary and a process exit code.  Spawning, file and
//! terminal I/O live outside this crate and hand plain values in and out.

pub mod command;
pub mod config;
pub mod logger;
pub mod matcher;
pub mod menu;
pub mod outcome;
pub mod resolve;
pub mod strutil;
