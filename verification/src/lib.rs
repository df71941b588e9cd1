//! Decoding and dispatch for a custom-scheme media URL handler.
//!
//! A raw `handler://<plugin>/<target>?<options>` argument is decoded into a
//! request, the request is combined with the user's configuration into the
//! command line of an external player, and the outcome of launching that
//! player is folded back into the error taxonomy.  Everything here is a pure
//! function on bytes; reading arguments, loading the configuration and
//! starting the process belong to the caller.

pub mod cli;
pub mod config;
pub mod error;
pub mod invoker;
pub mod options;
pub mod percent;
pub mod plugins;
pub mod protocol;
pub mod scan;
