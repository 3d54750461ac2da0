//! The configuration lifecycle decision: first-run bootstrap, fatal load
//! error, or steady-state start. The embedding observes the filesystem and
//! performs the exit; every decision is made here.

use vstd::prelude::*;

use crate::config::{
    debug_view, default_view, parse_config, render, render_config, spec_parse, Config,
};

verus! {

/// How a process start resolves.
pub enum Boot {
    /// First run: the configuration directory was absent. The embedding
    /// creates the directory, writes exactly `config_file`, tells the
    /// operator to edit it, and exits with status 0 — a deliberate one-shot
    /// bootstrap, not an error. The server is not started.
    FirstRun { config_file: Vec<u8> },
    /// The configuration file could not be read or parsed: the embedding
    /// reports it and exits with a nonzero status. The server never starts
    /// from a partially loaded configuration.
    Fatal,
    /// Steady state: the server starts, bound to `config`'s port, and the
    /// configuration file on disk is left untouched.
    Ready { config: Config },
}

/// Resolves the active configuration from what the embedding observed:
/// whether the configuration directory exists, and the bytes of the
/// configuration file if it could be read. In debug mode the fixed built-in
/// configuration is used and disk is never consulted.
pub fn resolve(debug_mode: bool, dir_exists: bool, file: Option<Vec<u8>>) -> (r: Boot)
    ensures
        r matches Boot::Ready { config } ==> config@.wf(),
        debug_mode ==> (r matches Boot::Ready { config } && config@ == debug_view()),
        !debug_mode && !dir_exists ==> (r matches Boot::FirstRun { config_file } && config_file@
            == render(default_view())),
        !debug_mode && dir_exists ==> match file {
            None => r is Fatal,
            Some(s) => match spec_parse(s@) {
                Some(v) => (r matches Boot::Ready { config } && config@ == v),
                None => r is Fatal,
            },
        },
{
    if debug_mode {
        return Boot::Ready { config: Config::debug_config() };
    }
    if !dir_exists {
        let c = Config::default_config();
        return Boot::FirstRun { config_file: render_config(&c) };
    }
    match file {
        None => Boot::Fatal,
        Some(s) => match parse_config(&s) {
            Ok(c) => Boot::Ready { config: c },
            Err(_) => Boot::Fatal,
        },
    }
}

/// The process exit the embedding owes a boot outcome: status 0 after the
/// first-run bootstrap, a nonzero status on a fatal error, and none at all
/// when the server is to run.
pub fn exit_status(b: &Boot) -> (r: Option<u8>)
    ensures
        match b {
            Boot::FirstRun { .. } => r == Some(0u8),
            Boot::Fatal => r == Some(1u8),
            Boot::Ready { .. } => r is None,
        },
{
    match b {
        Boot::FirstRun { .. } => Some(0),
        Boot::Fatal => Some(1),
        Boot::Ready { .. } => None,
    }
}

} // verus!
