//! Hermetic build-script support: the configuration probe parser, the
//! build-script directive protocol, environment reconstruction for the
//! build-script process, and static resolution of cfg-gated dependencies.

pub mod text;
pub mod cfg_probe;
pub mod cfg_eval;
pub mod select;
pub mod deps;
pub mod names;
pub mod env_map;
pub mod script_env;
pub mod directives;
pub mod args;
