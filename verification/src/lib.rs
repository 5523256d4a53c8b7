use vstd::prelude::*;

pub mod text;
pub mod cli_parser;
pub mod mdx_reference;
pub mod sidebar;
pub mod skeleton;
pub mod scope;
pub mod ts_helpers;
pub mod traits;
pub mod react;
pub mod generator;
pub mod intelligence;
pub mod registry;
pub mod mdx;
pub mod rafters_source;
pub mod coverage;
pub mod conventions;
pub mod mode;
pub mod config_interface;
pub mod matrix;
pub mod artifact;
pub mod server;
pub mod veneer_config;
pub mod local_registry;
pub mod inline;
pub mod tokens;
pub mod substrate;

verus! {
} // verus!
pub mod ts_syntax;
pub mod ts_read;
