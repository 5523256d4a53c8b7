//! The optional `veneer.json` at a consumer project root: the project's
//! input declarations to veneer. Absence yields working defaults; a
//! declared version other than the one this build reads is refused.

use vstd::prelude::*;
use vstd::string::*;
use crate::text::{decimal, owned, push_decimal, push_str};

verus! {

/// Schema version this build reads.
pub const VENEER_CONFIG_VERSION: u32 = 1;

/// Parsed `veneer.json`. Every field beyond `version` is optional.
#[derive(Debug, Clone, PartialEq, Eq)]
pub struct VeneerConfig {
    /// Declared schema version; must equal [`VENEER_CONFIG_VERSION`].
    pub version: u32,
    /// Output directory override for serialized pages. `None` = the
    /// built-in default (`docs`).
    pub output_dir: Option<String>,
    /// Declared reporter artifact paths.
    pub reporters: Option<Reporters>,
}

/// Reporter artifact paths the project declares, relative to its root.
#[derive(Debug, Clone, PartialEq, Eq)]
pub struct Reporters {
    /// Machine-readable test reporter outputs.
    pub tests: Vec<String>,
    /// Accessibility reporter outputs.
    pub accessibility: Vec<String>,
}

impl Default for VeneerConfig {
    /// What an absent file means: the current version and nothing declared.
    fn default() -> (r: Self)
        ensures
            r.version == VENEER_CONFIG_VERSION,
            r.output_dir is None,
            r.reporters is None,
    {
        VeneerConfig { version: VENEER_CONFIG_VERSION, output_dir: None, reporters: None }
    }
}

impl VeneerConfig {
    /// The effective pages output directory: the declared override or the
    /// built-in default.
    pub fn output_dir(&self) -> (r: String)
        ensures
            r@ == (match self.output_dir {
                Some(d) => d@,
                None => "docs"@,
            }),
    {
        match &self.output_dir {
            Some(d) => owned(d.as_str()),
            None => owned("docs"),
        }
    }
}

/// The refusal of a parsed config whose version this build does not read.
pub open spec fn version_refusal(path: Seq<char>, version: u32) -> Seq<char> {
    "invalid "@ + path + ": version "@ + decimal(version as nat) + " is not supported (this veneer reads version 1)"@
}

/// Accept a parsed `veneer.json` of the version this build reads; refuse
/// any other, naming the file and the declared version.
pub fn check_version(path: &str, config: VeneerConfig) -> (r: Result<VeneerConfig, String>)
    ensures
        config.version == VENEER_CONFIG_VERSION ==> r == Ok::<VeneerConfig, String>(config),
        config.version != VENEER_CONFIG_VERSION ==> (r matches Err(m) && m@ == version_refusal(path@, config.version)),
{
    if config.version == VENEER_CONFIG_VERSION {
        Ok(config)
    } else {
        let mut m = owned("invalid ");
        push_str(&mut m, path);
        push_str(&mut m, ": version ");
        push_decimal(&mut m, config.version as u64);
        push_str(&mut m, " is not supported (this veneer reads version 1)");
        Err(m)
    }
}

} // verus!
