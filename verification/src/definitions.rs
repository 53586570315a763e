//! Plain classification data for the managed software: what kind of
//! software an entity is and which format its configuration uses.

use vstd::prelude::*;

verus! {

/// The kind of software an entity is.
#[derive(Clone, Copy, Debug, PartialEq, Eq, Structural)]
pub enum SoftwareCategory {
    Shell,
    Editor,
    Terminal,
    Vcs,
    PackageManager,
    Tools,
}

/// The format an entity's configuration file uses.
#[derive(Clone, Copy, Debug, PartialEq, Eq, Structural)]
pub enum ConfigFormat {
    Plain,
    Json,
    Yaml,
    Toml,
    Ini,
    Custom,
}

/// The payload of a configuration read: the file's raw text.
pub struct ConfigContent {
    pub content: String,
}

impl ConfigContent {
    /// Wraps raw configuration text.
    pub fn new(content: String) -> (r: Self)
        ensures
            r.content@ == content@,
    {
        ConfigContent { content }
    }
}

} // verus!
