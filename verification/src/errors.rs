//! The error taxonomy of the engine.
//!
//! Every stage fails fast: the first fatal error aborts the whole run, and
//! nothing already written to disk is rolled back.

use vstd::prelude::*;

verus! {

/// A fatal condition that aborts the run.
#[derive(Debug, PartialEq)]
pub enum LocalizeError {
    /// The project path or configuration was unusable.
    Configuration(String),
    /// The resolver produced no usable resolution data.
    Resolution(String),
    /// No cache root holds the required `{name}-{version}` directory.
    Locate { name: String, version: String },
    /// Copying a located source tree into the vendor root failed.
    Copy(String),
    /// Reading, rewriting or writing a manifest failed.
    Manifest(String),
}

impl LocalizeError {
    /// The stage-labeled text of the error.
    pub open spec fn spec_message(&self) -> Seq<char> {
        match self {
            LocalizeError::Configuration(d) => "invalid project configuration: "@ + d@,
            LocalizeError::Resolution(d) => "no resolution data: "@ + d@,
            LocalizeError::Locate { name, version } => "crate not found in any cache root: "@
                + name@ + "-"@ + version@,
            LocalizeError::Copy(d) => "failed to copy dependency sources: "@ + d@,
            LocalizeError::Manifest(d) => "failed to rewrite manifest: "@ + d@,
        }
    }

    /// Renders the error as a stage-labeled message.
    pub fn message(&self) -> (r: String)
        ensures
            r@ == self.spec_message(),
    {
        match self {
            LocalizeError::Configuration(d) => {
                let mut s = "invalid project configuration: ".to_owned();
                s.append(d.as_str());
                s
            },
            LocalizeError::Resolution(d) => {
                let mut s = "no resolution data: ".to_owned();
                s.append(d.as_str());
                s
            },
            LocalizeError::Locate { name, version } => {
                let mut s = "crate not found in any cache root: ".to_owned();
                s.append(name.as_str());
                s.append("-");
                s.append(version.as_str());
                s
            },
            LocalizeError::Copy(d) => {
                let mut s = "failed to copy dependency sources: ".to_owned();
                s.append(d.as_str());
                s
            },
            LocalizeError::Manifest(d) => {
                let mut s = "failed to rewrite manifest: ".to_owned();
                s.append(d.as_str());
                s
            },
        }
    }
}

} // verus!
