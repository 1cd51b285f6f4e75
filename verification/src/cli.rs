//! The package information shown by the command-line help.

use vstd::prelude::*;

verus! {

/// The package information shown by the command-line help: name, version,
/// description, build time, license and authors.
pub struct WenfoxCliMessage {
    pub version: &'static str,
    pub name: &'static str,
    pub description: &'static str,
    pub build_time: &'static str,
    pub license: &'static str,
    pub author: &'static str,
}

} // verus!
