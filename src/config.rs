//! The configuration of a run, as the library sees it once read.

use vstd::prelude::*;

use crate::dependencies::DependenciesConfig;
use crate::paths::{join, join_path, path_binaries, path_sources};
use crate::sources::Dependency;

verus! {

/// The largest configuration file, in bytes, that is read.
pub const MAX_CONFIG_BYTES: u64 = 10_000_000;

/// Global options of a run.
#[derive(Debug, Clone)]
pub struct OptionsConfig {
    /// The architectures all crates are built for.
    pub architectures: Vec<String>,
    /// The directory under which sources are unpacked and artifacts written.
    pub workspace_path: String,
    /// The base64 public key that verifies the signatures.
    pub verifying_key: String,
    /// The secret signing key, when the command line gives none.
    pub signing_key: Option<String>,
    /// Whether a crate's sources are removed once it is built.
    pub autodelete_sources: bool,
}

/// The configuration of a run.
#[derive(Debug, Clone)]
pub struct ConfigFile {
    /// The crates to build and sign, by name.
    pub crates: Vec<(String, Dependency)>,
    pub options: OptionsConfig,
    /// The auxiliary tools, which the user can switch on and off.
    pub dependencies: DependenciesConfig,
}

impl ConfigFile {
    /// Each crate and each tool is configured once, as the keys of the tables they
    /// are read from.
    pub open spec fn wf(&self) -> bool {
        &&& forall|i: int, j: int|
            0 <= i < j < self.crates@.len() ==> #[trigger] self.crates@[i].0@
                != #[trigger] self.crates@[j].0@
        &&& self.dependencies.wf()
    }
}

/// Whether a configuration file of this size is read; larger ones are refused.
pub fn config_size_ok(size: u64) -> (r: bool)
    ensures
        r == (size <= MAX_CONFIG_BYTES),
{
    size <= MAX_CONFIG_BYTES
}

/// The directory holding the sources of the crates to build.
pub fn build_dir(config: &ConfigFile) -> (r: String)
    ensures
        r@ == join_path(config.options.workspace_path@, "build/"@),
{
    path_sources(config.options.workspace_path.as_str())
}

/// The directory receiving the packaged artifacts.
pub fn artifact_dir(config: &ConfigFile) -> (r: String)
    ensures
        r@ == join_path(config.options.workspace_path@, "artifacts/"@),
{
    path_binaries(config.options.workspace_path.as_str())
}

/// The directory a fetched crate is unpacked into: the crate's name under the
/// workspace's `build` directory.
pub fn unpack_destination(workspace_path: &str, crate_name: &str) -> (r: String)
    ensures
        r@ == join_path(join_path(workspace_path@, "build"@), crate_name@),
{
    let build = join(workspace_path, "build");
    join(build.as_str(), crate_name)
}

} // verus!
