//! Building a crate: the toolchain command line, where the binary is found, and
//! the name of the resulting artifact.

use vstd::prelude::*;

use crate::dependencies::{check_auditable, props_view, tool_enabled, DependenciesConfig};
use crate::paths::{join, join_path};

verus! {

/// Relies on `iso8601_timestamp::Timestamp::now_utc` and its `Display`: the current
/// time as ISO 8601 text. Only that the text is not empty is stated, as the rest
/// depends on the clock.
#[verifier::external_body]
fn timestamp_now() -> (r: String)
    ensures
        r@.len() > 0,
{
    iso8601_timestamp::Timestamp::now_utc().to_string()
}

/// The arguments of `cargo` that build a crate in release mode, through
/// `cargo auditable` when `auditable` holds.
pub open spec fn build_args(auditable: bool, crate_path: Seq<char>) -> Seq<Seq<char>> {
    let tail = seq![
        "build"@,
        "--manifest-path"@,
        join_path(crate_path, "Cargo.toml"@),
        "--release"@,
    ];
    if auditable {
        seq!["auditable"@] + tail
    } else {
        tail
    }
}

/// The arguments of `cargo` that build the crate at `crate_path`: a release build
/// of its manifest, wrapped by `cargo auditable` when that tool is enabled.
pub fn create_build_command(config: &DependenciesConfig, crate_path: &str) -> (r: Vec<String>)
    ensures
        r@.map_values(|s: String| s@) == build_args(
            tool_enabled(props_view(config.properties@), "cargo-auditable"@),
            crate_path@,
        ),
{
    let auditable = check_auditable(config);
    let mut args: Vec<String> = Vec::new();
    if auditable {
        args.push("auditable".to_owned());
    }
    args.push("build".to_owned());
    args.push("--manifest-path".to_owned());
    args.push(join(crate_path, "Cargo.toml"));
    args.push("--release".to_owned());
    proof {
        assert(args@.map_values(|s: String| s@) =~= build_args(auditable, crate_path@));
    }
    args
}

/// Where the release binary of a crate is expected: `target/release/<name>` in the
/// crate's directory.
pub open spec fn binary_path(crate_path: Seq<char>, name: Seq<char>) -> Seq<char> {
    join_path(join_path(join_path(crate_path, "target"@), "release"@), name)
}

/// The expected path of a crate's release binary.
pub fn release_binary_path(crate_path: &str, name: &str) -> (r: String)
    ensures
        r@ == binary_path(crate_path@, name@),
{
    let target = join(crate_path, "target");
    let release = join(target.as_str(), "release");
    join(release.as_str(), name)
}

/// The name of an artifact: crate name, version and build time, joined by `-`.
pub open spec fn artifact_name_spec(name: Seq<char>, version: Seq<char>, timestamp: Seq<char>) -> Seq<
    char,
> {
    name + "-"@ + version + "-"@ + timestamp
}

/// The name of the artifact built from a crate at a given time.
pub fn artifact_name(name: &str, version: &str, timestamp: &str) -> (r: String)
    ensures
        r@ == artifact_name_spec(name@, version@, timestamp@),
{
    name.to_owned().concat("-").concat(version).concat("-").concat(timestamp)
}

/// The name of the artifact built from a crate now.
pub fn stamped_artifact_name(name: &str, version: &str) -> (r: String)
    ensures
        exists|t: Seq<char>| t.len() > 0 && r@ == artifact_name_spec(name@, version@, t),
{
    let timestamp = timestamp_now();
    artifact_name(name, version, timestamp.as_str())
}

/// Whether the toolchain finished with exit code 0.
pub fn build_succeeded(exit_code: Option<i32>) -> (r: bool)
    ensures
        r == (exit_code == Some(0i32)),
{
    match exit_code {
        Some(code) => code == 0,
        None => false,
    }
}

} // verus!
