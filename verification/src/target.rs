//! The package and binary target a generated tooling entry probes, read from the invoker's
//! environment.
//!
//! Every variable is required: it must be set, be valid Unicode and hold more than white
//! space. The manifest path must also be absolute. Reading the environment, and deciding
//! whether a path is absolute on the host platform, is left to the caller.
use vstd::prelude::*;

use crate::text::{concat3, is_blank, is_blank_spec, owned};

verus! {

/// What reading one environment variable observed.
pub enum EnvObservation {
    /// The variable is not set.
    Missing,
    /// The variable is set but is not valid Unicode.
    NotUnicode,
    /// The variable's value.
    Value(String),
}

/// A typed failure while resolving the probed target.
pub enum ToolingProbeTargetError {
    /// A required environment variable is absent.
    MissingEnvironment { name: String },
    /// An environment variable is not valid Unicode.
    InvalidEnvironment { name: String },
    /// An environment variable is empty or contains only white space.
    EmptyEnvironment { name: String },
    /// The manifest path is not an absolute path.
    RelativeManifestPath,
}

/// The displayed text of a target error.
pub open spec fn target_error_message(e: ToolingProbeTargetError) -> Seq<char> {
    match e {
        ToolingProbeTargetError::MissingEnvironment { name } =>
            "required tooling probe environment variable '"@ + name@ + "' is not set"@,
        ToolingProbeTargetError::InvalidEnvironment { name } =>
            "tooling probe environment variable '"@ + name@ + "' is not valid Unicode"@,
        ToolingProbeTargetError::EmptyEnvironment { name } =>
            "tooling probe environment variable '"@ + name@ + "' is empty"@,
        ToolingProbeTargetError::RelativeManifestPath =>
            "tooling probe manifest path must be absolute"@,
    }
}

impl ToolingProbeTargetError {
    /// The displayed text of this error.
    pub fn message(&self) -> (r: String)
        ensures
            r@ == target_error_message(*self),
    {
        match self {
            ToolingProbeTargetError::MissingEnvironment { name } => concat3(
                "required tooling probe environment variable '",
                name.as_str(),
                "' is not set",
            ),
            ToolingProbeTargetError::InvalidEnvironment { name } => concat3(
                "tooling probe environment variable '",
                name.as_str(),
                "' is not valid Unicode",
            ),
            ToolingProbeTargetError::EmptyEnvironment { name } => concat3(
                "tooling probe environment variable '",
                name.as_str(),
                "' is empty",
            ),
            ToolingProbeTargetError::RelativeManifestPath => owned(
                "tooling probe manifest path must be absolute",
            ),
        }
    }
}

/// The variable `name` as a required value: set, Unicode, and not blank.
pub open spec fn required_spec(name: Seq<char>, observed: EnvObservation) -> Result<
    Seq<char>,
    (int, Seq<char>),
> {
    match observed {
        EnvObservation::Missing => Err((0, name)),
        EnvObservation::NotUnicode => Err((1, name)),
        EnvObservation::Value(v) => if is_blank_spec(v@) {
            Err((2, name))
        } else {
            Ok(v@)
        },
    }
}

/// The error of a required variable, as its kind and variable name.
pub open spec fn error_view(e: ToolingProbeTargetError) -> (int, Seq<char>) {
    match e {
        ToolingProbeTargetError::MissingEnvironment { name } => (0, name@),
        ToolingProbeTargetError::InvalidEnvironment { name } => (1, name@),
        ToolingProbeTargetError::EmptyEnvironment { name } => (2, name@),
        ToolingProbeTargetError::RelativeManifestPath => (3, Seq::empty()),
    }
}

/// Reads one required variable: an absent one, a non-Unicode one and one holding only white
/// space are each refused with the variable's name.
pub fn required_env(name: &str, observed: EnvObservation) -> (r: Result<
    String,
    ToolingProbeTargetError,
>)
    ensures
        match (r, required_spec(name@, observed)) {
            (Ok(s), Ok(v)) => s@ == v,
            (Err(e), Err(v)) => error_view(e) == v,
            _ => false,
        },
{
    match observed {
        EnvObservation::Missing => Err(ToolingProbeTargetError::MissingEnvironment { name: owned(name) }),
        EnvObservation::NotUnicode => Err(
            ToolingProbeTargetError::InvalidEnvironment { name: owned(name) },
        ),
        EnvObservation::Value(value) => if is_blank(value.as_str()) {
            Err(ToolingProbeTargetError::EmptyEnvironment { name: owned(name) })
        } else {
            Ok(value)
        },
    }
}

/// One environment variable: its name and what reading it observed.
pub struct EnvVar {
    pub name: String,
    pub observed: EnvObservation,
}

/// The identity of the probed package and binary target.
pub struct ProbeTargetIdentity {
    pub package_name: String,
    pub package_version: String,
    pub manifest_path: String,
    pub binary_name: String,
}

/// The outcome of resolving the probed target, by the values read: the package name, version
/// and manifest path in turn, then the manifest path's absoluteness, then the binary name; the
/// first failure wins.
pub open spec fn identity_spec(
    package_name: EnvVar,
    package_version: EnvVar,
    manifest_path: EnvVar,
    manifest_is_absolute: bool,
    binary_name: EnvVar,
) -> Result<Seq<Seq<char>>, (int, Seq<char>)> {
    match required_spec(package_name.name@, package_name.observed) {
        Err(e) => Err(e),
        Ok(n) => match required_spec(package_version.name@, package_version.observed) {
            Err(e) => Err(e),
            Ok(v) => match required_spec(manifest_path.name@, manifest_path.observed) {
                Err(e) => Err(e),
                Ok(m) => if !manifest_is_absolute {
                    Err((3, Seq::empty()))
                } else {
                    match required_spec(binary_name.name@, binary_name.observed) {
                        Err(e) => Err(e),
                        Ok(b) => Ok(seq![n, v, m, b]),
                    }
                },
            },
        },
    }
}

/// The values an identity holds, in order.
pub open spec fn identity_view(t: ProbeTargetIdentity) -> Seq<Seq<char>> {
    seq![t.package_name@, t.package_version@, t.manifest_path@, t.binary_name@]
}

/// Resolves the probed target from the invoker's variables; `manifest_is_absolute` tells
/// whether the manifest path's value is an absolute path on this platform.
pub fn probe_target_identity(
    package_name: EnvVar,
    package_version: EnvVar,
    manifest_path: EnvVar,
    manifest_is_absolute: bool,
    binary_name: EnvVar,
) -> (r: Result<ProbeTargetIdentity, ToolingProbeTargetError>)
    ensures
        match (r, identity_spec(
            package_name,
            package_version,
            manifest_path,
            manifest_is_absolute,
            binary_name,
        )) {
            (Ok(t), Ok(vs)) => identity_view(t) == vs,
            (Err(e), Err(v)) => error_view(e) == v,
            _ => false,
        },
{
    let package = required_env(package_name.name.as_str(), package_name.observed)?;
    let version = required_env(package_version.name.as_str(), package_version.observed)?;
    let manifest = required_env(manifest_path.name.as_str(), manifest_path.observed)?;
    if !manifest_is_absolute {
        return Err(ToolingProbeTargetError::RelativeManifestPath);
    }
    let binary = required_env(binary_name.name.as_str(), binary_name.observed)?;
    let t = ProbeTargetIdentity {
        package_name: package,
        package_version: version,
        manifest_path: manifest,
        binary_name: binary,
    };
    proof {
        assert(identity_view(t) =~= seq![t.package_name@, t.package_version@, t.manifest_path@, t.binary_name@]);
    }
    Ok(t)
}

} // verus!
