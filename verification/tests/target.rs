use overseerd_tooling::target::{
    probe_target_identity, required_env, EnvObservation, EnvVar, ToolingProbeTargetError,
};

fn var(name: &str, value: &str) -> EnvVar {
    EnvVar { name: name.to_string(), observed: EnvObservation::Value(value.to_string()) }
}

#[test]
fn required_env_accepts_a_value() {
    let value = required_env("PKG", EnvObservation::Value("demo".to_string()));
    assert!(matches!(value, Ok(v) if v == "demo"));
}

#[test]
fn required_env_refuses_missing_non_unicode_and_blank_values() {
    let missing = required_env("PKG", EnvObservation::Missing).err().unwrap();
    assert_eq!(missing.message(), "required tooling probe environment variable 'PKG' is not set");
    let invalid = required_env("PKG", EnvObservation::NotUnicode).err().unwrap();
    assert_eq!(invalid.message(), "tooling probe environment variable 'PKG' is not valid Unicode");
    let blank = required_env("PKG", EnvObservation::Value(" \t\n".to_string())).err().unwrap();
    assert!(matches!(&blank, ToolingProbeTargetError::EmptyEnvironment { name } if name == "PKG"));
    assert_eq!(blank.message(), "tooling probe environment variable 'PKG' is empty");
}

#[test]
fn probe_target_identity_reads_every_variable() {
    let identity = probe_target_identity(
        var("NAME", "demo"),
        var("VERSION", "1.2.3"),
        var("MANIFEST", "/work/demo/Cargo.toml"),
        true,
        var("BINARY", "demo-cli"),
    )
    .ok()
    .unwrap();
    assert_eq!(identity.package_name, "demo");
    assert_eq!(identity.package_version, "1.2.3");
    assert_eq!(identity.manifest_path, "/work/demo/Cargo.toml");
    assert_eq!(identity.binary_name, "demo-cli");
}

#[test]
fn probe_target_identity_refuses_a_relative_manifest_before_reading_the_binary() {
    let error = probe_target_identity(
        var("NAME", "demo"),
        var("VERSION", "1.2.3"),
        var("MANIFEST", "Cargo.toml"),
        false,
        EnvVar { name: "BINARY".to_string(), observed: EnvObservation::Missing },
    )
    .err()
    .unwrap();
    assert!(matches!(error, ToolingProbeTargetError::RelativeManifestPath));
    assert_eq!(error.message(), "tooling probe manifest path must be absolute");
}

#[test]
fn probe_target_identity_reports_the_first_failing_variable() {
    let error = probe_target_identity(
        var("NAME", "demo"),
        EnvVar { name: "VERSION".to_string(), observed: EnvObservation::Missing },
        var("MANIFEST", "  "),
        true,
        var("BINARY", "demo-cli"),
    )
    .err()
    .unwrap();
    assert!(matches!(error, ToolingProbeTargetError::MissingEnvironment { name } if name == "VERSION"));
}
